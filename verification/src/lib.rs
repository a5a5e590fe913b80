//! Three small tools with verified cores: the framing and decoding rules of a
//! sensor client, an interpreter for the COW esoteric language, and an
//! interpreter for a tiny Pascal subset.
#![allow(non_camel_case_types)]

pub mod arith;
pub mod text;
pub mod sensor;
pub mod cow;
pub mod pascal;
