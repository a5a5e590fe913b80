pub mod command;
pub mod input;
pub mod machine;
pub mod run;
pub mod cli;
pub mod laws;
