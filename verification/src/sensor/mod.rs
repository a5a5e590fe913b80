pub mod checksum;
pub mod time;
pub mod packet;
pub mod client;
pub mod writer;
