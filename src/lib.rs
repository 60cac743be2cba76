pub mod amount;
pub mod codec;
pub mod config;
pub mod error;
pub mod hex;
pub mod record;
pub mod scan;
pub mod timestamp;
pub mod word;
