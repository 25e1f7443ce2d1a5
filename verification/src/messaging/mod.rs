pub mod error;
pub mod options;
pub mod protocol;
pub mod retry;
pub mod transport;
pub mod client;
