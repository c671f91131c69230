pub mod error;
pub mod oss;
pub mod paths;
pub mod payload;
pub mod ssh;
pub mod transfer;
pub mod unzip;
pub mod walk;
