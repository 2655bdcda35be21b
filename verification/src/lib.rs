pub mod error;
pub mod price;
pub mod address;
pub mod timestamp;
pub mod document;
pub mod settings;
pub mod config;
