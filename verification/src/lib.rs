pub mod aggregate;
pub mod configuration;
pub mod encryption;
pub mod error;
pub mod normalized_path;
pub mod percent;
pub mod prop_storages;
pub mod repository;
pub mod s3_backend;
pub mod serde_types;
pub mod text;
