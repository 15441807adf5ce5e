pub mod kv;
pub mod mem;
pub mod props;
pub mod store;
pub mod stub;
pub mod yaml;
