pub mod agents;
pub mod chunks;
pub mod errors;
pub mod hashing;
pub mod integrity;
pub mod protocol;
pub mod records;
pub mod store;
pub mod timestamp;
