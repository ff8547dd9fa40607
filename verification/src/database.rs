//! The storage capability and the request actor that owns it.

pub mod accept;
pub mod bus;
pub mod error;
pub mod serial;
pub mod sled_backend;
pub mod types;
