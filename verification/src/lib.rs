//! A local secret-label manager: secrets live in an opaque per-label secure
//! backend, and a separate, duplicate-free label index provides the
//! enumeration and search surface that the backend lacks. The synchronizer
//! logic here keeps the two stores consistent across create, get, list,
//! delete and search, including the partial-failure cases where one store
//! accepts a write and the other does not.

pub mod backend;
pub mod codec;
pub mod commands;
pub mod errors;
pub mod index;
pub mod laws;
pub mod search;
pub mod sync;
pub mod system;

pub use errors::Error;
