//! Session records kept in a key-value store: the record's text encoding,
//! the unified error type, and the decisions of the store's operations.

pub mod error;
pub mod session;
pub mod store;
pub mod memory;

pub use error::MyError;
pub use session::Session;
pub use store::RedisSessionStore;
