//! Serial session core: port discovery and classification, the line
//! assembly performed by the background readers, and the session
//! lifecycle (connect / disconnect with cooperative cancellation).

pub mod classify;
pub mod discovery;
pub mod lines;
pub mod order;
pub mod reader;
pub mod session;
pub mod storage;
