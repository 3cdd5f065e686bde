//! Asynchronous I/O building blocks whose decision logic is verified.

pub mod buf_read;
pub mod buf_writer;
pub mod collect;
pub mod copy;
pub mod driver;
pub mod error;
pub mod monitor;
pub mod net;
pub mod path;
pub mod process;
pub mod rt;
pub mod stdio;
pub mod timeout;
pub mod write;
