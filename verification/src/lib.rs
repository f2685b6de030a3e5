//! An in-memory data-structure server core that speaks a Redis-compatible wire
//! protocol: frames and their byte-exact codec, the command model, and the
//! store the commands run against.

pub mod backend;
pub mod cmd;
pub mod network;
pub mod resp;
pub mod respv2;

pub use backend::Backend;
pub use resp::array::RespArray;
pub use resp::bulk_string::BulkString;
pub use resp::double::RespDouble;
pub use resp::frame::RespFrame;
pub use resp::map::RespMap;
pub use resp::null::RespNull;
pub use resp::set::RespSet;
pub use resp::simple_error::SimpleError;
pub use resp::simple_string::SimpleString;
pub use resp::{RespDecode, RespEncode, RespError};
