//! Length-prefixed framing of uProtocol messages over stream sockets, and the
//! listener registry of a socket transport that dispatches decoded messages by
//! URI filters.

pub mod can_frame;
pub mod frame;
pub mod transport;
pub mod uri;
