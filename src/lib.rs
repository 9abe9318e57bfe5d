//! Networking core of a small real-time arena game: packet framing with
//! sequence and acknowledgement tracking, a typed message protocol with the
//! map encoding it carries, a position quantizer, a connection registry, and
//! the decisions of the server's dispatch and of the client's session.
use vstd::prelude::*;

pub mod channel;
pub mod client;
pub mod input;
pub mod map;
pub mod message;
pub mod packet;
pub mod quantize;
pub mod registry;
pub mod sequence;
pub mod server;

verus! {

/// The port a server listens on unless told otherwise.
pub const DEFAULT_PORT: u16 = 30000;

/// The protocol tag of this game's packets.
pub const PROTOCOL_ID: u16 = 8106;

} // verus!
