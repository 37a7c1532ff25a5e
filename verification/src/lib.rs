//! Queries Teeworlds master servers for the game servers they know, and game
//! servers for their status: the requests to send, and what the replies say.

pub mod buffer;
pub mod common;
pub mod errors;
pub mod fields;
pub mod masterserver;
pub mod server;
pub mod util;

pub use common::Player;
pub use errors::RequestError;
pub use masterserver::{IpAddress, MasterServer, ServerAddress, ServerList};
pub use server::{InfoQuery, ServerInfo};
pub use util::{create_packet, PacketType};
