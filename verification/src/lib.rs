//! A peer-to-peer chat and file-transfer node: the decisions it takes on
//! network events and user commands, with their contracts.

pub mod behaviour;
pub mod command;
pub mod config;
pub mod event;
pub mod identity;
pub mod input;
pub mod message;
pub mod node;
pub mod peer;
pub mod text;
pub mod transfer;

pub use behaviour::PrivateMessage;
pub use command::Command;
pub use config::AppConfig;
pub use event::AppEvent;
pub use identity::{create_key, de_key};
pub use message::{MessageType, NetMessage};
pub use node::{Node, SwarmAction, SwarmInput};
pub use peer::{Multiaddr, PeerId, PeerManager};
