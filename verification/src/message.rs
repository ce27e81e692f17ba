//! Chat messages as the application frames them.

use vstd::prelude::*;

verus! {

/// A chat message.
#[derive(Debug)]
pub struct NetMessage {
    /// What kind of message it is.
    pub msg_type: MessageType,
    /// The sender's nickname.
    pub nickname: String,
    /// The message's content.
    pub content: String,
}

/// The kinds of chat message.
#[derive(Clone, Copy, Debug, PartialEq, Eq, Structural)]
pub enum MessageType {
    /// A user joins the network.
    Join,
    /// A chat message.
    Chat,
    /// A user leaves the network.
    Leave,
    /// A file transfer.
    FileTransfer,
}

} // verus!
