//! The messages that peers exchange privately, and the names of the
//! protocols the node speaks.

use vstd::prelude::*;

verus! {

/// The gossip topic on which chat messages are broadcast.
pub const CHAT_TOPIC: &'static str = "chat";

/// The protocol name of the private request-response exchange.
pub const PRIVATE_PROTOCOL: &'static str = "/p2p/chat/private/1";

/// The address the node listens on: every interface, a port the system
/// picks.
pub const LISTEN_ADDRESS: &'static str = "/ip4/0.0.0.0/tcp/0";

/// How often, in seconds, the basic node pings its peers.
pub const PING_INTERVAL_SECS: u64 = 10;

/// A private message: text, or one step of a file transfer.
#[derive(Debug)]
pub enum PrivateMessage {
    /// A text message.
    Text(String),
    /// An offer to send a file.
    FileRequest { transfer_id: u64, file_name: String, file_size: u64 },
    /// The receiver accepts a file transfer.
    FileAccept { transfer_id: u64 },
    /// The receiver refuses a file transfer.
    FileDeny { transfer_id: u64 },
    /// A piece of a file, placed at `offset`.
    FileChunk { transfer_id: u64, offset: u64, data: Vec<u8>, is_last: bool },
}

/// What a private message holds, as plain values.
pub enum PrivateMessageView {
    Text(Seq<char>),
    FileRequest { transfer_id: u64, file_name: Seq<char>, file_size: u64 },
    FileAccept { transfer_id: u64 },
    FileDeny { transfer_id: u64 },
    FileChunk { transfer_id: u64, offset: u64, data: Seq<u8>, is_last: bool },
}

impl View for PrivateMessage {
    type V = PrivateMessageView;

    open spec fn view(&self) -> PrivateMessageView {
        match self {
            PrivateMessage::Text(t) => PrivateMessageView::Text(t@),
            PrivateMessage::FileRequest { transfer_id, file_name, file_size } =>
                PrivateMessageView::FileRequest {
                    transfer_id: *transfer_id,
                    file_name: file_name@,
                    file_size: *file_size,
                },
            PrivateMessage::FileAccept { transfer_id } => PrivateMessageView::FileAccept {
                transfer_id: *transfer_id,
            },
            PrivateMessage::FileDeny { transfer_id } => PrivateMessageView::FileDeny {
                transfer_id: *transfer_id,
            },
            PrivateMessage::FileChunk { transfer_id, offset, data, is_last } =>
                PrivateMessageView::FileChunk {
                    transfer_id: *transfer_id,
                    offset: *offset,
                    data: data@,
                    is_last: *is_last,
                },
        }
    }
}

} // verus!
