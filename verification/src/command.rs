//! The commands that the application hands to the node.

use vstd::prelude::*;
use std::path::PathBuf;
use crate::peer::PeerId;

verus! {

/// A path on the local file system; the node only carries it.
#[verifier::external_type_specification]
#[verifier::external_body]
pub struct ExPathBuf(PathBuf);

/// A command for the node.
#[derive(Debug)]
pub enum Command {
    /// Publish a chat message to every peer.
    Broadcast(String),
    /// Send a private text message to one peer.
    SendPrivateText { peer: PeerId, text: String },
    /// Send the file at `path` to one peer.
    SendFile { peer: PeerId, path: PathBuf },
    /// Offer a file to one peer.
    SendFileRequest { peer: PeerId, transfer_id: u64, file_name: String, file_size: u64 },
    /// Send one piece of a file to one peer.
    SendFileChunk { transfer_id: u64, peer: PeerId, offset: u64, data: Vec<u8>, is_last: bool },
    /// Report the connected peers.
    ListPeers,
}

/// What a command holds, as plain values.
pub enum CommandView {
    Broadcast(Seq<char>),
    SendPrivateText { peer: Seq<u8>, text: Seq<char> },
    SendFile { peer: Seq<u8>, path: PathBuf },
    SendFileRequest { peer: Seq<u8>, transfer_id: u64, file_name: Seq<char>, file_size: u64 },
    SendFileChunk { transfer_id: u64, peer: Seq<u8>, offset: u64, data: Seq<u8>, is_last: bool },
    ListPeers,
}

impl View for Command {
    type V = CommandView;

    open spec fn view(&self) -> CommandView {
        match self {
            Command::Broadcast(m) => CommandView::Broadcast(m@),
            Command::SendPrivateText { peer, text } => CommandView::SendPrivateText {
                peer: peer@,
                text: text@,
            },
            Command::SendFile { peer, path } => CommandView::SendFile { peer: peer@, path: *path },
            Command::SendFileRequest { peer, transfer_id, file_name, file_size } =>
                CommandView::SendFileRequest {
                    peer: peer@,
                    transfer_id: *transfer_id,
                    file_name: file_name@,
                    file_size: *file_size,
                },
            Command::SendFileChunk { transfer_id, peer, offset, data, is_last } =>
                CommandView::SendFileChunk {
                    transfer_id: *transfer_id,
                    peer: peer@,
                    offset: *offset,
                    data: data@,
                    is_last: *is_last,
                },
            Command::ListPeers => CommandView::ListPeers,
        }
    }
}

} // verus!
