//! The events that the node reports to the application.

use vstd::prelude::*;
use crate::peer::{PeerId, Multiaddr};

verus! {

/// An event reported by the node.
#[derive(Debug)]
pub enum AppEvent {
    /// A connection to a peer was established.
    PeerConnected(PeerId),
    /// A connection to a peer was closed.
    PeerDisconnected(PeerId),
    /// A peer was found on the local network at an address.
    PeerDiscovered(PeerId, Multiaddr),
    /// A broadcast chat message arrived.
    MessageReceived { peer: PeerId, message: String },
    /// A private text message arrived.
    PrivateText(PeerId, String),
    /// A peer offers a file.
    FileRequestReceived { peer: PeerId, transfer_id: u64, file_name: String, file_size: u64 },
    /// This node began sending a file.
    FileTransferStarted { peer: PeerId, file_name: String, transfer_id: u64 },
    /// More of an incoming file has arrived.
    FileTransferProgress { transfer_id: u64, peer: PeerId, received: u64, total: u64 },
    /// A piece of a file arrived.
    FileChunkReceived { peer: PeerId, transfer_id: u64, offset: u64, data: Vec<u8>, is_last: bool },
    /// An incoming file is complete.
    FileReceived { peer: PeerId, transfer_id: u64, file_name: String, data: Vec<u8> },
    /// The last piece of an outgoing file was handed to the network.
    FileSent { peer: PeerId, transfer_id: u64 },
    /// The peers connected when they were asked for.
    PeerList(Vec<PeerId>),
}

/// What an event holds, as plain values.
pub enum AppEventView {
    PeerConnected(Seq<u8>),
    PeerDisconnected(Seq<u8>),
    PeerDiscovered(Seq<u8>, Seq<u8>),
    MessageReceived { peer: Seq<u8>, message: Seq<char> },
    PrivateText(Seq<u8>, Seq<char>),
    FileRequestReceived { peer: Seq<u8>, transfer_id: u64, file_name: Seq<char>, file_size: u64 },
    FileTransferStarted { peer: Seq<u8>, file_name: Seq<char>, transfer_id: u64 },
    FileTransferProgress { transfer_id: u64, peer: Seq<u8>, received: u64, total: u64 },
    FileChunkReceived { peer: Seq<u8>, transfer_id: u64, offset: u64, data: Seq<u8>, is_last: bool },
    FileReceived { peer: Seq<u8>, transfer_id: u64, file_name: Seq<char>, data: Seq<u8> },
    FileSent { peer: Seq<u8>, transfer_id: u64 },
    PeerList(Seq<Seq<u8>>),
}

impl View for AppEvent {
    type V = AppEventView;

    open spec fn view(&self) -> AppEventView {
        match self {
            AppEvent::PeerConnected(p) => AppEventView::PeerConnected(p@),
            AppEvent::PeerDisconnected(p) => AppEventView::PeerDisconnected(p@),
            AppEvent::PeerDiscovered(p, a) => AppEventView::PeerDiscovered(p@, a@),
            AppEvent::MessageReceived { peer, message } => AppEventView::MessageReceived {
                peer: peer@,
                message: message@,
            },
            AppEvent::PrivateText(p, t) => AppEventView::PrivateText(p@, t@),
            AppEvent::FileRequestReceived { peer, transfer_id, file_name, file_size } =>
                AppEventView::FileRequestReceived {
                    peer: peer@,
                    transfer_id: *transfer_id,
                    file_name: file_name@,
                    file_size: *file_size,
                },
            AppEvent::FileTransferStarted { peer, file_name, transfer_id } =>
                AppEventView::FileTransferStarted {
                    peer: peer@,
                    file_name: file_name@,
                    transfer_id: *transfer_id,
                },
            AppEvent::FileTransferProgress { transfer_id, peer, received, total } =>
                AppEventView::FileTransferProgress {
                    transfer_id: *transfer_id,
                    peer: peer@,
                    received: *received,
                    total: *total,
                },
            AppEvent::FileChunkReceived { peer, transfer_id, offset, data, is_last } =>
                AppEventView::FileChunkReceived {
                    peer: peer@,
                    transfer_id: *transfer_id,
                    offset: *offset,
                    data: data@,
                    is_last: *is_last,
                },
            AppEvent::FileReceived { peer, transfer_id, file_name, data } =>
                AppEventView::FileReceived {
                    peer: peer@,
                    transfer_id: *transfer_id,
                    file_name: file_name@,
                    data: data@,
                },
            AppEvent::FileSent { peer, transfer_id } => AppEventView::FileSent {
                peer: peer@,
                transfer_id: *transfer_id,
            },
            AppEvent::PeerList(ps) => AppEventView::PeerList(crate::peer::peer_ids(ps@)),
        }
    }
}

} // verus!
