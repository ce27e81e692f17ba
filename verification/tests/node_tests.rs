use nodp2p::behaviour::PrivateMessage;
use nodp2p::command::Command;
use nodp2p::event::AppEvent;
use nodp2p::node::{external_addresses, file_transfer_commands, Node, SwarmAction, SwarmInput};
use nodp2p::peer::{Multiaddr, PeerId};
use nodp2p::transfer::CHUNK_SIZE;

fn peer(b: u8) -> PeerId {
    PeerId::from_bytes(vec![0, 4, b, b, b, b])
}

fn addr(b: u8) -> Multiaddr {
    Multiaddr::from_bytes(vec![4, 127, 0, 0, b])
}

fn requests_of(actions: Vec<SwarmAction>) -> Vec<PrivateMessage> {
    actions
        .into_iter()
        .filter_map(|a| match a {
            SwarmAction::SendRequest { request, .. } => Some(request),
            _ => None,
        })
        .collect()
}

#[test]
fn connection_events_track_peers() {
    let mut node = Node::new();
    let actions = node.handle_swarm_input(SwarmInput::ConnectionEstablished(peer(1)));
    assert!(node.is_connected(&peer(1)));
    assert_eq!(actions.len(), 1);
    assert!(matches!(&actions[0], SwarmAction::Emit(AppEvent::PeerConnected(p)) if p.bytes == peer(1).bytes));
    node.handle_swarm_input(SwarmInput::ConnectionEstablished(peer(2)));
    node.handle_swarm_input(SwarmInput::ConnectionEstablished(peer(1)));
    assert_eq!(node.connected_peers().len(), 2);
    let actions = node.handle_swarm_input(SwarmInput::ConnectionClosed(peer(1)));
    assert!(!node.is_connected(&peer(1)));
    assert!(node.is_connected(&peer(2)));
    assert!(matches!(&actions[0], SwarmAction::Emit(AppEvent::PeerDisconnected(p)) if p.bytes == peer(1).bytes));
}

#[test]
fn discovery_reports_dials_and_adds_each_peer() {
    let mut node = Node::new();
    let actions = node.handle_swarm_input(SwarmInput::MdnsDiscovered(vec![(peer(1), addr(1)), (peer(2), addr(2))]));
    assert_eq!(actions.len(), 6);
    assert!(matches!(&actions[0], SwarmAction::Emit(AppEvent::PeerDiscovered(p, a)) if p.bytes == peer(1).bytes && a.bytes == addr(1).bytes));
    assert!(matches!(&actions[1], SwarmAction::Dial(a) if a.bytes == addr(1).bytes));
    assert!(matches!(&actions[2], SwarmAction::AddExplicitPeer(p) if p.bytes == peer(1).bytes));
    assert!(matches!(&actions[3], SwarmAction::Emit(AppEvent::PeerDiscovered(p, a)) if p.bytes == peer(2).bytes && a.bytes == addr(2).bytes));
    assert!(matches!(&actions[5], SwarmAction::AddExplicitPeer(p) if p.bytes == peer(2).bytes));
    assert!(!node.is_connected(&peer(1)));
}

#[test]
fn broadcast_text_is_received_unchanged() {
    let sender = Node::new();
    let mut receiver = Node::new();
    let actions = sender.handle_command(Command::Broadcast("héllo, 世界".to_string()));
    assert_eq!(actions.len(), 1);
    let data = match &actions[0] {
        SwarmAction::Publish(d) => d.clone(),
        other => panic!("unexpected {:?}", other),
    };
    assert_eq!(data, "héllo, 世界".as_bytes());
    let got = receiver.handle_swarm_input(SwarmInput::GossipMessage { source: peer(7), data });
    assert!(matches!(&got[0], SwarmAction::Emit(AppEvent::MessageReceived { peer: p, message }) if p.bytes == peer(7).bytes && message == "héllo, 世界"));
}

#[test]
fn invalid_utf8_is_decoded_lossily() {
    let mut node = Node::new();
    let got = node.handle_swarm_input(SwarmInput::GossipMessage { source: peer(7), data: vec![b'a', 0xff, b'b'] });
    assert!(matches!(&got[0], SwarmAction::Emit(AppEvent::MessageReceived { message, .. }) if message == "a\u{FFFD}b"));
}

#[test]
fn private_text_is_delivered_and_answered() {
    let sender = Node::new();
    let mut receiver = Node::new();
    let actions = sender.handle_command(Command::SendPrivateText { peer: peer(2), text: "secret".to_string() });
    assert_eq!(actions.len(), 1);
    let request = match actions.into_iter().next().unwrap() {
        SwarmAction::SendRequest { peer: p, request } => {
            assert_eq!(p.bytes, peer(2).bytes);
            request
        }
        other => panic!("unexpected {:?}", other),
    };
    let got = receiver.handle_swarm_input(SwarmInput::PrivateRequest { peer: peer(1), request });
    assert_eq!(got.len(), 2);
    assert!(matches!(&got[0], SwarmAction::Emit(AppEvent::PrivateText(p, t)) if p.bytes == peer(1).bytes && t == "secret"));
    assert!(matches!(&got[1], SwarmAction::Respond));
}

#[test]
fn every_request_is_answered_last() {
    let mut node = Node::new();
    let requests = vec![
        PrivateMessage::FileAccept { transfer_id: 1 },
        PrivateMessage::FileDeny { transfer_id: 1 },
        PrivateMessage::FileChunk { transfer_id: 9, offset: 0, data: vec![1], is_last: true },
        PrivateMessage::Text("x".to_string()),
    ];
    for request in requests {
        let got = node.handle_swarm_input(SwarmInput::PrivateRequest { peer: peer(1), request });
        assert!(matches!(got.last(), Some(SwarmAction::Respond)));
        assert_eq!(got.iter().filter(|a| matches!(a, SwarmAction::Respond)).count(), 1);
    }
}

#[test]
fn send_file_command_asks_for_the_file() {
    let node = Node::new();
    let actions = node.handle_command(Command::SendFile { peer: peer(3), path: std::path::PathBuf::from("a.txt") });
    assert!(matches!(&actions[0], SwarmAction::ReadFile { peer: p, path } if p.bytes == peer(3).bytes && path == &std::path::PathBuf::from("a.txt")));
}

#[test]
fn file_sent_is_file_received() {
    let mut sender = Node::new();
    let mut receiver = Node::new();
    let data: Vec<u8> = (0..(2 * CHUNK_SIZE + 1000)).map(|i| (i % 251) as u8).collect();
    let actions = sender.file_loaded(peer(2), "doc.bin".to_string(), data.clone());
    assert!(matches!(&actions[1], SwarmAction::Emit(AppEvent::FileTransferStarted { transfer_id: 0, .. })));
    assert!(matches!(actions.last(), Some(SwarmAction::Emit(AppEvent::FileSent { transfer_id: 0, .. }))));
    let requests = requests_of(actions);
    assert_eq!(requests.len(), 4);
    let mut received = None;
    let mut progress = Vec::new();
    for request in requests {
        for a in receiver.handle_swarm_input(SwarmInput::PrivateRequest { peer: peer(1), request }) {
            match a {
                SwarmAction::Emit(AppEvent::FileReceived { peer: p, transfer_id, file_name, data }) => {
                    assert_eq!(p.bytes, peer(1).bytes);
                    assert_eq!(transfer_id, 0);
                    assert_eq!(file_name, "doc.bin");
                    received = Some(data);
                }
                SwarmAction::Emit(AppEvent::FileTransferProgress { received, total, .. }) => {
                    progress.push((received, total));
                }
                _ => {}
            }
        }
    }
    assert_eq!(received, Some(data));
    let total = (2 * CHUNK_SIZE + 1000) as u64;
    assert_eq!(progress, vec![(CHUNK_SIZE as u64, total), (2 * CHUNK_SIZE as u64, total), (total, total)]);
    let again = sender.file_loaded(peer(2), "b".to_string(), vec![1, 2, 3]);
    assert!(matches!(&again[1], SwarmAction::Emit(AppEvent::FileTransferStarted { transfer_id: 1, .. })));
}

#[test]
fn chunks_outside_the_announced_size_are_dropped() {
    let mut node = Node::new();
    node.handle_swarm_input(SwarmInput::PrivateRequest {
        peer: peer(1),
        request: PrivateMessage::FileRequest { transfer_id: 5, file_name: "f".to_string(), file_size: 4 },
    });
    let got = node.handle_swarm_input(SwarmInput::PrivateRequest {
        peer: peer(1),
        request: PrivateMessage::FileChunk { transfer_id: 5, offset: 2, data: vec![1, 2, 3], is_last: true },
    });
    assert_eq!(got.len(), 2);
    assert!(matches!(&got[0], SwarmAction::Emit(AppEvent::FileChunkReceived { offset: 2, .. })));
    let got = node.handle_swarm_input(SwarmInput::PrivateRequest {
        peer: peer(1),
        request: PrivateMessage::FileChunk { transfer_id: 5, offset: 2, data: vec![1, 2], is_last: true },
    });
    assert!(matches!(&got[1], SwarmAction::Emit(AppEvent::FileTransferProgress { received: 4, total: 4, .. })));
    assert!(matches!(&got[2], SwarmAction::Emit(AppEvent::FileReceived { data, .. }) if data == &vec![0, 0, 1, 2]));
}

#[test]
fn chunks_of_unknown_transfers_are_only_reported() {
    let mut node = Node::new();
    let got = node.handle_swarm_input(SwarmInput::PrivateRequest {
        peer: peer(1),
        request: PrivateMessage::FileChunk { transfer_id: 5, offset: 0, data: vec![1], is_last: false },
    });
    assert_eq!(got.len(), 2);
    assert!(matches!(&got[0], SwarmAction::Emit(AppEvent::FileChunkReceived { transfer_id: 5, .. })));
}

#[test]
fn file_request_is_reported() {
    let mut node = Node::new();
    let got = node.handle_swarm_input(SwarmInput::PrivateRequest {
        peer: peer(1),
        request: PrivateMessage::FileRequest { transfer_id: 3, file_name: "n".to_string(), file_size: 10 },
    });
    assert!(matches!(&got[0], SwarmAction::Emit(AppEvent::FileRequestReceived { transfer_id: 3, file_size: 10, file_name, .. }) if file_name == "n"));
}

#[test]
fn transfer_commands_offer_then_pieces() {
    let data = vec![7u8; CHUNK_SIZE + 1];
    let cmds = file_transfer_commands(&peer(4), 9, &"x".to_string(), &data);
    assert_eq!(cmds.len(), 3);
    assert!(matches!(&cmds[0], Command::SendFileRequest { transfer_id: 9, file_size, .. } if *file_size == (CHUNK_SIZE + 1) as u64));
    assert!(matches!(&cmds[1], Command::SendFileChunk { offset: 0, is_last: false, data, .. } if data.len() == CHUNK_SIZE));
    assert!(matches!(&cmds[2], Command::SendFileChunk { offset, is_last: true, data, .. } if *offset == CHUNK_SIZE as u64 && data.len() == 1));
    let empty = file_transfer_commands(&peer(4), 9, &"x".to_string(), &[]);
    assert_eq!(empty.len(), 1);
}

#[test]
fn external_addresses_are_the_discovered_ones() {
    let r = external_addresses(&vec![(peer(1), addr(1)), (peer(2), addr(9))]);
    assert_eq!(r.len(), 2);
    assert_eq!(r[1].bytes, addr(9).bytes);
}

#[test]
fn list_peers_reports_connected_peers() {
    let mut node = Node::new();
    node.handle_swarm_input(SwarmInput::ConnectionEstablished(peer(1)));
    node.handle_swarm_input(SwarmInput::ConnectionEstablished(peer(2)));
    node.handle_swarm_input(SwarmInput::ConnectionClosed(peer(1)));
    let actions = node.handle_command(Command::ListPeers);
    assert_eq!(actions.len(), 1);
    match &actions[0] {
        SwarmAction::Emit(AppEvent::PeerList(ps)) => {
            assert_eq!(ps.len(), 1);
            assert_eq!(ps[0].bytes, peer(2).bytes);
        }
        other => panic!("unexpected {:?}", other),
    }
}
