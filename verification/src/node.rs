//! The node's decisions: what it does on each network event and on each
//! command, as a state and the actions it asks the network layer to take.

use vstd::prelude::*;
use vstd::utf8::*;
use std::path::PathBuf;
use crate::behaviour::{PrivateMessage, PrivateMessageView};
use crate::command::{Command, CommandView};
use crate::event::{AppEvent, AppEventView};
use crate::peer::{PeerId, Multiaddr, PeerManager};
use crate::text::{decode_text, encode_text, received_text};
use crate::transfer::{
    CHUNK_SIZE, FileChunk, IncomingTransfers, IncomingView, ChunkOutcome, chunk_count, chunk_end,
    chunk_fits, write_at, split_into_chunks, is_split_of, lemma_chunk_start, lemma_chunk_count,
};

verus! {

/// A network event on which the node takes a decision.
#[derive(Debug)]
pub enum SwarmInput {
    /// A connection to a peer was established.
    ConnectionEstablished(PeerId),
    /// A connection to a peer was closed.
    ConnectionClosed(PeerId),
    /// Local discovery found peers at addresses.
    MdnsDiscovered(Vec<(PeerId, Multiaddr)>),
    /// A message arrived on the chat topic, relayed by `source`.
    GossipMessage { source: PeerId, data: Vec<u8> },
    /// A peer sent a private request, which awaits a response.
    PrivateRequest { peer: PeerId, request: PrivateMessage },
}

/// What a network event holds, as plain values.
pub enum SwarmInputView {
    ConnectionEstablished(Seq<u8>),
    ConnectionClosed(Seq<u8>),
    MdnsDiscovered(Seq<(Seq<u8>, Seq<u8>)>),
    GossipMessage { source: Seq<u8>, data: Seq<u8> },
    PrivateRequest { peer: Seq<u8>, request: PrivateMessageView },
}

impl View for SwarmInput {
    type V = SwarmInputView;

    open spec fn view(&self) -> SwarmInputView {
        match self {
            SwarmInput::ConnectionEstablished(p) => SwarmInputView::ConnectionEstablished(p@),
            SwarmInput::ConnectionClosed(p) => SwarmInputView::ConnectionClosed(p@),
            SwarmInput::MdnsDiscovered(list) => SwarmInputView::MdnsDiscovered(
                list@.map_values(|e: (PeerId, Multiaddr)| (e.0@, e.1@)),
            ),
            SwarmInput::GossipMessage { source, data } => SwarmInputView::GossipMessage {
                source: source@,
                data: data@,
            },
            SwarmInput::PrivateRequest { peer, request } => SwarmInputView::PrivateRequest {
                peer: peer@,
                request: request@,
            },
        }
    }
}

/// An action the node asks of the network layer.
#[derive(Debug)]
pub enum SwarmAction {
    /// Report an event to the application.
    Emit(AppEvent),
    /// Dial an address.
    Dial(Multiaddr),
    /// Add a peer as an explicit gossip peer.
    AddExplicitPeer(PeerId),
    /// Publish bytes on the chat topic.
    Publish(Vec<u8>),
    /// Send a private request to a peer.
    SendRequest { peer: PeerId, request: PrivateMessage },
    /// Answer the private request being handled.
    Respond,
    /// Read the file at `path` and hand its name and bytes back to
    /// `Node::file_loaded` for sending to `peer`.
    ReadFile { peer: PeerId, path: PathBuf },
}

/// What an action holds, as plain values.
pub enum ActionView {
    Emit(AppEventView),
    Dial(Seq<u8>),
    AddExplicitPeer(Seq<u8>),
    Publish(Seq<u8>),
    SendRequest { peer: Seq<u8>, request: PrivateMessageView },
    Respond,
    ReadFile { peer: Seq<u8>, path: PathBuf },
}

impl View for SwarmAction {
    type V = ActionView;

    open spec fn view(&self) -> ActionView {
        match self {
            SwarmAction::Emit(e) => ActionView::Emit(e@),
            SwarmAction::Dial(a) => ActionView::Dial(a@),
            SwarmAction::AddExplicitPeer(p) => ActionView::AddExplicitPeer(p@),
            SwarmAction::Publish(b) => ActionView::Publish(b@),
            SwarmAction::SendRequest { peer, request } => ActionView::SendRequest {
                peer: peer@,
                request: request@,
            },
            SwarmAction::Respond => ActionView::Respond,
            SwarmAction::ReadFile { peer, path } => ActionView::ReadFile { peer: peer@, path: *path },
        }
    }
}

/// The views of a sequence of actions.
pub open spec fn actions_view(a: Seq<SwarmAction>) -> Seq<ActionView> {
    a.map_values(|x: SwarmAction| x@)
}

/// The views of a sequence of commands.
pub open spec fn commands_view(c: Seq<Command>) -> Seq<CommandView> {
    c.map_values(|x: Command| x@)
}

/// The actions taken for a command. `ListPeers` is answered from the
/// node's state, and is stated in `Node::handle_command`.
pub open spec fn command_actions(c: CommandView) -> Seq<ActionView> {
    match c {
        CommandView::Broadcast(m) => seq![ActionView::Publish(encode_utf8(m))],
        CommandView::SendPrivateText { peer, text } => seq![
            ActionView::SendRequest { peer, request: PrivateMessageView::Text(text) },
        ],
        CommandView::SendFile { peer, path } => seq![ActionView::ReadFile { peer, path }],
        CommandView::SendFileRequest { peer, transfer_id, file_name, file_size } => seq![
            ActionView::SendRequest {
                peer,
                request: PrivateMessageView::FileRequest { transfer_id, file_name, file_size },
            },
            ActionView::Emit(AppEventView::FileTransferStarted { peer, file_name, transfer_id }),
        ],
        CommandView::SendFileChunk { transfer_id, peer, offset, data, is_last } => seq![
            ActionView::SendRequest {
                peer,
                request: PrivateMessageView::FileChunk { transfer_id, offset, data, is_last },
            },
        ] + if is_last {
            seq![ActionView::Emit(AppEventView::FileSent { peer, transfer_id })]
        } else {
            Seq::empty()
        },
        CommandView::ListPeers => Seq::empty(),
    }
}

/// The actions taken for a sequence of commands, one after the other.
pub open spec fn all_actions(cs: Seq<CommandView>) -> Seq<ActionView>
    decreases cs.len(),
{
    if cs.len() == 0 {
        Seq::empty()
    } else {
        all_actions(cs.drop_last()) + command_actions(cs.last())
    }
}

/// The actions taken when local discovery reports `list`: for each peer in
/// turn, report it, dial its address and add it as a gossip peer.
pub open spec fn discovery_actions(list: Seq<(Seq<u8>, Seq<u8>)>) -> Seq<ActionView>
    decreases list.len(),
{
    if list.len() == 0 {
        Seq::empty()
    } else {
        let e = list.last();
        discovery_actions(list.drop_last()) + seq![
            ActionView::Emit(AppEventView::PeerDiscovered(e.0, e.1)),
            ActionView::Dial(e.1),
            ActionView::AddExplicitPeer(e.0),
        ]
    }
}

/// The actions taken when `data` arrives on the chat topic from `source`:
/// report it as text.
pub open spec fn gossip_actions(source: Seq<u8>, data: Seq<u8>) -> Seq<ActionView> {
    seq![
        ActionView::Emit(
            AppEventView::MessageReceived { peer: source, message: received_text(data) },
        ),
    ]
}

/// The open incoming transfers after a private request from `peer`, and
/// the actions taken for it.
pub open spec fn request_outcome(
    incoming: Map<(Seq<u8>, u64), IncomingView>,
    peer: Seq<u8>,
    request: PrivateMessageView,
) -> (Map<(Seq<u8>, u64), IncomingView>, Seq<ActionView>) {
    match request {
        PrivateMessageView::Text(t) => (
            incoming,
            seq![ActionView::Emit(AppEventView::PrivateText(peer, t)), ActionView::Respond],
        ),
        PrivateMessageView::FileRequest { transfer_id, file_name, file_size } => (
            incoming.insert(
                (peer, transfer_id),
                IncomingView { file_name, file_size, data: Seq::empty() },
            ),
            seq![
                ActionView::Emit(
                    AppEventView::FileRequestReceived { peer, transfer_id, file_name, file_size },
                ),
                ActionView::Respond,
            ],
        ),
        PrivateMessageView::FileAccept { .. } => (incoming, seq![ActionView::Respond]),
        PrivateMessageView::FileDeny { .. } => (incoming, seq![ActionView::Respond]),
        PrivateMessageView::FileChunk { transfer_id, offset, data, is_last } => {
            let key = (peer, transfer_id);
            let first = ActionView::Emit(
                AppEventView::FileChunkReceived { peer, transfer_id, offset, data, is_last },
            );
            if !incoming.contains_key(key) || !chunk_fits(
                offset,
                data.len(),
                incoming[key].file_size,
            ) {
                (incoming, seq![first, ActionView::Respond])
            } else {
                let e = incoming[key];
                let stored = write_at(e.data, offset as int, data);
                let progress = ActionView::Emit(
                    AppEventView::FileTransferProgress {
                        transfer_id,
                        peer,
                        received: stored.len() as u64,
                        total: e.file_size,
                    },
                );
                if is_last {
                    (
                        incoming.remove(key),
                        seq![
                            first,
                            progress,
                            ActionView::Emit(
                                AppEventView::FileReceived {
                                    peer,
                                    transfer_id,
                                    file_name: e.file_name,
                                    data: stored,
                                },
                            ),
                            ActionView::Respond,
                        ],
                    )
                } else {
                    (
                        incoming.insert(key, IncomingView { data: stored, ..e }),
                        seq![first, progress, ActionView::Respond],
                    )
                }
            }
        },
    }
}

/// The commands that send `data` as file `file_name` to `peer` under
/// transfer number `transfer_id`: an offer announcing its size, then its
/// pieces in order.
pub open spec fn transfer_plan(peer: Seq<u8>, transfer_id: u64, file_name: Seq<char>, data: Seq<u8>) -> Seq<CommandView> {
    seq![
        CommandView::SendFileRequest {
            peer,
            transfer_id,
            file_name,
            file_size: data.len() as u64,
        },
    ] + Seq::new(
        chunk_count(data.len()),
        |i: int|
            CommandView::SendFileChunk {
                transfer_id,
                peer,
                offset: (i * CHUNK_SIZE) as u64,
                data: data.subrange(i * CHUNK_SIZE, chunk_end(i, data.len() as int)),
                is_last: i == chunk_count(data.len()) - 1,
            },
    )
}

/// What the node keeps: the connected peers, the files being received and
/// the number of the next file it sends.
pub struct NodeView {
    pub peers: Set<Seq<u8>>,
    pub incoming: Map<(Seq<u8>, u64), IncomingView>,
    pub next_transfer_id: u64,
}

/// The state of a running node.
pub struct Node {
    peers: PeerManager,
    incoming: IncomingTransfers,
    next_transfer_id: u64,
}

impl View for Node {
    type V = NodeView;

    /// What the node keeps, as plain values.
    closed spec fn view(&self) -> NodeView {
        NodeView {
            peers: self.peers.view(),
            incoming: self.incoming.view(),
            next_transfer_id: self.next_transfer_id,
        }
    }
}

impl Node {

    /// A node with no peers, no transfers, whose first file is number 0.
    pub fn new() -> (n: Node)
        ensures
            n.view().peers == Set::<Seq<u8>>::empty(),
            n.view().incoming == Map::<(Seq<u8>, u64), IncomingView>::empty(),
            n.view().next_transfer_id == 0,
    {
        Node { peers: PeerManager::new(), incoming: IncomingTransfers::new(), next_transfer_id: 0 }
    }

    /// Whether `peer` is connected.
    pub fn is_connected(&self, peer: &PeerId) -> (r: bool)
        ensures
            r == self.view().peers.contains(peer@),
    {
        self.peers.contains(peer)
    }

    /// The connected peers, each once.
    pub fn connected_peers(&self) -> (r: Vec<PeerId>)
        ensures
            crate::peer::peer_ids(r@).no_duplicates(),
            crate::peer::peer_ids(r@).to_set() == self.view().peers,
    {
        self.peers.all()
    }

    /// Takes the actions for a command; the node's state is unchanged. For
    /// `ListPeers` it reports every connected peer once.
    pub fn handle_command(&self, cmd: Command) -> (actions: Vec<SwarmAction>)
        ensures
            cmd@ is ListPeers ==> actions@.len() == 1 && (actions@[0] matches SwarmAction::Emit(
                AppEvent::PeerList(ps),
            ) && crate::peer::peer_ids(ps@).no_duplicates() && crate::peer::peer_ids(ps@).to_set()
                == self.view().peers),
            !(cmd@ is ListPeers) ==> actions_view(actions@) == command_actions(cmd@),
    {
        let ghost c = cmd@;
        let mut actions: Vec<SwarmAction> = Vec::new();
        match cmd {
            Command::Broadcast(m) => {
                actions.push(SwarmAction::Publish(encode_text(&m)));
            },
            Command::SendPrivateText { peer, text } => {
                actions.push(SwarmAction::SendRequest { peer, request: PrivateMessage::Text(text) });
            },
            Command::SendFile { peer, path } => {
                actions.push(SwarmAction::ReadFile { peer, path });
            },
            Command::SendFileRequest { peer, transfer_id, file_name, file_size } => {
                let p2 = peer.duplicate();
                let n2 = file_name.clone();
                actions.push(
                    SwarmAction::SendRequest {
                        peer,
                        request: PrivateMessage::FileRequest { transfer_id, file_name, file_size },
                    },
                );
                actions.push(
                    SwarmAction::Emit(
                        AppEvent::FileTransferStarted { peer: p2, file_name: n2, transfer_id },
                    ),
                );
            },
            Command::SendFileChunk { transfer_id, peer, offset, data, is_last } => {
                let p2 = peer.duplicate();
                actions.push(
                    SwarmAction::SendRequest {
                        peer,
                        request: PrivateMessage::FileChunk { transfer_id, offset, data, is_last },
                    },
                );
                if is_last {
                    actions.push(SwarmAction::Emit(AppEvent::FileSent { peer: p2, transfer_id }));
                }
            },
            Command::ListPeers => {
                actions.push(SwarmAction::Emit(AppEvent::PeerList(self.peers.all())));
                return actions;
            },
        }
        assert(actions_view(actions@) =~= command_actions(c));
        actions
    }

    /// Takes the actions for a network event and updates the state.
    pub fn handle_swarm_input(&mut self, input: SwarmInput) -> (actions: Vec<SwarmAction>)
        ensures
            match input@ {
                SwarmInputView::ConnectionEstablished(p) => {
                    &&& final(self).view() == (NodeView {
                        peers: old(self).view().peers.insert(p),
                        ..old(self).view()
                    })
                    &&& actions_view(actions@) == seq![ActionView::Emit(AppEventView::PeerConnected(p))]
                },
                SwarmInputView::ConnectionClosed(p) => {
                    &&& final(self).view() == (NodeView {
                        peers: old(self).view().peers.remove(p),
                        ..old(self).view()
                    })
                    &&& actions_view(actions@) == seq![
                        ActionView::Emit(AppEventView::PeerDisconnected(p)),
                    ]
                },
                SwarmInputView::MdnsDiscovered(list) => {
                    &&& final(self).view() == old(self).view()
                    &&& actions_view(actions@) == discovery_actions(list)
                },
                SwarmInputView::GossipMessage { source, data } => {
                    &&& final(self).view() == old(self).view()
                    &&& actions_view(actions@) == gossip_actions(source, data)
                },
                SwarmInputView::PrivateRequest { peer, request } => {
                    &&& final(self).view().peers == old(self).view().peers
                    &&& final(self).view().next_transfer_id == old(self).view().next_transfer_id
                    &&& (final(self).view().incoming, actions_view(actions@)) == request_outcome(
                        old(self).view().incoming,
                        peer,
                        request,
                    )
                },
            },
    {
        let ghost inp = input@;
        let mut actions: Vec<SwarmAction> = Vec::new();
        match input {
            SwarmInput::ConnectionEstablished(p) => {
                let p2 = p.duplicate();
                self.peers.add(p);
                actions.push(SwarmAction::Emit(AppEvent::PeerConnected(p2)));
            },
            SwarmInput::ConnectionClosed(p) => {
                self.peers.remove(&p);
                actions.push(SwarmAction::Emit(AppEvent::PeerDisconnected(p)));
            },
            SwarmInput::MdnsDiscovered(list) => {
                let ghost lv = list@.map_values(|e: (PeerId, Multiaddr)| (e.0@, e.1@));
                let n = list.len();
                let mut i: usize = 0;
                while i < n
                    invariant
                        n == list@.len(),
                        i <= n,
                        lv == list@.map_values(|e: (PeerId, Multiaddr)| (e.0@, e.1@)),
                        actions_view(actions@) == discovery_actions(lv.take(i as int)),
                    decreases n - i,
                {
                    let (p, a) = &list[i];
                    actions.push(SwarmAction::Emit(AppEvent::PeerDiscovered(p.duplicate(), a.duplicate())));
                    actions.push(SwarmAction::Dial(a.duplicate()));
                    actions.push(SwarmAction::AddExplicitPeer(p.duplicate()));
                    proof {
                        assert(lv.take(i + 1).drop_last() =~= lv.take(i as int));
                        assert(lv.take(i + 1).last() == lv[i as int]);
                    }
                    assert(actions_view(actions@) =~= discovery_actions(lv.take(i + 1)));
                    i = i + 1;
                }
                assert(lv.take(n as int) =~= lv);
            },
            SwarmInput::GossipMessage { source, data } => {
                let message = decode_text(data.as_slice());
                actions.push(SwarmAction::Emit(AppEvent::MessageReceived { peer: source, message }));
            },
            SwarmInput::PrivateRequest { peer, request } => {
                actions = self.handle_private_request(peer, request);
            },
        }
        actions
    }

    fn handle_private_request(&mut self, peer: PeerId, request: PrivateMessage) -> (actions: Vec<SwarmAction>)
        ensures
            final(self).view().peers == old(self).view().peers,
            final(self).view().next_transfer_id == old(self).view().next_transfer_id,
            (final(self).view().incoming, actions_view(actions@)) == request_outcome(
                old(self).view().incoming,
                peer@,
                request@,
            ),
    {
        let ghost req = request@;
        let mut actions: Vec<SwarmAction> = Vec::new();
        match request {
            PrivateMessage::Text(t) => {
                actions.push(SwarmAction::Emit(AppEvent::PrivateText(peer, t)));
            },
            PrivateMessage::FileRequest { transfer_id, file_name, file_size } => {
                let p2 = peer.duplicate();
                let n2 = file_name.clone();
                self.incoming.begin(p2, transfer_id, n2, file_size);
                actions.push(
                    SwarmAction::Emit(
                        AppEvent::FileRequestReceived { peer, transfer_id, file_name, file_size },
                    ),
                );
            },
            PrivateMessage::FileAccept { .. } => {},
            PrivateMessage::FileDeny { .. } => {},
            PrivateMessage::FileChunk { transfer_id, offset, data, is_last } => {
                let outcome = self.incoming.receive(&peer, transfer_id, offset, data.as_slice(), is_last);
                let p2 = peer.duplicate();
                actions.push(
                    SwarmAction::Emit(
                        AppEvent::FileChunkReceived { peer: p2, transfer_id, offset, data, is_last },
                    ),
                );
                match outcome {
                    ChunkOutcome::Stored { received, total, completed } => {
                        let p3 = peer.duplicate();
                        actions.push(
                            SwarmAction::Emit(
                                AppEvent::FileTransferProgress { transfer_id, peer: p3, received, total },
                            ),
                        );
                        match completed {
                            Some((file_name, bytes)) => {
                                actions.push(
                                    SwarmAction::Emit(
                                        AppEvent::FileReceived {
                                            peer,
                                            transfer_id,
                                            file_name,
                                            data: bytes,
                                        },
                                    ),
                                );
                            },
                            None => {},
                        }
                    },
                    _ => {},
                }
            },
        }
        actions.push(SwarmAction::Respond);
        assert(actions_view(actions@) =~= request_outcome(old(self).view().incoming, peer@, req).1);
        actions
    }

    /// Sends a file that was read for a `SendFile` command: it gets the next
    /// transfer number, and the actions are those of its transfer plan.
    pub fn file_loaded(&mut self, peer: PeerId, file_name: String, data: Vec<u8>) -> (actions: Vec<SwarmAction>)
        ensures
            final(self).view().peers == old(self).view().peers,
            final(self).view().incoming == old(self).view().incoming,
            final(self).view().next_transfer_id == (if old(self).view().next_transfer_id == u64::MAX {
                0u64
            } else {
                (old(self).view().next_transfer_id + 1) as u64
            }),
            actions_view(actions@) == all_actions(
                transfer_plan(peer@, old(self).view().next_transfer_id, file_name@, data@),
            ),
    {
        let transfer_id = self.next_transfer_id;
        self.next_transfer_id = transfer_id.wrapping_add(1);
        let cmds = file_transfer_commands(&peer, transfer_id, &file_name, data.as_slice());
        let ghost plan = commands_view(cmds@);
        let mut actions: Vec<SwarmAction> = Vec::new();
        let mut rest = cmds;
        let ghost total = plan;
        let n = rest.len();
        let mut i: usize = 0;
        while i < n
            invariant
                n == total.len(),
                i <= n,
                total == transfer_plan(peer@, transfer_id, file_name@, data@),
                rest@.len() == n - i,
                forall|j: int| 0 <= j < n - i ==> #[trigger] rest@[j]@ == total[i + j],
                actions_view(actions@) == all_actions(total.take(i as int)),
            decreases n - i,
        {
            let c = rest.remove(0);
            assert(c@ == total[i as int]);
            assert(!(c@ is ListPeers));
            let more = self.handle_command(c);
            let ghost before = actions@;
            let mut more = more;
            actions.append(&mut more);
            proof {
                assert(total.take(i + 1).drop_last() =~= total.take(i as int));
                assert(total.take(i + 1).last() == total[i as int]);
                assert(actions_view(actions@) =~= actions_view(before) + command_actions(total[i as int]));
            }
            i = i + 1;
        }
        assert(total.take(n as int) =~= total);
        actions
    }
}

/// The commands that send `data` as `file_name` to `peer` under transfer
/// number `transfer_id`: the offer, then every piece in order.
pub fn file_transfer_commands(peer: &PeerId, transfer_id: u64, file_name: &String, data: &[u8]) -> (cmds: Vec<Command>)
    ensures
        commands_view(cmds@) == transfer_plan(peer@, transfer_id, file_name@, data@),
{
    let mut cmds: Vec<Command> = Vec::new();
    cmds.push(
        Command::SendFileRequest {
            peer: peer.duplicate(),
            transfer_id,
            file_name: file_name.clone(),
            file_size: data.len() as u64,
        },
    );
    let chunks = split_into_chunks(data);
    let ghost plan = transfer_plan(peer@, transfer_id, file_name@, data@);
    let mut rest = chunks;
    let ghost all = rest@;
    let n = rest.len();
    let mut i: usize = 0;
    while i < n
        invariant
            n == all.len(),
            is_split_of(all, data@),
            i <= n,
            rest@.len() == n - i,
            forall|j: int| 0 <= j < n - i ==> #[trigger] rest@[j] == all[i + j],
            cmds@.len() == i + 1,
            plan == transfer_plan(peer@, transfer_id, file_name@, data@),
            plan.len() == n + 1,
            forall|j: int| 0 <= j <= i ==> #[trigger] cmds@[j]@ == plan[j],
        decreases n - i,
    {
        let c = rest.remove(0);
        assert(c == all[i as int]);
        cmds.push(
            Command::SendFileChunk {
                transfer_id,
                peer: peer.duplicate(),
                offset: c.offset,
                data: c.data,
                is_last: c.is_last,
            },
        );
        proof {
            let k = i as int;
            assert(all[k].offset == k * CHUNK_SIZE);
            let head = seq![
                CommandView::SendFileRequest {
                    peer: peer@,
                    transfer_id,
                    file_name: file_name@,
                    file_size: data@.len() as u64,
                },
            ];
            let tail = Seq::new(
                chunk_count(data@.len()),
                |i: int|
                    CommandView::SendFileChunk {
                        transfer_id,
                        peer: peer@,
                        offset: (i * CHUNK_SIZE) as u64,
                        data: data@.subrange(i * CHUNK_SIZE, chunk_end(i, data@.len() as int)),
                        is_last: i == chunk_count(data@.len()) - 1,
                    },
            );
            assert(plan =~= head + tail);
            assert(k < tail.len());
            assert((head + tail)[k + 1] == tail[k]);
            assert(plan[k + 1] == CommandView::SendFileChunk {
                transfer_id,
                peer: peer@,
                offset: (k * CHUNK_SIZE) as u64,
                data: data@.subrange(k * CHUNK_SIZE, chunk_end(k, data@.len() as int)),
                is_last: k == chunk_count(data@.len()) - 1,
            });
            assert(cmds@[k + 1]@ == plan[k + 1]);
        }
        i = i + 1;
    }
    assert(commands_view(cmds@) =~= plan);
    cmds
}

} // verus!

verus! {

/// The private requests that a sequence of actions sends, in order.
pub open spec fn sent_requests(acts: Seq<ActionView>) -> Seq<PrivateMessageView>
    decreases acts.len(),
{
    if acts.len() == 0 {
        Seq::empty()
    } else {
        sent_requests(acts.drop_last()) + match acts.last() {
            ActionView::SendRequest { request, .. } => seq![request],
            _ => Seq::empty(),
        }
    }
}

/// The open incoming transfers after the private requests `msgs` from
/// `peer` are handled in order, and the actions taken for them.
pub open spec fn deliver(
    incoming: Map<(Seq<u8>, u64), IncomingView>,
    peer: Seq<u8>,
    msgs: Seq<PrivateMessageView>,
) -> (Map<(Seq<u8>, u64), IncomingView>, Seq<ActionView>)
    decreases msgs.len(),
{
    if msgs.len() == 0 {
        (incoming, Seq::empty())
    } else {
        let before = deliver(incoming, peer, msgs.drop_last());
        let step = request_outcome(before.0, peer, msgs.last());
        (step.0, before.1 + step.1)
    }
}

proof fn lemma_sent_requests_add(a: Seq<ActionView>, b: Seq<ActionView>)
    ensures
        sent_requests(a + b) == sent_requests(a) + sent_requests(b),
    decreases b.len(),
{
    if b.len() == 0 {
        assert(a + b =~= a);
        assert(sent_requests(a) + sent_requests(b) =~= sent_requests(a));
    } else {
        lemma_sent_requests_add(a, b.drop_last());
        assert((a + b).drop_last() =~= a + b.drop_last());
        assert((a + b).last() == b.last());
        let tail = match b.last() {
            ActionView::SendRequest { request, .. } => seq![request],
            _ => Seq::empty(),
        };
        assert(sent_requests(a) + sent_requests(b.drop_last()) + tail =~= sent_requests(a) + (
        sent_requests(b.drop_last()) + tail));
    }
}

/// A broadcast text reaches every receiver as the same text: the node
/// publishes its UTF-8 encoding, and a node receiving those bytes reports
/// exactly that text from the relaying peer.
pub proof fn law_broadcast_delivers_text(source: Seq<u8>, text: Seq<char>)
    ensures
        command_actions(CommandView::Broadcast(text)) == seq![ActionView::Publish(encode_utf8(text))],
        gossip_actions(source, encode_utf8(text)) == seq![
            ActionView::Emit(AppEventView::MessageReceived { peer: source, message: text }),
        ],
{
    crate::text::lemma_text_roundtrip(text);
}

/// A private text reaches its receiver unchanged: the sender sends it as a
/// text request, and the receiver reports it from the sender and answers,
/// with no change to its transfers.
pub proof fn law_private_text_delivered(
    incoming: Map<(Seq<u8>, u64), IncomingView>,
    sender: Seq<u8>,
    receiver: Seq<u8>,
    text: Seq<char>,
)
    ensures
        sent_requests(command_actions(CommandView::SendPrivateText { peer: receiver, text })) == seq![
            PrivateMessageView::Text(text),
        ],
        request_outcome(incoming, sender, PrivateMessageView::Text(text)) == (
            incoming,
            seq![ActionView::Emit(AppEventView::PrivateText(sender, text)), ActionView::Respond],
        ),
{
    let acts = command_actions(CommandView::SendPrivateText { peer: receiver, text });
    assert(acts.drop_last() =~= Seq::<ActionView>::empty());
    assert(sent_requests(acts.drop_last()) == Seq::<PrivateMessageView>::empty());
    assert(acts.last() == ActionView::SendRequest { peer: receiver, request: PrivateMessageView::Text(text) });
    assert(sent_requests(acts) =~= seq![PrivateMessageView::Text(text)]);
}

/// Every private request is answered exactly once, after everything else
/// done for it.
pub proof fn law_every_request_answered(
    incoming: Map<(Seq<u8>, u64), IncomingView>,
    peer: Seq<u8>,
    request: PrivateMessageView,
)
    ensures
        request_outcome(incoming, peer, request).1.len() > 0,
        request_outcome(incoming, peer, request).1.last() == ActionView::Respond,
        forall|i: int|
            0 <= i < request_outcome(incoming, peer, request).1.len() - 1
                ==> request_outcome(incoming, peer, request).1[i] != ActionView::Respond,
{
}


/// The requests that the transfer plan of `data` sends: the offer, then the
/// pieces in order.
pub open spec fn plan_requests(transfer_id: u64, file_name: Seq<char>, data: Seq<u8>) -> Seq<PrivateMessageView> {
    seq![
        PrivateMessageView::FileRequest { transfer_id, file_name, file_size: data.len() as u64 },
    ] + Seq::new(
        chunk_count(data.len()),
        |i: int|
            PrivateMessageView::FileChunk {
                transfer_id,
                offset: (i * CHUNK_SIZE) as u64,
                data: data.subrange(i * CHUNK_SIZE, chunk_end(i, data.len() as int)),
                is_last: i == chunk_count(data.len()) - 1,
            },
    )
}

proof fn lemma_sent_single(a: ActionView)
    ensures
        sent_requests(seq![a]) == match a {
            ActionView::SendRequest { request, .. } => seq![request],
            _ => Seq::<PrivateMessageView>::empty(),
        },
{
    assert(seq![a].drop_last() =~= Seq::<ActionView>::empty());
    assert(sent_requests(seq![a].drop_last()) =~= Seq::<PrivateMessageView>::empty());
    assert(seq![a].last() == a);
    let tail = match a {
        ActionView::SendRequest { request, .. } => seq![request],
        _ => Seq::<PrivateMessageView>::empty(),
    };
    assert(Seq::<PrivateMessageView>::empty() + tail =~= tail);
}

proof fn lemma_plan_requests(to: Seq<u8>, transfer_id: u64, file_name: Seq<char>, data: Seq<u8>, k: int)
    requires
        0 <= k <= chunk_count(data.len()) + 1,
    ensures
        sent_requests(all_actions(transfer_plan(to, transfer_id, file_name, data).take(k)))
            == plan_requests(transfer_id, file_name, data).take(k),
    decreases k,
{
    let plan = transfer_plan(to, transfer_id, file_name, data);
    let reqs = plan_requests(transfer_id, file_name, data);
    if k == 0 {
        assert(plan.take(0) =~= Seq::<CommandView>::empty());
        assert(reqs.take(0) =~= Seq::<PrivateMessageView>::empty());
    } else {
        lemma_plan_requests(to, transfer_id, file_name, data, k - 1);
        assert(plan.take(k).drop_last() =~= plan.take(k - 1));
        assert(plan.take(k).last() == plan[k - 1]);
        let acts = command_actions(plan[k - 1]);
        lemma_sent_requests_add(all_actions(plan.take(k - 1)), acts);
        assert(acts.drop_last().len() <= 1);
        if k == 1 {
            assert(acts =~= seq![acts[0]] + seq![acts[1]]);
            lemma_sent_requests_add(seq![acts[0]], seq![acts[1]]);
            lemma_sent_single(acts[0]);
            lemma_sent_single(acts[1]);
            assert(sent_requests(acts) =~= seq![reqs[0]]);
        } else {
            let i = k - 2;
            let msg = PrivateMessageView::FileChunk {
                transfer_id,
                offset: (i * CHUNK_SIZE) as u64,
                data: data.subrange(i * CHUNK_SIZE, chunk_end(i, data.len() as int)),
                is_last: i == chunk_count(data.len()) - 1,
            };
            assert(plan[k - 1] == CommandView::SendFileChunk {
                transfer_id,
                peer: to,
                offset: (i * CHUNK_SIZE) as u64,
                data: data.subrange(i * CHUNK_SIZE, chunk_end(i, data.len() as int)),
                is_last: i == chunk_count(data.len()) - 1,
            });
            assert(reqs[k - 1] == msg);
            let first = ActionView::SendRequest { peer: to, request: msg };
            lemma_sent_single(first);
            if i == chunk_count(data.len()) - 1 {
                let second = ActionView::Emit(AppEventView::FileSent { peer: to, transfer_id });
                assert(acts =~= seq![first] + seq![second]);
                lemma_sent_requests_add(seq![first], seq![second]);
                lemma_sent_single(second);
            } else {
                assert(acts =~= seq![first]);
            }
            assert(sent_requests(acts) =~= seq![reqs[k - 1]]);
        }
        assert(reqs.take(k) =~= reqs.take(k - 1) + seq![reqs[k - 1]]);
    }
}


proof fn lemma_write_at_end(buf: Seq<u8>, chunk: Seq<u8>)
    ensures
        write_at(buf, buf.len() as int, chunk) == buf + chunk,
{
    assert(buf.subrange(0, buf.len() as int) =~= buf);
    assert(buf + chunk + Seq::<u8>::empty() =~= buf + chunk);
}

proof fn lemma_deliver_plan(
    incoming: Map<(Seq<u8>, u64), IncomingView>,
    sender: Seq<u8>,
    transfer_id: u64,
    file_name: Seq<char>,
    data: Seq<u8>,
    k: int,
)
    requires
        0 < data.len() <= usize::MAX,
        0 <= k < chunk_count(data.len()),
    ensures
        deliver(incoming, sender, plan_requests(transfer_id, file_name, data).take(k + 1)).0
            == incoming.insert(
            (sender, transfer_id),
            IncomingView {
                file_name,
                file_size: data.len() as u64,
                data: data.take(k * CHUNK_SIZE),
            },
        ),
    decreases k,
{
    let reqs = plan_requests(transfer_id, file_name, data);
    let key = (sender, transfer_id);
    if k == 0 {
        let one = reqs.take(1);
        assert(one.drop_last() =~= Seq::<PrivateMessageView>::empty());
        assert(one.last() == reqs[0]);
        assert(deliver(incoming, sender, one.drop_last()).0 == incoming);
        assert(data.take(0) =~= Seq::<u8>::empty());
        assert(deliver(incoming, sender, one).0 == incoming.insert(
            (sender, transfer_id),
            IncomingView { file_name, file_size: data.len() as u64, data: data.take(0) },
        ));
    } else {
        lemma_deliver_plan(incoming, sender, transfer_id, file_name, data, k - 1);
        let msgs = reqs.take(k + 1);
        assert(msgs.drop_last() =~= reqs.take(k));
        assert(msgs.last() == reqs[k]);
        let i = k - 1;
        let len = data.len() as int;
        lemma_chunk_start(i as nat, data.len());
        lemma_chunk_start(k as nat, data.len());
        lemma_chunk_count(i as nat, data.len());
        let before = deliver(incoming, sender, reqs.take(k)).0;
        let piece = data.subrange(i * CHUNK_SIZE, chunk_end(i, len));
        assert(reqs[k] == PrivateMessageView::FileChunk {
            transfer_id,
            offset: (i * CHUNK_SIZE) as u64,
            data: piece,
            is_last: i == chunk_count(data.len()) - 1,
        });
        assert(chunk_end(i, len) == k * CHUNK_SIZE);
        assert(before[key].data == data.take(i * CHUNK_SIZE));
        assert(before.contains_key(key));
        assert(before[key].file_size == data.len());
        assert(piece.len() == k * CHUNK_SIZE - i * CHUNK_SIZE);
        assert(chunk_fits((i * CHUNK_SIZE) as u64, piece.len(), before[key].file_size));
        assert(i != chunk_count(data.len()) - 1);
        lemma_write_at_end(data.take(i * CHUNK_SIZE), piece);
        assert(data.take(i * CHUNK_SIZE) + piece =~= data.take(k * CHUNK_SIZE));
        assert(before.insert(key, IncomingView { data: data.take(k * CHUNK_SIZE), ..before[key] })
            =~= incoming.insert(
            key,
            IncomingView {
                file_name,
                file_size: data.len() as u64,
                data: data.take(k * CHUNK_SIZE),
            },
        ));
    }
}

/// A file sent is the file received: the requests of a file's transfer
/// plan, handled in order by the receiving node, close the transfer and
/// report the file with its name and exactly its bytes. An empty file is
/// left out: it has no pieces, so no last piece closes it.
pub proof fn law_file_roundtrip(
    incoming: Map<(Seq<u8>, u64), IncomingView>,
    sender: Seq<u8>,
    receiver: Seq<u8>,
    transfer_id: u64,
    file_name: Seq<char>,
    data: Seq<u8>,
)
    requires
        0 < data.len() <= usize::MAX,
    ensures
        sent_requests(all_actions(transfer_plan(receiver, transfer_id, file_name, data)))
            == plan_requests(transfer_id, file_name, data),
        deliver(incoming, sender, plan_requests(transfer_id, file_name, data)).0 == incoming.remove(
            (sender, transfer_id),
        ),
        deliver(incoming, sender, plan_requests(transfer_id, file_name, data)).1.contains(
            ActionView::Emit(
                AppEventView::FileReceived { peer: sender, transfer_id, file_name, data },
            ),
        ),
{
    let n = chunk_count(data.len()) as int;
    let plan = transfer_plan(receiver, transfer_id, file_name, data);
    let reqs = plan_requests(transfer_id, file_name, data);
    lemma_chunk_start(0, data.len());
    lemma_plan_requests(receiver, transfer_id, file_name, data, n + 1);
    assert(plan.take(n + 1) =~= plan);
    assert(reqs.take(n + 1) =~= reqs);
    let k = n - 1;
    lemma_deliver_plan(incoming, sender, transfer_id, file_name, data, k);
    let len = data.len() as int;
    lemma_chunk_start(k as nat, data.len());
    lemma_chunk_count(k as nat, data.len());
    assert(reqs.drop_last() =~= reqs.take(n as int));
    assert(reqs.take(n as int) =~= reqs.take(k + 1));
    let key = (sender, transfer_id);
    let before = deliver(incoming, sender, reqs.take(k + 1)).0;
    let piece = data.subrange(k * CHUNK_SIZE, chunk_end(k, len));
    assert(reqs.last() == PrivateMessageView::FileChunk {
        transfer_id,
        offset: (k * CHUNK_SIZE) as u64,
        data: piece,
        is_last: true,
    });
    assert(chunk_end(k, len) == len);
    lemma_write_at_end(data.take(k * CHUNK_SIZE), piece);
    assert(data.take(k * CHUNK_SIZE) + piece =~= data);
    let step = request_outcome(before, sender, reqs.last());
    assert(before.insert(key, before[key]).remove(key) =~= incoming.remove(key));
    assert(step.0 =~= incoming.remove(key));
    let all = deliver(incoming, sender, reqs);
    let before_acts = deliver(incoming, sender, reqs.drop_last()).1;
    assert(all.1 == before_acts + step.1);
    assert(all.1[before_acts.len() + 2int] == step.1[2]);
}


/// Local discovery handles each reported peer in turn, with its own
/// address: for the `i`-th entry the actions `3 * i`, `3 * i + 1` and
/// `3 * i + 2` report the peer at its address, dial that address, and add
/// the peer as a gossip peer; nothing else is done.
pub proof fn law_discovery_dials_each_address(list: Seq<(Seq<u8>, Seq<u8>)>)
    ensures
        discovery_actions(list).len() == 3 * list.len(),
        forall|i: int|
            0 <= i < list.len() ==> {
                &&& discovery_actions(list)[3 * i] == ActionView::Emit(
                    AppEventView::PeerDiscovered(#[trigger] list[i].0, list[i].1),
                )
                &&& discovery_actions(list)[3 * i + 1] == ActionView::Dial(list[i].1)
                &&& discovery_actions(list)[3 * i + 2] == ActionView::AddExplicitPeer(list[i].0)
            },
    decreases list.len(),
{
    if list.len() > 0 {
        let front = list.drop_last();
        law_discovery_dials_each_address(front);
        let acts = discovery_actions(list);
        let before = discovery_actions(front);
        assert forall|i: int| 0 <= i < list.len() implies {
            &&& acts[3 * i] == ActionView::Emit(AppEventView::PeerDiscovered(#[trigger] list[i].0, list[i].1))
            &&& acts[3 * i + 1] == ActionView::Dial(list[i].1)
            &&& acts[3 * i + 2] == ActionView::AddExplicitPeer(list[i].0)
        } by {
            if i < list.len() - 1 {
                assert(front[i] == list[i]);
                assert(acts[3 * i] == before[3 * i]);
                assert(acts[3 * i + 1] == before[3 * i + 1]);
                assert(acts[3 * i + 2] == before[3 * i + 2]);
            }
        }
    }
}

/// `new` is `old` with `piece` written at `offset`: it reaches the further
/// of the old end and the piece's end, holds `piece` from `offset` on, and
/// elsewhere holds the old bytes, with zeros in any gap between the old end
/// and `offset`.
pub open spec fn holds_piece(new: Seq<u8>, old: Seq<u8>, offset: int, piece: Seq<u8>) -> bool {
    &&& new.len() == (if offset + piece.len() > old.len() {
        offset + piece.len()
    } else {
        old.len() as int
    })
    &&& forall|j: int| 0 <= j < piece.len() ==> new[offset + j] == #[trigger] piece[j]
    &&& forall|j: int|
        0 <= j < new.len() && (j < offset || j >= offset + piece.len()) ==> #[trigger] new[j] == (
        if j < old.len() {
            old[j]
        } else {
            0u8
        })
}

proof fn lemma_write_at_holds(buf: Seq<u8>, offset: int, chunk: Seq<u8>)
    requires
        0 <= offset,
    ensures
        holds_piece(write_at(buf, offset, chunk), buf, offset, chunk),
{
    let w = write_at(buf, offset, chunk);
    let padded = if offset <= buf.len() {
        buf
    } else {
        buf + Seq::new((offset - buf.len()) as nat, |i: int| 0u8)
    };
    assert(padded.len() >= offset);
    assert(forall|j: int| 0 <= j < padded.len() ==> #[trigger] padded[j] == (if j < buf.len() {
        buf[j]
    } else {
        0u8
    }));
    assert forall|j: int| 0 <= j < chunk.len() implies w[offset + j] == #[trigger] chunk[j] by {}
    assert forall|j: int|
        0 <= j < w.len() && (j < offset || j >= offset + chunk.len()) implies #[trigger] w[j] == (
        if j < buf.len() {
            buf[j]
        } else {
            0u8
        }) by {
        if j >= offset + chunk.len() {
            assert(w[j] == padded[j]);
        } else {
            assert(w[j] == padded[j]);
        }
    }
}

/// A piece of a file being received is reported with what it holds and
/// where it goes: the first action for any piece is the report of its own
/// peer, transfer, offset, bytes and lastness. A piece of a transfer that
/// was offered and that fits in the announced size is written at its
/// offset into the bytes received so far; the progress reported is the
/// new length of those bytes out of the announced size; on the last piece
/// the transfer closes and the file is reported with its name and those
/// bytes. Any other piece changes nothing and is only reported and
/// answered.
pub proof fn law_chunk_reported_and_stored(
    incoming: Map<(Seq<u8>, u64), IncomingView>,
    peer: Seq<u8>,
    transfer_id: u64,
    offset: u64,
    data: Seq<u8>,
    is_last: bool,
)
    ensures
        request_outcome(
            incoming,
            peer,
            PrivateMessageView::FileChunk { transfer_id, offset, data, is_last },
        ).1[0] == ActionView::Emit(
            AppEventView::FileChunkReceived { peer, transfer_id, offset, data, is_last },
        ),
        !(incoming.contains_key((peer, transfer_id)) && offset + data.len() <= incoming[(
        peer,
        transfer_id,
        )].file_size && offset + data.len() <= usize::MAX) ==> request_outcome(
            incoming,
            peer,
            PrivateMessageView::FileChunk { transfer_id, offset, data, is_last },
        ) == (
            incoming,
            seq![
                ActionView::Emit(
                    AppEventView::FileChunkReceived { peer, transfer_id, offset, data, is_last },
                ),
                ActionView::Respond,
            ],
        ),
        (incoming.contains_key((peer, transfer_id)) && offset + data.len() <= incoming[(
        peer,
        transfer_id,
        )].file_size && offset + data.len() <= usize::MAX) ==> exists|stored: Seq<u8>|
            {
                &&& #[trigger] holds_piece(
                    stored,
                    incoming[(peer, transfer_id)].data,
                    offset as int,
                    data,
                )
                &&& request_outcome(
                    incoming,
                    peer,
                    PrivateMessageView::FileChunk { transfer_id, offset, data, is_last },
                ).1[1] == ActionView::Emit(
                    AppEventView::FileTransferProgress {
                        transfer_id,
                        peer,
                        received: stored.len() as u64,
                        total: incoming[(peer, transfer_id)].file_size,
                    },
                )
                &&& is_last ==> request_outcome(
                    incoming,
                    peer,
                    PrivateMessageView::FileChunk { transfer_id, offset, data, is_last },
                ).0 == incoming.remove((peer, transfer_id)) && request_outcome(
                    incoming,
                    peer,
                    PrivateMessageView::FileChunk { transfer_id, offset, data, is_last },
                ).1[2] == ActionView::Emit(
                    AppEventView::FileReceived {
                        peer,
                        transfer_id,
                        file_name: incoming[(peer, transfer_id)].file_name,
                        data: stored,
                    },
                )
                &&& !is_last ==> request_outcome(
                    incoming,
                    peer,
                    PrivateMessageView::FileChunk { transfer_id, offset, data, is_last },
                ).0 == incoming.insert(
                    (peer, transfer_id),
                    IncomingView {
                        file_name: incoming[(peer, transfer_id)].file_name,
                        file_size: incoming[(peer, transfer_id)].file_size,
                        data: stored,
                    },
                )
            },
{
    let key = (peer, transfer_id);
    if incoming.contains_key(key) && offset + data.len() <= incoming[key].file_size && offset
        + data.len() <= usize::MAX {
        let e = incoming[key];
        let stored = write_at(e.data, offset as int, data);
        lemma_write_at_holds(e.data, offset as int, data);
        assert(IncomingView { data: stored, ..e } == IncomingView {
            file_name: e.file_name,
            file_size: e.file_size,
            data: stored,
        });
    }
}

proof fn lemma_all_actions_prefix(cs: Seq<CommandView>, k: int)
    requires
        0 <= k <= cs.len(),
    ensures
        all_actions(cs.take(k)).len() <= all_actions(cs).len(),
        all_actions(cs).take(all_actions(cs.take(k)).len() as int) == all_actions(cs.take(k)),
    decreases cs.len(),
{
    if k == cs.len() {
        assert(cs.take(k) =~= cs);
        assert(all_actions(cs).take(all_actions(cs).len() as int) =~= all_actions(cs));
    } else {
        let front = cs.drop_last();
        lemma_all_actions_prefix(front, k);
        assert(front.take(k) =~= cs.take(k));
        let a = all_actions(cs.take(k));
        assert(all_actions(cs).take(a.len() as int) =~= all_actions(front).take(a.len() as int));
    }
}

/// An offer to send a file is sent as it stands and reported as the start
/// of sending that file: to its peer, under its name and its transfer
/// number.
pub proof fn law_offer_reports_its_file(peer: Seq<u8>, transfer_id: u64, file_name: Seq<char>, file_size: u64)
    ensures
        command_actions(CommandView::SendFileRequest { peer, transfer_id, file_name, file_size })
            == seq![
            ActionView::SendRequest {
                peer,
                request: PrivateMessageView::FileRequest { transfer_id, file_name, file_size },
            },
            ActionView::Emit(AppEventView::FileTransferStarted { transfer_id, peer, file_name }),
        ],
{
}

/// Sending a file begins with its offer, which announces the file's name
/// and exact size under the transfer number, and with the report that
/// sending that file to that peer has started.
pub proof fn law_sending_starts_with_offer(peer: Seq<u8>, transfer_id: u64, file_name: Seq<char>, data: Seq<u8>)
    ensures
        all_actions(transfer_plan(peer, transfer_id, file_name, data)).len() >= 2,
        all_actions(transfer_plan(peer, transfer_id, file_name, data))[0] == (ActionView::SendRequest {
            peer,
            request: PrivateMessageView::FileRequest {
                transfer_id,
                file_name,
                file_size: data.len() as u64,
            },
        }),
        all_actions(transfer_plan(peer, transfer_id, file_name, data))[1] == ActionView::Emit(
            AppEventView::FileTransferStarted { peer, file_name, transfer_id },
        ),
{
    let plan = transfer_plan(peer, transfer_id, file_name, data);
    lemma_all_actions_prefix(plan, 1);
    let one = plan.take(1);
    assert(one.drop_last() =~= Seq::<CommandView>::empty());
    assert(one.last() == plan[0]);
    assert(all_actions(one.drop_last()) == Seq::<ActionView>::empty());
    assert(all_actions(one) =~= command_actions(plan[0]));
    let all = all_actions(plan);
    assert(all[0] == all.take(2)[0]);
    assert(all[1] == all.take(2)[1]);
}

/// An offer received opens a transfer for it, with no bytes yet, under its
/// sender and transfer number, replacing any earlier one under the same
/// pair; it is reported with the sender, the transfer number, the file's
/// name and size, and answered.
pub proof fn law_offer_opens_transfer(
    incoming: Map<(Seq<u8>, u64), IncomingView>,
    peer: Seq<u8>,
    transfer_id: u64,
    file_name: Seq<char>,
    file_size: u64,
)
    ensures
        request_outcome(
            incoming,
            peer,
            PrivateMessageView::FileRequest { transfer_id, file_name, file_size },
        ).0 == incoming.insert(
            (peer, transfer_id),
            IncomingView { file_name: file_name, file_size: file_size, data: seq![] },
        ),
        request_outcome(
            incoming,
            peer,
            PrivateMessageView::FileRequest { transfer_id, file_name, file_size },
        ).1 == seq![
            ActionView::Emit(
                AppEventView::FileRequestReceived { file_size, file_name, transfer_id, peer },
            ),
            ActionView::Respond,
        ],
{
}

/// A piece to send goes to its peer exactly as given, and the last piece
/// alone is followed by the report that the file was sent.
pub proof fn law_piece_sent_as_is(
    peer: Seq<u8>,
    transfer_id: u64,
    offset: u64,
    data: Seq<u8>,
    is_last: bool,
)
    ensures
        command_actions(
            CommandView::SendFileChunk { transfer_id, peer, offset, data, is_last },
        )[0] == (ActionView::SendRequest {
            peer: peer,
            request: PrivateMessageView::FileChunk { offset, data, is_last, transfer_id },
        }),
        command_actions(
            CommandView::SendFileChunk { transfer_id, peer, offset, data, is_last },
        ).len() == if is_last {
            2int
        } else {
            1int
        },
        is_last ==> command_actions(
            CommandView::SendFileChunk { transfer_id, peer, offset, data, is_last },
        )[1] == ActionView::Emit(AppEventView::FileSent { transfer_id, peer }),
{
}

/// The addresses that the basic node announces as external when local
/// discovery reports `list`: each peer's address, in order.
pub fn external_addresses(list: &Vec<(PeerId, Multiaddr)>) -> (r: Vec<Multiaddr>)
    ensures
        r@.len() == list@.len(),
        forall|i: int| 0 <= i < list@.len() ==> #[trigger] r@[i]@ == list@[i].1@,
{
    let mut r: Vec<Multiaddr> = Vec::new();
    let n = list.len();
    let mut i: usize = 0;
    while i < n
        invariant
            n == list@.len(),
            i <= n,
            r@.len() == i,
            forall|j: int| 0 <= j < i ==> #[trigger] r@[j]@ == list@[j].1@,
        decreases n - i,
    {
        r.push(list[i].1.duplicate());
        i = i + 1;
    }
    r
}

} // verus!

