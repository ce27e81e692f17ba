//! Peer identities as raw bytes, and the set of connected peers.

use vstd::prelude::*;

verus! {

/// The identity of a peer, held as the bytes of its multihash.
#[derive(Debug)]
pub struct PeerId {
    pub bytes: Vec<u8>,
}

impl View for PeerId {
    type V = Seq<u8>;

    open spec fn view(&self) -> Seq<u8> {
        self.bytes@
    }
}

impl PeerId {
    /// Builds a peer identity from the bytes of its multihash.
    pub fn from_bytes(bytes: Vec<u8>) -> (p: PeerId)
        ensures
            p@ == bytes@,
    {
        PeerId { bytes }
    }

    /// A second value with the same identity.
    pub fn duplicate(&self) -> (p: PeerId)
        ensures
            p@ == self@,
    {
        let bytes = self.bytes.clone();
        assert(bytes@ =~= self.bytes@);
        PeerId { bytes }
    }

    /// Whether two identities are the same.
    pub fn same_as(&self, other: &PeerId) -> (r: bool)
        ensures
            r == (self@ == other@),
    {
        let n = self.bytes.len();
        if n != other.bytes.len() {
            return false;
        }
        let mut i: usize = 0;
        while i < n
            invariant
                n == self.bytes.len(),
                n == other.bytes.len(),
                i <= n,
                forall|j: int| 0 <= j < i ==> self.bytes@[j] == other.bytes@[j],
            decreases n - i,
        {
            if self.bytes[i] != other.bytes[i] {
                return false;
            }
            i = i + 1;
        }
        assert(self.bytes@ =~= other.bytes@);
        true
    }
}

/// A network address, held as the bytes of its multiaddr encoding.
#[derive(Debug)]
pub struct Multiaddr {
    pub bytes: Vec<u8>,
}

impl View for Multiaddr {
    type V = Seq<u8>;

    open spec fn view(&self) -> Seq<u8> {
        self.bytes@
    }
}

impl Multiaddr {
    /// Builds an address from the bytes of its multiaddr encoding.
    pub fn from_bytes(bytes: Vec<u8>) -> (a: Multiaddr)
        ensures
            a@ == bytes@,
    {
        Multiaddr { bytes }
    }

    /// A second value holding the same address.
    pub fn duplicate(&self) -> (a: Multiaddr)
        ensures
            a@ == self@,
    {
        let bytes = self.bytes.clone();
        assert(bytes@ =~= self.bytes@);
        Multiaddr { bytes }
    }
}

/// The identities of a sequence of peers, in order.
pub open spec fn peer_ids(s: Seq<PeerId>) -> Seq<Seq<u8>> {
    s.map_values(|p: PeerId| p@)
}

/// The peers currently connected, each held once.
pub struct PeerManager {
    peers: Vec<PeerId>,
}

impl Default for PeerManager {
    /// No peers.
    fn default() -> (m: Self)
        ensures
            m.view() == Set::<Seq<u8>>::empty(),
    {
        PeerManager::new()
    }
}

impl View for PeerManager {
    type V = Set<Seq<u8>>;

    /// The peers held, as a set of identities.
    closed spec fn view(&self) -> Set<Seq<u8>> {
        peer_ids(self.peers@).to_set()
    }
}

impl PeerManager {
    /// The set of peers held is finite.
    pub proof fn lemma_finite(&self)
        ensures
            self.view().finite(),
    {
        vstd::seq_lib::seq_to_set_is_finite(peer_ids(self.peers@));
    }

    /// No identity is held twice.
    #[verifier::type_invariant]
    spec fn inv(&self) -> bool {
        peer_ids(self.peers@).no_duplicates()
    }

    /// An empty set of peers.
    pub fn new() -> (m: PeerManager)
        ensures
            m.view() == Set::<Seq<u8>>::empty(),
    {
        let m = PeerManager { peers: Vec::new() };
        assert(m.view() =~= Set::<Seq<u8>>::empty());
        m
    }

    /// The position of `peer` in the list, if it is held.
    fn position(&self, peer: &PeerId) -> (r: Option<usize>)
        ensures
            match r {
                Some(i) => i < self.peers@.len() && self.peers@[i as int]@ == peer@,
                None => !self.view().contains(peer@),
            },
    {
        let n = self.peers.len();
        let mut i: usize = 0;
        while i < n
            invariant
                n == self.peers@.len(),
                i <= n,
                forall|j: int| 0 <= j < i ==> self.peers@[j]@ != peer@,
            decreases n - i,
        {
            if self.peers[i].same_as(peer) {
                return Some(i);
            }
            i = i + 1;
        }
        proof {
            if self.view().contains(peer@) {
                let k = choose|k: int| 0 <= k < n && peer_ids(self.peers@)[k] == peer@;
                assert(self.peers@[k]@ == peer@);
            }
        }
        None
    }

    /// Adds a peer; adding one already held changes nothing.
    pub fn add(&mut self, peer: PeerId)
        ensures
            final(self).view() == old(self).view().insert(peer@),
    {
        proof {
            use_type_invariant(&*self);
        }
        match self.position(&peer) {
            Some(i) => {
                assert(peer_ids(self.peers@)[i as int] == peer@);
                assert(self.view() =~= self.view().insert(peer@));
            },
            None => {
                let ghost before = peer_ids(self.peers@);
                let mut peers: Vec<PeerId> = Vec::new();
                std::mem::swap(&mut peers, &mut self.peers);
                peers.push(peer);
                assert(peer_ids(peers@) =~= before.push(peer@));
                self.peers = peers;
                assert forall|p: Seq<u8>| #[trigger] before.push(peer@).contains(p) <==> (before.contains(p) || p == peer@) by {
                    if before.contains(p) {
                        let k = choose|k: int| 0 <= k < before.len() && before[k] == p;
                        assert(before.push(peer@)[k] == p);
                    }
                    if p == peer@ {
                        assert(before.push(peer@)[before.len() as int] == p);
                    }
                }
                assert(self.view() =~= old(self).view().insert(peer@));
            },
        }
    }

    /// Removes a peer; removing one not held changes nothing.
    pub fn remove(&mut self, peer: &PeerId)
        ensures
            final(self).view() == old(self).view().remove(peer@),
    {
        proof {
            use_type_invariant(&*self);
        }
        match self.position(peer) {
            None => {
                assert(self.view() =~= self.view().remove(peer@));
            },
            Some(i) => {
                let ghost before = peer_ids(self.peers@);
                let ghost n = before.len();
                let mut peers: Vec<PeerId> = Vec::new();
                std::mem::swap(&mut peers, &mut self.peers);
                let _gone = peers.swap_remove(i);
                let ghost after = peer_ids(peers@);
                assert(after =~= before.update(i as int, before[n - 1]).drop_last());
                assert forall|p: Seq<u8>| after.contains(p) <==> (before.contains(p) && p != peer@) by {
                    if after.contains(p) {
                        let k = choose|k: int| 0 <= k < after.len() && after[k] == p;
                        assert(before[i as int] == peer@);
                        if k == i {
                            assert(before[n - 1] == p);
                            assert(n - 1 != i);
                        } else {
                            assert(before[k] == p);
                        }
                    }
                    if before.contains(p) && p != peer@ {
                        let k = choose|k: int| 0 <= k < n && before[k] == p;
                        if k == n - 1 {
                            assert(after[i as int] == p);
                        } else {
                            assert(after[k] == p);
                        }
                    }
                }
                assert(after.no_duplicates());
                self.peers = peers;
                assert(self.view() =~= old(self).view().remove(peer@));
            },
        }
    }

    /// Whether `peer` is held.
    pub fn contains(&self, peer: &PeerId) -> (r: bool)
        ensures
            r == self.view().contains(peer@),
    {
        match self.position(peer) {
            Some(i) => {
                assert(peer_ids(self.peers@)[i as int] == peer@);
                true
            },
            None => false,
        }
    }

    /// Every peer held, each once.
    pub fn all(&self) -> (r: Vec<PeerId>)
        ensures
            peer_ids(r@).no_duplicates(),
            peer_ids(r@).to_set() == self.view(),
            r@.len() == self.view().len(),
    {
        proof {
            use_type_invariant(self);
        }
        let mut out: Vec<PeerId> = Vec::new();
        let n = self.peers.len();
        let mut i: usize = 0;
        while i < n
            invariant
                n == self.peers@.len(),
                i <= n,
                out@.len() == i,
                forall|j: int| 0 <= j < i ==> out@[j]@ == self.peers@[j]@,
            decreases n - i,
        {
            out.push(self.peers[i].duplicate());
            i = i + 1;
        }
        assert(peer_ids(out@) =~= peer_ids(self.peers@));
        proof {
            peer_ids(self.peers@).unique_seq_to_set();
        }
        out
    }
}

/// A change to a set of peers: a peer added or removed.
pub enum PeerChange {
    Add(Seq<u8>),
    Remove(Seq<u8>),
}

/// The set of peers after `changes`, made in order, starting from `start`:
/// what `PeerManager::add` and `PeerManager::remove` do to its view.
pub open spec fn after_changes(start: Set<Seq<u8>>, changes: Seq<PeerChange>) -> Set<Seq<u8>>
    decreases changes.len(),
{
    if changes.len() == 0 {
        start
    } else {
        let before = after_changes(start, changes.drop_last());
        match changes.last() {
            PeerChange::Add(p) => before.insert(p),
            PeerChange::Remove(p) => before.remove(p),
        }
    }
}

/// Whether the last change naming `p` in `changes` adds it: `None` where no
/// change names it.
pub open spec fn last_change_adds(changes: Seq<PeerChange>, p: Seq<u8>) -> Option<bool>
    decreases changes.len(),
{
    if changes.len() == 0 {
        None
    } else {
        match changes.last() {
            PeerChange::Add(q) => if q == p {
                Some(true)
            } else {
                last_change_adds(changes.drop_last(), p)
            },
            PeerChange::Remove(q) => if q == p {
                Some(false)
            } else {
                last_change_adds(changes.drop_last(), p)
            },
        }
    }
}

/// The peer set is a set: starting empty, after any additions and removals,
/// a peer is held exactly where the last change naming it added it.
pub proof fn law_peer_set(changes: Seq<PeerChange>, p: Seq<u8>)
    ensures
        after_changes(Set::empty(), changes).contains(p) == (last_change_adds(changes, p) == Some(
            true,
        )),
    decreases changes.len(),
{
    if changes.len() > 0 {
        law_peer_set(changes.drop_last(), p);
    }
}

} // verus!

