//! Files split into pieces for sending, and pieces put back together on
//! receipt.

use vstd::prelude::*;
use vstd::string::*;
use crate::peer::PeerId;

verus! {

/// The size of every piece of a file but the last.
pub const CHUNK_SIZE: usize = 262144;

/// One piece of a file.
#[derive(Debug)]
pub struct FileChunk {
    pub offset: u64,
    pub data: Vec<u8>,
    pub is_last: bool,
}

/// The number of pieces a file of `len` bytes is split into.
pub open spec fn chunk_count(len: nat) -> nat {
    ((len + CHUNK_SIZE - 1) / (CHUNK_SIZE as int)) as nat
}

/// Where piece `i` of a file of `len` bytes ends.
pub open spec fn chunk_end(i: int, len: int) -> int {
    if (i + 1) * CHUNK_SIZE < len {
        (i + 1) * CHUNK_SIZE
    } else {
        len
    }
}

/// Whether `chunks` is the split of `data`: piece `i` starts at
/// `i * CHUNK_SIZE`, holds the bytes up to the next piece or the end, and
/// only the final piece is marked last.
pub open spec fn is_split_of(chunks: Seq<FileChunk>, data: Seq<u8>) -> bool {
    &&& chunks.len() == chunk_count(data.len())
    &&& forall|i: int|
        #![trigger chunks[i]]
        0 <= i < chunks.len() ==> {
            &&& chunks[i].offset == i * CHUNK_SIZE
            &&& chunks[i].data@ == data.subrange(i * CHUNK_SIZE, chunk_end(i, data.len() as int))
            &&& chunks[i].is_last == (i == chunks.len() - 1)
        }
}

pub(crate) proof fn lemma_chunk_start(k: nat, len: nat)
    requires
        k < chunk_count(len),
    ensures
        k * CHUNK_SIZE < len,
{
    assert(k * 262144 < len) by (nonlinear_arith)
        requires
            k < (len + 262144 - 1) / 262144,
    ;
}

pub(crate) proof fn lemma_chunk_count(k: nat, len: nat)
    requires
        k * CHUNK_SIZE < len,
    ensures
        k < chunk_count(len),
        (k + 1 == chunk_count(len)) == ((k + 1) * CHUNK_SIZE >= len),
{
    assert(k < chunk_count(len)) by (nonlinear_arith)
        requires
            k * 262144 < len,
    ;
    assert((k + 1 == chunk_count(len)) == ((k + 1) * 262144 >= len)) by (nonlinear_arith)
        requires
            k * 262144 < len,
    ;
}

/// Splits a file into pieces of `CHUNK_SIZE` bytes, the last one shorter
/// where the size is not a multiple; an empty file gives no pieces.
pub fn split_into_chunks(data: &[u8]) -> (chunks: Vec<FileChunk>)
    ensures
        is_split_of(chunks@, data@),
{
    let len = data.len();
    let mut chunks: Vec<FileChunk> = Vec::new();
    let mut offset: usize = 0;
    let ghost mut k: nat = 0;
    while offset < len
        invariant
            len == data@.len(),
            offset <= len,
            offset == if k * CHUNK_SIZE < len { k * CHUNK_SIZE } else { len as int },
            chunks@.len() == k,
            offset < len ==> k < chunk_count(len as nat),
            offset == len ==> k == chunk_count(len as nat),
            forall|i: int|
                #![trigger chunks@[i]]
                0 <= i < k ==> {
                    &&& chunks@[i].offset == i * CHUNK_SIZE
                    &&& chunks@[i].data@ == data@.subrange(i * CHUNK_SIZE, chunk_end(i, len as int))
                    &&& chunks@[i].is_last == (i == chunk_count(len as nat) - 1)
                },
        decreases len - offset,
    {
        proof {
            lemma_chunk_count(k, len as nat);
        }
        let end: usize = if len - offset > CHUNK_SIZE { offset + CHUNK_SIZE } else { len };
        let mut piece: Vec<u8> = Vec::new();
        let mut j: usize = offset;
        while j < end
            invariant
                offset <= j <= end,
                end <= len,
                len == data@.len(),
                piece@ == data@.subrange(offset as int, j as int),
            decreases end - j,
        {
            piece.push(data[j]);
            assert(piece@ =~= data@.subrange(offset as int, j + 1));
            j = j + 1;
        }
        let is_last = end == len;
        chunks.push(FileChunk { offset: offset as u64, data: piece, is_last });
        offset = end;
        proof {
            k = k + 1;
            if k * CHUNK_SIZE >= len {
                assert(offset == len);
            }
        }
    }
    proof {
        if len == 0 {
            assert(chunk_count(0) == 0);
        }
    }
    chunks
}

/// The bytes of `buf` after writing `chunk` at `offset`: a gap before
/// `offset` is filled with zeros, and bytes past the chunk are kept.
pub open spec fn write_at(buf: Seq<u8>, offset: int, chunk: Seq<u8>) -> Seq<u8> {
    let padded = if offset <= buf.len() {
        buf
    } else {
        buf + Seq::new((offset - buf.len()) as nat, |i: int| 0u8)
    };
    let tail = if offset + chunk.len() < padded.len() {
        padded.subrange(offset + chunk.len(), padded.len() as int)
    } else {
        Seq::empty()
    };
    padded.subrange(0, offset) + chunk + tail
}

/// Writes `chunk` into `buf` at `offset`.
pub fn write_chunk(buf: &mut Vec<u8>, offset: usize, chunk: &[u8])
    requires
        offset + chunk@.len() <= usize::MAX,
    ensures
        final(buf)@ == write_at(old(buf)@, offset as int, chunk@),
{
    let ghost orig = buf@;
    while buf.len() < offset
        invariant
            orig.len() <= offset ==> buf@ == orig + Seq::new((buf@.len() - orig.len()) as nat, |i: int| 0u8),
            orig.len() > offset ==> buf@ == orig,
            buf@.len() <= offset || orig.len() > offset,
        decreases offset - buf@.len(),
    {
        buf.push(0u8);
        assert(buf@ =~= orig + Seq::new((buf@.len() - orig.len()) as nat, |i: int| 0u8));
    }
    let ghost padded = buf@;
    assert(padded =~= (if offset <= orig.len() {
        orig
    } else {
        orig + Seq::new((offset - orig.len()) as nat, |i: int| 0u8)
    }));
    let n = chunk.len();
    let mut j: usize = 0;
    while j < n
        invariant
            n == chunk@.len(),
            j <= n,
            offset + n <= usize::MAX,
            padded.len() >= offset,
            buf@ == padded.subrange(0, offset as int) + chunk@.subrange(0, j as int) + (if offset + j
                < padded.len() {
                padded.subrange(offset + j, padded.len() as int)
            } else {
                Seq::empty()
            }),
        decreases n - j,
    {
        let pos = offset + j;
        if pos < buf.len() {
            buf.set(pos, chunk[j]);
        } else {
            buf.push(chunk[j]);
        }
        assert(buf@ =~= padded.subrange(0, offset as int) + chunk@.subrange(0, j + 1) + (if offset
            + j + 1 < padded.len() {
            padded.subrange(offset + j + 1, padded.len() as int)
        } else {
            Seq::empty()
        }));
        j = j + 1;
    }
    assert(chunk@.subrange(0, n as int) =~= chunk@);
}

} // verus!

verus! {

/// A file that a peer is sending to this node.
pub struct IncomingTransfer {
    pub peer: PeerId,
    pub transfer_id: u64,
    pub file_name: String,
    pub file_size: u64,
    pub data: Vec<u8>,
}

/// What is known of an incoming file: its name, its announced size and the
/// bytes received so far.
pub struct IncomingView {
    pub file_name: Seq<char>,
    pub file_size: u64,
    pub data: Seq<u8>,
}

impl View for IncomingTransfer {
    type V = IncomingView;

    open spec fn view(&self) -> IncomingView {
        IncomingView { file_name: self.file_name@, file_size: self.file_size, data: self.data@ }
    }
}

/// The key of entry `i`: the sending peer and its transfer number.
pub open spec fn key_at(s: Seq<IncomingTransfer>, i: int) -> (Seq<u8>, u64) {
    (s[i].peer@, s[i].transfer_id)
}

/// Whether some entry has key `k`.
pub open spec fn has_key(s: Seq<IncomingTransfer>, k: (Seq<u8>, u64)) -> bool {
    exists|i: int| 0 <= i < s.len() && key_at(s, i) == k
}

/// An entry with key `k`, where there is one.
pub open spec fn index_of(s: Seq<IncomingTransfer>, k: (Seq<u8>, u64)) -> int {
    choose|i: int| 0 <= i < s.len() && key_at(s, i) == k
}

/// The entries as a map from key to what is known of the file.
pub open spec fn map_of(s: Seq<IncomingTransfer>) -> Map<(Seq<u8>, u64), IncomingView> {
    Map::new(|k: (Seq<u8>, u64)| has_key(s, k), |k: (Seq<u8>, u64)| s[index_of(s, k)]@)
}

/// No key occurs twice, and no file holds more than its announced size.
pub open spec fn entries_wf(s: Seq<IncomingTransfer>) -> bool {
    &&& forall|i: int, j: int|
        0 <= i < s.len() && 0 <= j < s.len() && i != j ==> key_at(s, i) != key_at(s, j)
    &&& forall|i: int| 0 <= i < s.len() ==> s[i].data@.len() <= s[i].file_size
}

proof fn lemma_at(s: Seq<IncomingTransfer>, i: int)
    requires
        entries_wf(s),
        0 <= i < s.len(),
    ensures
        map_of(s).contains_key(key_at(s, i)),
        map_of(s)[key_at(s, i)] == s[i]@,
{
    assert(has_key(s, key_at(s, i)));
    let j = index_of(s, key_at(s, i));
    assert(key_at(s, j) == key_at(s, i));
}

proof fn lemma_update(s: Seq<IncomingTransfer>, i: int, e: IncomingTransfer)
    requires
        entries_wf(s),
        0 <= i < s.len(),
        e.peer@ == s[i].peer@,
        e.transfer_id == s[i].transfer_id,
        e.data@.len() <= e.file_size,
    ensures
        entries_wf(s.update(i, e)),
        map_of(s.update(i, e)) == map_of(s).insert(key_at(s, i), e@),
{
    let t = s.update(i, e);
    assert forall|a: int| 0 <= a < t.len() implies key_at(t, a) == key_at(s, a) by {}
    assert(entries_wf(t));
    assert forall|k: (Seq<u8>, u64)| has_key(t, k) <==> has_key(s, k) by {
        if has_key(t, k) {
            let a = choose|a: int| 0 <= a < t.len() && key_at(t, a) == k;
            assert(key_at(s, a) == k);
        }
        if has_key(s, k) {
            let a = choose|a: int| 0 <= a < s.len() && key_at(s, a) == k;
            assert(key_at(t, a) == k);
        }
    }
    assert forall|k: (Seq<u8>, u64)| #[trigger] map_of(t).contains_key(k) implies map_of(t)[k]
        == map_of(s).insert(key_at(s, i), e@)[k] by {
        let a = choose|a: int| 0 <= a < t.len() && key_at(t, a) == k;
        lemma_at(t, a);
        if a != i {
            lemma_at(s, a);
        }
    }
    assert(map_of(t) =~= map_of(s).insert(key_at(s, i), e@));
}

proof fn lemma_push(s: Seq<IncomingTransfer>, e: IncomingTransfer)
    requires
        entries_wf(s),
        !has_key(s, (e.peer@, e.transfer_id)),
        e.data@.len() <= e.file_size,
    ensures
        entries_wf(s.push(e)),
        map_of(s.push(e)) == map_of(s).insert((e.peer@, e.transfer_id), e@),
{
    let t = s.push(e);
    let n = s.len() as int;
    assert forall|a: int| 0 <= a < n implies key_at(t, a) == key_at(s, a) by {}
    assert(key_at(t, n) == (e.peer@, e.transfer_id));
    assert forall|a: int, b: int| 0 <= a < t.len() && 0 <= b < t.len() && a != b implies key_at(t, a)
        != key_at(t, b) by {
        if a == n {
            assert(key_at(s, b) != (e.peer@, e.transfer_id));
        } else if b == n {
            assert(key_at(s, a) != (e.peer@, e.transfer_id));
        }
    }
    assert(entries_wf(t));
    assert forall|k: (Seq<u8>, u64)| has_key(t, k) <==> (has_key(s, k) || k == (e.peer@, e.transfer_id)) by {
        if has_key(t, k) {
            let a = choose|a: int| 0 <= a < t.len() && key_at(t, a) == k;
            if a < n {
                assert(key_at(s, a) == k);
            }
        }
        if has_key(s, k) {
            let a = choose|a: int| 0 <= a < s.len() && key_at(s, a) == k;
            assert(key_at(t, a) == k);
        }
        if k == (e.peer@, e.transfer_id) {
            assert(key_at(t, n) == k);
        }
    }
    assert forall|k: (Seq<u8>, u64)| #[trigger] map_of(t).contains_key(k) implies map_of(t)[k]
        == map_of(s).insert((e.peer@, e.transfer_id), e@)[k] by {
        let a = choose|a: int| 0 <= a < t.len() && key_at(t, a) == k;
        lemma_at(t, a);
        if a != n {
            lemma_at(s, a);
        }
    }
    assert(map_of(t) =~= map_of(s).insert((e.peer@, e.transfer_id), e@));
}

proof fn lemma_remove(s: Seq<IncomingTransfer>, i: int)
    requires
        entries_wf(s),
        0 <= i < s.len(),
    ensures
        entries_wf(s.remove(i)),
        map_of(s.remove(i)) == map_of(s).remove(key_at(s, i)),
{
    let t = s.remove(i);
    assert forall|a: int| 0 <= a < t.len() implies key_at(t, a) == key_at(s, if a < i { a } else { a + 1 }) && t[a] == s[if a < i { a } else { a + 1 }] by {}
    assert forall|a: int, b: int| 0 <= a < t.len() && 0 <= b < t.len() && a != b implies key_at(t, a)
        != key_at(t, b) by {
        let a2 = if a < i { a } else { a + 1 };
        let b2 = if b < i { b } else { b + 1 };
        assert(key_at(s, a2) != key_at(s, b2));
    }
    assert forall|a: int| 0 <= a < t.len() implies t[a].data@.len() <= t[a].file_size by {
        let a2 = if a < i { a } else { a + 1 };
        assert(t[a] == s[a2]);
    }
    assert(entries_wf(t));
    assert forall|k: (Seq<u8>, u64)| has_key(t, k) <==> (has_key(s, k) && k != key_at(s, i)) by {
        if has_key(t, k) {
            let a = choose|a: int| 0 <= a < t.len() && key_at(t, a) == k;
            let a2 = if a < i { a } else { a + 1 };
            assert(key_at(s, a2) == k);
            assert(a2 != i);
        }
        if has_key(s, k) && k != key_at(s, i) {
            let a = choose|a: int| 0 <= a < s.len() && key_at(s, a) == k;
            assert(a != i);
            let a2 = if a < i { a } else { a - 1 };
            assert(key_at(t, a2) == k);
        }
    }
    assert forall|k: (Seq<u8>, u64)| #[trigger] map_of(t).contains_key(k) implies map_of(t)[k]
        == map_of(s)[k] by {
        let a = choose|a: int| 0 <= a < t.len() && key_at(t, a) == k;
        let a2 = if a < i { a } else { a + 1 };
        lemma_at(t, a);
        lemma_at(s, a2);
    }
    assert(map_of(t) =~= map_of(s).remove(key_at(s, i)));
}

} // verus!

verus! {

/// What became of a received piece of a file.
#[derive(Debug)]
pub enum ChunkOutcome {
    /// No transfer with that peer and number is open.
    Unknown,
    /// The piece would reach past the announced size, or past what this
    /// machine can address; it was dropped.
    Rejected,
    /// The piece was stored; `received` bytes of `total` are held. On the
    /// last piece the transfer is closed and the whole file handed back.
    Stored { received: u64, total: u64, completed: Option<(String, Vec<u8>)> },
}

/// Whether a piece of `len` bytes at `offset` fits a file of `file_size`
/// bytes on this machine.
pub open spec fn chunk_fits(offset: u64, len: nat, file_size: u64) -> bool {
    offset + len <= file_size && offset + len <= usize::MAX
}

/// The files that peers are sending to this node.
pub struct IncomingTransfers {
    entries: Vec<IncomingTransfer>,
}

proof fn lemma_write_at_len(buf: Seq<u8>, offset: int, chunk: Seq<u8>)
    requires
        0 <= offset,
    ensures
        write_at(buf, offset, chunk).len() == if offset + chunk.len() > buf.len() {
            offset + chunk.len()
        } else {
            buf.len() as int
        },
{
}

impl View for IncomingTransfers {
    type V = Map<(Seq<u8>, u64), IncomingView>;

    /// The open transfers, keyed by sending peer and transfer number.
    closed spec fn view(&self) -> Map<(Seq<u8>, u64), IncomingView> {
        map_of(self.entries@)
    }
}

impl IncomingTransfers {

    /// Keys are unique and no file holds more than its announced size.
    #[verifier::type_invariant]
    spec fn inv(&self) -> bool {
        entries_wf(self.entries@)
    }

    /// No transfer open.
    pub fn new() -> (t: IncomingTransfers)
        ensures
            t.view() == Map::<(Seq<u8>, u64), IncomingView>::empty(),
    {
        let t = IncomingTransfers { entries: Vec::new() };
        assert(t.view() =~= Map::<(Seq<u8>, u64), IncomingView>::empty());
        t
    }

    fn find(&self, peer: &PeerId, transfer_id: u64) -> (r: Option<usize>)
        ensures
            match r {
                Some(i) => i < self.entries@.len() && key_at(self.entries@, i as int) == (
                peer@,
                transfer_id,
                ),
                None => !self.view().contains_key((peer@, transfer_id)),
            },
    {
        proof {
            use_type_invariant(self);
        }
        let n = self.entries.len();
        let mut i: usize = 0;
        while i < n
            invariant
                n == self.entries@.len(),
                i <= n,
                forall|j: int| 0 <= j < i ==> key_at(self.entries@, j) != (peer@, transfer_id),
            decreases n - i,
        {
            if self.entries[i].transfer_id == transfer_id && self.entries[i].peer.same_as(peer) {
                return Some(i);
            }
            i = i + 1;
        }
        None
    }

    /// Opens a transfer of `file_name`, announced as `file_size` bytes, from
    /// `peer`; an open transfer with the same peer and number starts over.
    pub fn begin(&mut self, peer: PeerId, transfer_id: u64, file_name: String, file_size: u64)
        ensures
            final(self).view() == old(self).view().insert(
                (peer@, transfer_id),
                IncomingView { file_name: file_name@, file_size, data: Seq::empty() },
            ),
    {
        proof {
            use_type_invariant(&*self);
        }
        let found = self.find(&peer, transfer_id);
        let e = IncomingTransfer { peer, transfer_id, file_name, file_size, data: Vec::new() };
        let mut entries: Vec<IncomingTransfer> = Vec::new();
        std::mem::swap(&mut entries, &mut self.entries);
        match found {
            Some(i) => {
                proof {
                    lemma_update(entries@, i as int, e);
                }
                entries.set(i, e);
            },
            None => {
                proof {
                    lemma_push(entries@, e);
                }
                entries.push(e);
            },
        }
        self.entries = entries;
    }

    /// Stores a piece of an incoming file: it is written at `offset` into
    /// the bytes held, where it fits the announced size; on the last piece
    /// the transfer is closed.
    pub fn receive(&mut self, peer: &PeerId, transfer_id: u64, offset: u64, chunk: &[u8], is_last: bool) -> (r: ChunkOutcome)
        ensures
            ({
                let key = (peer@, transfer_id);
                let before = old(self).view();
                if !before.contains_key(key) {
                    r is Unknown && final(self).view() == before
                } else if !chunk_fits(offset, chunk@.len(), before[key].file_size) {
                    r is Rejected && final(self).view() == before
                } else {
                    let e = before[key];
                    let data = write_at(e.data, offset as int, chunk@);
                    match r {
                        ChunkOutcome::Stored { received, total, completed } => {
                            &&& received == data.len()
                            &&& total == e.file_size
                            &&& if is_last {
                                &&& final(self).view() == before.remove(key)
                                &&& completed matches Some((name, bytes)) && name@ == e.file_name
                                    && bytes@ == data
                            } else {
                                &&& final(self).view() == before.insert(
                                    key,
                                    IncomingView { data, ..e },
                                )
                                &&& completed is None
                            }
                        },
                        _ => false,
                    }
                }
            }),
    {
        proof {
            use_type_invariant(&*self);
        }
        let found = self.find(peer, transfer_id);
        let i = match found {
            None => {
                return ChunkOutcome::Unknown;
            },
            Some(i) => i,
        };
        proof {
            lemma_at(self.entries@, i as int);
        }
        let file_size = self.entries[i].file_size;
        let len = chunk.len();
        if offset > file_size || (len as u64) > file_size - offset || offset > (usize::MAX as u64)
            || len > usize::MAX - (offset as usize) {
            return ChunkOutcome::Rejected;
        }
        let ghost before = self.entries@;
        let mut entries: Vec<IncomingTransfer> = Vec::new();
        std::mem::swap(&mut entries, &mut self.entries);
        let mut e = entries.remove(i);
        proof {
            lemma_remove(before, i as int);
            lemma_write_at_len(e.data@, offset as int, chunk@);
        }
        write_chunk(&mut e.data, offset as usize, chunk);
        let received = e.data.len() as u64;
        if is_last {
            self.entries = entries;
            ChunkOutcome::Stored { received, total: file_size, completed: Some((e.file_name, e.data)) }
        } else {
            let ghost mid = entries@;
            proof {
                assert(!has_key(mid, (e.peer@, e.transfer_id))) by {
                    assert(!map_of(mid).contains_key(key_at(before, i as int)));
                }
                lemma_push(mid, e);
            }
            entries.push(e);
            self.entries = entries;
            proof {
                assert(map_of(before).remove(key_at(before, i as int)).insert(
                    key_at(before, i as int),
                    self.entries@.last()@,
                ) =~= map_of(before).insert(key_at(before, i as int), self.entries@.last()@));
            }
            ChunkOutcome::Stored { received, total: file_size, completed: None }
        }
    }
}

} // verus!

verus! {

/// Whether `c` separates the parts of a path.
pub open spec fn is_path_separator(c: char) -> bool {
    c == '/' || c == '\\'
}

/// The last part of a path: what follows its last separator.
pub open spec fn last_component(s: Seq<char>) -> Seq<char>
    decreases s.len(),
{
    if s.len() == 0 {
        Seq::empty()
    } else if is_path_separator(s.last()) {
        Seq::empty()
    } else {
        last_component(s.drop_last()).push(s.last())
    }
}

/// The name under which a received file called `name` is saved in the save
/// directory: the last part of `name`, so that the file stays inside that
/// directory; where that part is empty, `.` or `..`, the fixed name
/// `FALLBACK_FILE_NAME`.
pub open spec fn saved_file_name(name: Seq<char>) -> Seq<char> {
    let c = last_component(name);
    if c.len() == 0 || c == seq!['.'] || c == seq!['.', '.'] {
        FALLBACK_FILE_NAME@
    } else {
        c
    }
}

/// The name given to a received file whose own name has no usable last part.
pub const FALLBACK_FILE_NAME: &'static str = "received_file";

/// The name under which a received file called `name` is saved.
pub fn safe_file_name(name: &str) -> (r: String)
    ensures
        r@ == saved_file_name(name@),
{
    let n = name.unicode_len();
    let mut start: usize = 0;
    let mut i: usize = 0;
    while i < n
        invariant
            n == name@.len(),
            start <= i <= n,
            last_component(name@.take(i as int)) == name@.subrange(start as int, i as int),
        decreases n - i,
    {
        let c = name.get_char(i);
        proof {
            assert(name@.take(i + 1).drop_last() =~= name@.take(i as int));
            assert(name@.take(i + 1).last() == c);
        }
        if c == '/' || c == '\\' {
            start = i + 1;
            assert(name@.subrange(start as int, i + 1) =~= Seq::<char>::empty());
        } else {
            assert(name@.subrange(start as int, i + 1) =~= name@.subrange(start as int, i as int).push(c));
        }
        i = i + 1;
    }
    assert(name@.take(n as int) =~= name@);
    let part = name.substring_char(start, n);
    let len = part.unicode_len();
    if len == 0 || (len == 1 && part.get_char(0) == '.') || (len == 2 && part.get_char(0) == '.'
        && part.get_char(1) == '.') {
        proof {
            let c = part@;
            if len == 1 {
                assert(c =~= seq!['.']);
            }
            if len == 2 {
                assert(c =~= seq!['.', '.']);
            }
        }
        String::from_str(FALLBACK_FILE_NAME)
    } else {
        proof {
            let c = part@;
            if c == seq!['.'] {
                assert(c[0] == '.');
            }
            if c == seq!['.', '.'] {
                assert(c[0] == '.' && c[1] == '.');
            }
        }
        part.to_owned()
    }
}


proof fn lemma_last_component_of_plain(s: Seq<char>)
    requires
        forall|i: int| 0 <= i < s.len() ==> s[i] != '/' && s[i] != '\\',
    ensures
        last_component(s) == s,
    decreases s.len(),
{
    if s.len() > 0 {
        lemma_last_component_of_plain(s.drop_last());
        assert(s.drop_last().push(s.last()) =~= s);
    }
}

proof fn lemma_last_component_plain(s: Seq<char>)
    ensures
        forall|i: int| 0 <= i < last_component(s).len() ==> #[trigger] last_component(s)[i] != '/'
            && last_component(s)[i] != '\\',
    decreases s.len(),
{
    if s.len() > 0 && !is_path_separator(s.last()) {
        let front = last_component(s.drop_last());
        lemma_last_component_plain(s.drop_last());
        assert forall|i: int| 0 <= i < last_component(s).len() implies #[trigger] last_component(
            s,
        )[i] != '/' && last_component(s)[i] != '\\' by {
            if i < front.len() {
                assert(last_component(s)[i] == front[i]);
            }
        }
    }
}

/// A name that is already a plain file name is kept as it is: where it is
/// not empty, not `.` or `..`, and holds neither `/` nor `\\`, the file is
/// saved under exactly that name, spaces and all.
pub proof fn law_plain_name_kept(name: Seq<char>)
    requires
        name.len() > 0,
        name != seq!['.'],
        name != seq!['.', '.'],
        forall|i: int| 0 <= i < name.len() ==> name[i] != '/' && name[i] != '\\',
    ensures
        saved_file_name(name) == name,
{
    lemma_last_component_of_plain(name);
}

/// A saved file stays in the save directory: the name it is saved under is
/// never empty, `.` or `..`, and holds neither `/` nor `\\`.
pub proof fn law_saved_name_stays_inside(name: Seq<char>)
    ensures
        saved_file_name(name).len() > 0,
        saved_file_name(name) != seq!['.'],
        saved_file_name(name) != seq!['.', '.'],
        forall|i: int|
            0 <= i < saved_file_name(name).len() ==> #[trigger] saved_file_name(name)[i] != '/'
                && saved_file_name(name)[i] != '\\',
{
    reveal_strlit("received_file");
    lemma_last_component_plain(name);
    if saved_file_name(name) == FALLBACK_FILE_NAME@ {
        assert(FALLBACK_FILE_NAME@.len() == 13);
        assert(FALLBACK_FILE_NAME@[0] == 'r');
    }
}

} // verus!
