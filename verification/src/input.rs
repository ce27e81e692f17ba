//! Reading a line typed by the user as a command.

use vstd::prelude::*;
use vstd::string::*;
use crate::command::{Command, CommandView};
use crate::peer::PeerId;

verus! {

/// Whether `c` has the Unicode `White_Space` property, which
/// `char::is_whitespace` tests.
pub open spec fn is_white_space(c: char) -> bool {
    let v = c as u32;
    (0x09 <= v <= 0x0d) || v == 0x20 || v == 0x85 || v == 0xa0 || v == 0x1680 || (0x2000 <= v
        <= 0x200a) || v == 0x2028 || v == 0x2029 || v == 0x202f || v == 0x205f || v == 0x3000
}

/// `s` without its leading and trailing white space.
pub open spec fn trimmed(s: Seq<char>) -> Seq<char>
    decreases s.len(),
{
    if s.len() > 0 && is_white_space(s[0]) {
        trimmed(s.drop_first())
    } else if s.len() > 0 && is_white_space(s.last()) {
        trimmed(s.drop_last())
    } else {
        s
    }
}

/// What parsing `s` as a base-58 peer identity gives: the identity's bytes,
/// or the text of the parse error.
pub uninterp spec fn peer_id_parse(s: Seq<char>) -> Result<Seq<u8>, Seq<char>>;

/// Whether `c` is white space in the sense of `char::is_whitespace`.
fn white_space(c: char) -> (r: bool)
    ensures
        r == is_white_space(c),
{
    let v: u32 = c as u32;
    (0x09 <= v && v <= 0x0d) || v == 0x20 || v == 0x85 || v == 0xa0 || v == 0x1680 || (0x2000 <= v
        && v <= 0x200a) || v == 0x2028 || v == 0x2029 || v == 0x202f || v == 0x205f || v == 0x3000
}

/// `line` without its leading and trailing white space.
pub fn trim_line(line: &str) -> (r: &str)
    ensures
        r@ == trimmed(line@),
{
    let n = line.unicode_len();
    let mut start: usize = 0;
    assert(line@.subrange(0, n as int) =~= line@);
    while start < n && white_space(line.get_char(start))
        invariant
            n == line@.len(),
            start <= n,
            trimmed(line@) == trimmed(line@.subrange(start as int, n as int)),
        decreases n - start,
    {
        assert(line@.subrange(start as int, n as int).drop_first() =~= line@.subrange(
            start + 1,
            n as int,
        ));
        start = start + 1;
    }
    let mut end: usize = n;
    while end > start && white_space(line.get_char(end - 1))
        invariant
            n == line@.len(),
            start <= end <= n,
            start < n ==> !is_white_space(line@[start as int]),
            trimmed(line@) == trimmed(line@.subrange(start as int, end as int)),
        decreases end,
    {
        assert(line@.subrange(start as int, end as int).drop_last() =~= line@.subrange(
            start as int,
            end - 1,
        ));
        end = end - 1;
    }
    line.substring_char(start, end)
}

/// Calls `<libp2p::PeerId as FromStr>::from_str` (base-58 decoding, then
/// multihash checks) and keeps the identity's bytes, or the error's text.
/// The outcome is left to the name `peer_id_parse`.
#[verifier::external_body]
fn parse_peer_id(s: &str) -> (r: Result<PeerId, String>)
    ensures
        match r {
            Ok(p) => peer_id_parse(s@) == Ok::<Seq<u8>, Seq<char>>(p@),
            Err(e) => peer_id_parse(s@) == Err::<Seq<u8>, Seq<char>>(e@),
        },
{
    match s.parse::<libp2p::PeerId>() {
        Ok(p) => Ok(PeerId { bytes: p.to_bytes() }),
        Err(e) => Err(e.to_string()),
    }
}

/// Whether `s` begins with `p`.
pub open spec fn has_prefix(s: Seq<char>, p: Seq<char>) -> bool {
    p.len() <= s.len() && s.subrange(0, p.len() as int) == p
}

/// The position of the first space in `s` at or after `from`.
pub open spec fn first_space_from(s: Seq<char>, from: int) -> Option<int>
    decreases s.len() - from,
{
    if from < 0 || from >= s.len() {
        None
    } else if s[from] == ' ' {
        Some(from)
    } else {
        first_space_from(s, from + 1)
    }
}

/// A line cut into its command word and arguments.
#[derive(Debug)]
pub enum LineKind {
    /// An empty line.
    Empty,
    /// `/quit` or `/q`.
    Quit,
    /// `/list` or `/l`.
    List,
    /// `/s <peer> <text>`; the text is absent where no space follows the peer.
    Private { peer_text: String, text: Option<String> },
    /// `/file <peer> <path>`; the path is absent where no space follows the peer.
    File { peer_text: String, path: Option<String> },
    /// `/save <transfer> <name>`; the name is absent where no space follows
    /// the transfer number.
    Save { transfer_text: String, file_name: Option<String> },
    /// Any other line, to be broadcast.
    Broadcast(String),
}

/// What a cut line holds, as plain values.
pub enum LineKindView {
    Empty,
    Quit,
    List,
    Private { peer_text: Seq<char>, text: Option<Seq<char>> },
    File { peer_text: Seq<char>, path: Option<Seq<char>> },
    Save { transfer_text: Seq<char>, file_name: Option<Seq<char>> },
    Broadcast(Seq<char>),
}

impl View for LineKind {
    type V = LineKindView;

    open spec fn view(&self) -> LineKindView {
        match self {
            LineKind::Empty => LineKindView::Empty,
            LineKind::Quit => LineKindView::Quit,
            LineKind::List => LineKindView::List,
            LineKind::Private { peer_text, text } => LineKindView::Private {
                peer_text: peer_text@,
                text: match text {
                    Some(t) => Some(t@),
                    None => None,
                },
            },
            LineKind::File { peer_text, path } => LineKindView::File {
                peer_text: peer_text@,
                path: match path {
                    Some(t) => Some(t@),
                    None => None,
                },
            },
            LineKind::Save { transfer_text, file_name } => LineKindView::Save {
                transfer_text: transfer_text@,
                file_name: match file_name {
                    Some(t) => Some(t@),
                    None => None,
                },
            },
            LineKind::Broadcast(t) => LineKindView::Broadcast(t@),
        }
    }
}

/// The peer word of a line whose arguments start at `start`: up to the next
/// space, or to the end.
pub open spec fn peer_word(t: Seq<char>, start: int) -> Seq<char> {
    match first_space_from(t, start) {
        Some(i) => t.subrange(start, i),
        None => t.subrange(start, t.len() as int),
    }
}

/// What follows the space after the peer word, where there is one.
pub open spec fn after_peer(t: Seq<char>, start: int) -> Option<Seq<char>> {
    match first_space_from(t, start) {
        Some(i) => Some(t.subrange(i + 1, t.len() as int)),
        None => None,
    }
}

/// How a trimmed line is cut: `/quit`, `/q`, `/list` and `/l` exactly;
/// `/s ` and `/file ` followed by a peer word and, after a space, the rest;
/// `/save ` followed by a transfer number and, after a space, a file name;
/// an empty line; anything else is broadcast as it stands.
pub open spec fn line_kind(t: Seq<char>) -> LineKindView {
    if t.len() == 0 {
        LineKindView::Empty
    } else if t == "/quit"@ || t == "/q"@ {
        LineKindView::Quit
    } else if t == "/list"@ || t == "/l"@ {
        LineKindView::List
    } else if has_prefix(t, "/s "@) {
        LineKindView::Private {
            peer_text: peer_word(t, ("/s "@).len() as int),
            text: after_peer(t, ("/s "@).len() as int),
        }
    } else if has_prefix(t, "/file "@) {
        LineKindView::File {
            peer_text: peer_word(t, ("/file "@).len() as int),
            path: after_peer(t, ("/file "@).len() as int),
        }
    } else if has_prefix(t, "/save "@) {
        LineKindView::Save {
            transfer_text: peer_word(t, ("/save "@).len() as int),
            file_name: after_peer(t, ("/save "@).len() as int),
        }
    } else {
        LineKindView::Broadcast(t)
    }
}

/// Whether `t` spells `lit`.
fn equals_text(t: &str, lit: &str) -> (r: bool)
    ensures
        r == (t@ == lit@),
{
    let n = t.unicode_len();
    if n != lit.unicode_len() {
        return false;
    }
    let mut i: usize = 0;
    while i < n
        invariant
            n == t@.len(),
            n == lit@.len(),
            i <= n,
            forall|j: int| 0 <= j < i ==> t@[j] == lit@[j],
        decreases n - i,
    {
        if t.get_char(i) != lit.get_char(i) {
            return false;
        }
        i = i + 1;
    }
    assert(t@ =~= lit@);
    true
}

/// Whether `t` begins with `p`.
fn starts_with_text(t: &str, p: &str) -> (r: bool)
    ensures
        r == has_prefix(t@, p@),
{
    let n = p.unicode_len();
    if n > t.unicode_len() {
        return false;
    }
    let mut i: usize = 0;
    while i < n
        invariant
            n == p@.len(),
            n <= t@.len(),
            i <= n,
            forall|j: int| 0 <= j < i ==> t@[j] == p@[j],
        decreases n - i,
    {
        if t.get_char(i) != p.get_char(i) {
            assert(t@.subrange(0, n as int)[i as int] != p@[i as int]);
            return false;
        }
        i = i + 1;
    }
    assert(t@.subrange(0, n as int) =~= p@);
    true
}

/// The first space in `t` at or after `from`.
fn find_space(t: &str, from: usize) -> (r: Option<usize>)
    requires
        from <= t@.len(),
    ensures
        match r {
            Some(i) => first_space_from(t@, from as int) == Some(i as int),
            None => first_space_from(t@, from as int) is None,
        },
{
    let n = t.unicode_len();
    let mut i: usize = from;
    while i < n
        invariant
            n == t@.len(),
            from <= i <= n,
            first_space_from(t@, from as int) == first_space_from(t@, i as int),
        decreases n - i,
    {
        if t.get_char(i) == ' ' {
            return Some(i);
        }
        i = i + 1;
    }
    None
}

/// Cuts the arguments of `/s ` or `/file `, which start at `start`.
fn split_arguments(t: &str, start: usize) -> (r: (String, Option<String>))
    requires
        start <= t@.len(),
    ensures
        r.0@ == peer_word(t@, start as int),
        match r.1 {
            Some(s) => after_peer(t@, start as int) == Some(s@),
            None => after_peer(t@, start as int) is None,
        },
{
    let n = t.unicode_len();
    match find_space(t, start) {
        Some(i) => {
            proof {
                lemma_first_space_in_range(t@, start as int);
            }
            let peer_text = t.substring_char(start, i).to_owned();
            let rest = t.substring_char(i + 1, n).to_owned();
            (peer_text, Some(rest))
        },
        None => (t.substring_char(start, n).to_owned(), None),
    }
}

proof fn lemma_first_space_in_range(s: Seq<char>, from: int)
    ensures
        first_space_from(s, from) matches Some(i) ==> from <= i < s.len() && s[i] == ' ',
    decreases s.len() - from,
{
    if 0 <= from < s.len() && s[from] != ' ' {
        lemma_first_space_in_range(s, from + 1);
    }
}

/// Cuts a trimmed line into its command word and arguments.
pub fn classify_line(t: &str) -> (r: LineKind)
    ensures
        r@ == line_kind(t@),
{
    if t.unicode_len() == 0 {
        LineKind::Empty
    } else if equals_text(t, "/quit") || equals_text(t, "/q") {
        LineKind::Quit
    } else if equals_text(t, "/list") || equals_text(t, "/l") {
        LineKind::List
    } else if starts_with_text(t, "/s ") {
        let start = "/s ".unicode_len();
        let (peer_text, text) = split_arguments(t, start);
        LineKind::Private { peer_text, text }
    } else if starts_with_text(t, "/file ") {
        let start = "/file ".unicode_len();
        let (peer_text, path) = split_arguments(t, start);
        LineKind::File { peer_text, path }
    } else if starts_with_text(t, "/save ") {
        let start = "/save ".unicode_len();
        let (transfer_text, file_name) = split_arguments(t, start);
        LineKind::Save { transfer_text, file_name }
    } else {
        LineKind::Broadcast(t.to_owned())
    }
}


/// What the user asked for with a line.
#[derive(Debug)]
pub enum InputAction {
    /// Nothing: the line was empty.
    Nothing,
    /// Leave the program.
    Quit,
    /// List the connected peers.
    ListPeers,
    /// Hand a command to the node.
    Send(Command),
    /// Read the file at `path` and send it to `peer`.
    SendFileAt { peer: PeerId, path: String },
    /// Save the received file of transfer `transfer_id` as `file_name`.
    SaveTransfer { transfer_id: u64, file_name: String },
    /// The line could not be understood; the text says why.
    Error(String),
}

/// What an input action holds, as plain values.
pub enum InputActionView {
    Nothing,
    Quit,
    ListPeers,
    Send(CommandView),
    SendFileAt { peer: Seq<u8>, path: Seq<char> },
    SaveTransfer { transfer_id: u64, file_name: Seq<char> },
    Error(Seq<char>),
}

impl View for InputAction {
    type V = InputActionView;

    open spec fn view(&self) -> InputActionView {
        match self {
            InputAction::Nothing => InputActionView::Nothing,
            InputAction::Quit => InputActionView::Quit,
            InputAction::ListPeers => InputActionView::ListPeers,
            InputAction::Send(c) => InputActionView::Send(c@),
            InputAction::SendFileAt { peer, path } => InputActionView::SendFileAt {
                peer: peer@,
                path: path@,
            },
            InputAction::SaveTransfer { transfer_id, file_name } => InputActionView::SaveTransfer {
                transfer_id: *transfer_id,
                file_name: file_name@,
            },
            InputAction::Error(e) => InputActionView::Error(e@),
        }
    }
}

/// The message given when a private message has no text.
pub const MISSING_TEXT: &'static str = "缺少消息内容";

/// The message given when a file command has no path.
pub const MISSING_PATH: &'static str = "缺少文件路径";

/// The message given when a save command has no file name.
pub const MISSING_NAME: &'static str = "用法: /save <transfer_id> <filename>";

/// The message given when a save command's transfer number is not one.
pub const BAD_TRANSFER_ID: &'static str = "无效的传输ID";

/// Whether every character of `s` is a decimal digit.
pub open spec fn all_digits(s: Seq<char>) -> bool {
    forall|i: int| 0 <= i < s.len() ==> '0' <= #[trigger] s[i] <= '9'
}

/// The number that the decimal digits `s` spell.
pub open spec fn decimal_value(s: Seq<char>) -> nat
    decreases s.len(),
{
    if s.len() == 0 {
        0
    } else {
        decimal_value(s.drop_last()) * 10 + ((s.last() as u32) - ('0' as u32)) as nat
    }
}

/// The transfer number that `s` spells: one or more decimal digits whose
/// value fits in a `u64`.
pub open spec fn transfer_number(s: Seq<char>) -> Option<u64> {
    if s.len() > 0 && all_digits(s) && decimal_value(s) <= u64::MAX {
        Some(decimal_value(s) as u64)
    } else {
        None
    }
}

proof fn lemma_decimal_prefix(s: Seq<char>, i: int)
    requires
        all_digits(s),
        0 <= i <= s.len(),
    ensures
        decimal_value(s.take(i)) <= decimal_value(s),
    decreases s.len() - i,
{
    if i < s.len() {
        lemma_decimal_prefix(s, i + 1);
        assert(s.take(i + 1).drop_last() =~= s.take(i));
        assert(s.take(i + 1).last() == s[i]);
        assert(decimal_value(s.take(i)) <= decimal_value(s.take(i + 1))) by (nonlinear_arith)
            requires
                decimal_value(s.take(i + 1)) == decimal_value(s.take(i)) * 10 + ((s[i] as u32)
                    - ('0' as u32)) as nat,
        ;
    } else {
        assert(s.take(i) =~= s);
    }
}

/// Reads a transfer number.
pub fn parse_transfer_number(t: &str) -> (r: Option<u64>)
    ensures
        r == transfer_number(t@),
{
    let n = t.unicode_len();
    if n == 0 {
        return None;
    }
    let mut i: usize = 0;
    while i < n
        invariant
            n == t@.len(),
            i <= n,
            forall|j: int| 0 <= j < i ==> '0' <= #[trigger] t@[j] <= '9',
        decreases n - i,
    {
        let c = t.get_char(i);
        if c < '0' || c > '9' {
            return None;
        }
        i = i + 1;
    }
    assert(all_digits(t@));
    let mut value: u64 = 0;
    let mut k: usize = 0;
    while k < n
        invariant
            n == t@.len(),
            k <= n,
            all_digits(t@),
            value == decimal_value(t@.take(k as int)),
        decreases n - k,
    {
        let c = t.get_char(k);
        let d = ((c as u32) - ('0' as u32)) as u64;
        proof {
            assert(t@.take(k + 1).drop_last() =~= t@.take(k as int));
            assert(t@.take(k + 1).last() == t@[k as int]);
            assert('0' <= t@[k as int] <= '9');
        }
        match value.checked_mul(10) {
            Some(v10) => match v10.checked_add(d) {
                Some(v) => {
                    value = v;
                },
                None => {
                    proof {
                        lemma_decimal_prefix(t@, k + 1);
                    }
                    return None;
                },
            },
            None => {
                proof {
                    lemma_decimal_prefix(t@, k + 1);
                }
                return None;
            },
        }
        k = k + 1;
    }
    assert(t@.take(n as int) =~= t@);
    Some(value)
}

/// What a cut line asks for: a private message or a file needs both a
/// peer and what follows it, the text missing being reported before a peer
/// that does not parse; any other line is broadcast.
pub open spec fn input_action(k: LineKindView) -> InputActionView {
    match k {
        LineKindView::Empty => InputActionView::Nothing,
        LineKindView::Quit => InputActionView::Quit,
        LineKindView::List => InputActionView::ListPeers,
        LineKindView::Broadcast(t) => InputActionView::Send(CommandView::Broadcast(t)),
        LineKindView::Private { peer_text, text } => match text {
            None => InputActionView::Error(MISSING_TEXT@),
            Some(x) => match peer_id_parse(peer_text) {
                Err(e) => InputActionView::Error(e),
                Ok(p) => InputActionView::Send(CommandView::SendPrivateText { peer: p, text: x }),
            },
        },
        LineKindView::File { peer_text, path } => match path {
            None => InputActionView::Error(MISSING_PATH@),
            Some(x) => match peer_id_parse(peer_text) {
                Err(e) => InputActionView::Error(e),
                Ok(p) => InputActionView::SendFileAt { peer: p, path: x },
            },
        },
        LineKindView::Save { transfer_text, file_name } => match file_name {
            None => InputActionView::Error(MISSING_NAME@),
            Some(x) => match transfer_number(transfer_text) {
                None => InputActionView::Error(BAD_TRANSFER_ID@),
                Some(id) => InputActionView::SaveTransfer { transfer_id: id, file_name: x },
            },
        },
    }
}

/// Turns a cut line into what it asks for.
pub fn resolve_line(k: LineKind) -> (r: InputAction)
    ensures
        r@ == input_action(k@),
{
    match k {
        LineKind::Empty => InputAction::Nothing,
        LineKind::Quit => InputAction::Quit,
        LineKind::List => InputAction::ListPeers,
        LineKind::Broadcast(t) => InputAction::Send(Command::Broadcast(t)),
        LineKind::Private { peer_text, text } => match text {
            None => InputAction::Error(String::from_str(MISSING_TEXT)),
            Some(x) => match parse_peer_id(peer_text.as_str()) {
                Err(e) => InputAction::Error(e),
                Ok(p) => InputAction::Send(Command::SendPrivateText { peer: p, text: x }),
            },
        },
        LineKind::File { peer_text, path } => match path {
            None => InputAction::Error(String::from_str(MISSING_PATH)),
            Some(x) => match parse_peer_id(peer_text.as_str()) {
                Err(e) => InputAction::Error(e),
                Ok(p) => InputAction::SendFileAt { peer: p, path: x },
            },
        },
        LineKind::Save { transfer_text, file_name } => match file_name {
            None => InputAction::Error(String::from_str(MISSING_NAME)),
            Some(x) => match parse_transfer_number(transfer_text.as_str()) {
                None => InputAction::Error(String::from_str(BAD_TRANSFER_ID)),
                Some(id) => InputAction::SaveTransfer { transfer_id: id, file_name: x },
            },
        },
    }
}

/// Reads a trimmed line.
pub fn parse_command_line(t: &str) -> (r: InputAction)
    ensures
        r@ == input_action(line_kind(t@)),
{
    resolve_line(classify_line(t))
}

/// Reads a line as typed: it is trimmed of surrounding whitespace first.
pub fn parse_input(line: &str) -> (r: InputAction)
    ensures
        r@ == input_action(line_kind(trimmed(line@))),
{
    parse_command_line(trim_line(line))
}

/// Takes the next outgoing transfer number and advances the counter.
pub fn take_transfer_id(next: &mut u64) -> (id: u64)
    requires
        *old(next) < u64::MAX,
    ensures
        id == *old(next),
        *final(next) == *old(next) + 1,
{
    let id = *next;
    *next = id + 1;
    id
}


proof fn lemma_space_after_word(t: Seq<char>, start: int, word: Seq<char>, from: int)
    requires
        0 <= start <= from <= start + word.len(),
        start + word.len() < t.len(),
        t.subrange(start, start + word.len()) == word,
        t[start + word.len()] == ' ',
        forall|i: int| 0 <= i < word.len() ==> word[i] != ' ',
    ensures
        first_space_from(t, from) == Some(start + word.len()),
    decreases start + word.len() - from,
{
    if from < start + word.len() {
        assert(t[from] == t.subrange(start, start + word.len())[from - start]);
        lemma_space_after_word(t, start, word, from + 1);
    }
}

proof fn lemma_cut_arguments(p: Seq<char>, word: Seq<char>, rest: Seq<char>)
    requires
        forall|i: int| 0 <= i < word.len() ==> word[i] != ' ',
    ensures
        peer_word(p + word + seq![' '] + rest, p.len() as int) == word,
        after_peer(p + word + seq![' '] + rest, p.len() as int) == Some(rest),
{
    let t = p + word + seq![' '] + rest;
    let start = p.len() as int;
    assert(t.subrange(start, start + word.len()) =~= word);
    assert(t[start + word.len()] == ' ');
    lemma_space_after_word(t, start, word, start);
    assert(t.subrange(start + word.len() + 1, t.len() as int) =~= rest);
}

/// A save line names its transfer by the word after `/save ` and the file
/// by everything after the next space, spaces included: the line
/// `/save <number> <name>` saves that transfer under the whole of `<name>`.
pub proof fn law_save_line_keeps_whole_name(transfer_text: Seq<char>, file_name: Seq<char>)
    requires
        forall|i: int| 0 <= i < transfer_text.len() ==> transfer_text[i] != ' ',
    ensures
        line_kind("/save "@ + transfer_text + seq![' '] + file_name) == (LineKindView::Save {
            transfer_text,
            file_name: Some(file_name),
        }),
        transfer_number(transfer_text) matches Some(id) ==> input_action(
            line_kind("/save "@ + transfer_text + seq![' '] + file_name),
        ) == (InputActionView::SaveTransfer { transfer_id: id, file_name }),
{
    reveal_strlit("/save ");
    reveal_strlit("/quit");
    reveal_strlit("/q");
    reveal_strlit("/list");
    reveal_strlit("/l");
    reveal_strlit("/s ");
    reveal_strlit("/file ");
    let t = "/save "@ + transfer_text + seq![' '] + file_name;
    lemma_cut_arguments("/save "@, transfer_text, file_name);
    assert(t[1] == 's' && t[2] == 'a');
    assert(t != "/quit"@ && t != "/q"@ && t != "/list"@ && t != "/l"@);
    assert(!has_prefix(t, "/s "@)) by {
        if has_prefix(t, "/s "@) {
            assert(t.subrange(0, 3)[2] == t[2]);
        }
    }
    assert(!has_prefix(t, "/file "@)) by {
        if has_prefix(t, "/file "@) {
            assert(t.subrange(0, 6)[1] == t[1]);
        }
    }
    assert(t.subrange(0, 6) =~= "/save "@);
}

/// A private line names its peer by the word after `/s ` and sends
/// everything after the next space, spaces included, as the text.
pub proof fn law_private_line_keeps_whole_text(peer_text: Seq<char>, text: Seq<char>)
    requires
        forall|i: int| 0 <= i < peer_text.len() ==> peer_text[i] != ' ',
    ensures
        line_kind("/s "@ + peer_text + seq![' '] + text) == (LineKindView::Private {
            peer_text,
            text: Some(text),
        }),
        peer_id_parse(peer_text) matches Ok(p) ==> input_action(
            line_kind("/s "@ + peer_text + seq![' '] + text),
        ) == (InputActionView::Send(CommandView::SendPrivateText { peer: p, text })),
{
    reveal_strlit("/quit");
    reveal_strlit("/q");
    reveal_strlit("/list");
    reveal_strlit("/l");
    reveal_strlit("/s ");
    let t = "/s "@ + peer_text + seq![' '] + text;
    lemma_cut_arguments("/s "@, peer_text, text);
    assert(t[1] == 's');
    assert(t != "/quit"@ && t != "/q"@ && t != "/list"@ && t != "/l"@);
    assert(t.subrange(0, 3) =~= "/s "@);
}

/// A file line names its peer by the word after `/file ` and takes
/// everything after the next space, spaces included, as the path.
pub proof fn law_file_line_keeps_whole_path(peer_text: Seq<char>, path: Seq<char>)
    requires
        forall|i: int| 0 <= i < peer_text.len() ==> peer_text[i] != ' ',
    ensures
        line_kind("/file "@ + peer_text + seq![' '] + path) == (LineKindView::File {
            peer_text,
            path: Some(path),
        }),
        peer_id_parse(peer_text) matches Ok(p) ==> input_action(
            line_kind("/file "@ + peer_text + seq![' '] + path),
        ) == (InputActionView::SendFileAt { peer: p, path }),
{
    reveal_strlit("/quit");
    reveal_strlit("/q");
    reveal_strlit("/list");
    reveal_strlit("/l");
    reveal_strlit("/s ");
    reveal_strlit("/file ");
    let t = "/file "@ + peer_text + seq![' '] + path;
    lemma_cut_arguments("/file "@, peer_text, path);
    assert(t[1] == 'f');
    assert(t != "/quit"@ && t != "/q"@ && t != "/list"@ && t != "/l"@);
    assert(!has_prefix(t, "/s "@)) by {
        if has_prefix(t, "/s "@) {
            assert(t.subrange(0, 3)[1] == t[1]);
        }
    }
    assert(t.subrange(0, 6) =~= "/file "@);
}

} // verus!
