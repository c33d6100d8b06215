//! The text protocol of the data connection: the one-line commands a client
//! sends, how the server reads them, and the acknowledgements both sides
//! exchange.
use vstd::prelude::*;

use crate::records::FileAttrs;
use crate::text::chars_of;
use crate::text::contains_char;
use crate::text::format_i32;
use crate::text::format_int;
use crate::text::has_no_ws;
use crate::text::is_ws;
use crate::text::lemma_parse_format_i32;
use crate::text::lemma_parse_format;
use crate::text::lemma_split_first;
use crate::text::lemma_split_join;
use crate::text::lemma_split_no_sep;
use crate::text::lemma_no_space_nl;
use crate::text::lemma_trim_nl;
use crate::text::push_chars;
use crate::text::push_str;
use crate::text::string_from;
use crate::text::parse_bool_chars;
use crate::text::parse_bool_spec;
use crate::text::parse_i32_chars;
use crate::text::parse_i32_spec;
use crate::text::is_single;
use crate::text::split;
use crate::text::split_chars;
use crate::text::string_of;
use crate::text::trim;
use crate::text::trim_chars;

verus! {

/// A command line of the data connection, as the server reads it.
pub enum DataCommand {
    /// `1 <request> <fragment>`: the client uploads a fragment the server asked for.
    RecvRequiredFragment { request_id: i32, fragment_id: i32 },
    /// `2 <request> <fragment>`: the client asks for a fragment it is to store.
    SendFragment { request_id: i32, fragment_id: i32 },
    /// `3 <request> <fragment>`: the client reports a fragment deleted.
    DeleteFragment { request_id: i32, fragment_id: i32 },
    /// `4 0 <name> <path> <attr> <fragments> <is folder>`: a new file.
    RegisterFile { name: String, path: String, attr: String, noa: i32, is_folder: bool },
    /// `5 <file> <fragment> <count>`: one fragment of a file being uploaded.
    RecvFileFragment { file_id: i32, fragment_num: i32, fragment_count: i32 },
    /// `6 0 <count> <path> <name> ...`: folders the client watches.
    CheckFolder { count: i32, entries: Vec<String> },
    /// A command the server does not know; it answers `ERROR!`.
    Unknown,
    /// A line whose fields cannot be read; the connection is dropped.
    Malformed,
}

/// The contents of a [`DataCommand`].
pub enum DataCommandView {
    RecvRequiredFragment { request_id: i32, fragment_id: i32 },
    SendFragment { request_id: i32, fragment_id: i32 },
    DeleteFragment { request_id: i32, fragment_id: i32 },
    RegisterFile {
        name: Seq<char>,
        path: Seq<char>,
        attr: Seq<char>,
        noa: i32,
        is_folder: bool,
    },
    RecvFileFragment { file_id: i32, fragment_num: i32, fragment_count: i32 },
    CheckFolder { count: i32, entries: Seq<Seq<char>> },
    Unknown,
    Malformed,
}

impl View for DataCommand {
    type V = DataCommandView;

    open spec fn view(&self) -> DataCommandView {
        match self {
            DataCommand::RecvRequiredFragment { request_id, fragment_id } => {
                DataCommandView::RecvRequiredFragment {
                    request_id: *request_id,
                    fragment_id: *fragment_id,
                }
            },
            DataCommand::SendFragment { request_id, fragment_id } => {
                DataCommandView::SendFragment { request_id: *request_id, fragment_id: *fragment_id }
            },
            DataCommand::DeleteFragment { request_id, fragment_id } => {
                DataCommandView::DeleteFragment {
                    request_id: *request_id,
                    fragment_id: *fragment_id,
                }
            },
            DataCommand::RegisterFile { name, path, attr, noa, is_folder } => {
                DataCommandView::RegisterFile {
                    name: name@,
                    path: path@,
                    attr: attr@,
                    noa: *noa,
                    is_folder: *is_folder,
                }
            },
            DataCommand::RecvFileFragment { file_id, fragment_num, fragment_count } => {
                DataCommandView::RecvFileFragment {
                    file_id: *file_id,
                    fragment_num: *fragment_num,
                    fragment_count: *fragment_count,
                }
            },
            DataCommand::CheckFolder { count, entries } => {
                DataCommandView::CheckFolder {
                    count: *count,
                    entries: entries@.map_values(|e: String| e@),
                }
            },
            DataCommand::Unknown => DataCommandView::Unknown,
            DataCommand::Malformed => DataCommandView::Malformed,
        }
    }
}

/// How the server reads a command line: it splits the line at every space,
/// insists on at least three fields, and reads each command's fields as
/// written (some trimmed of whitespace, some not).
pub open spec fn parse_data_spec(line: Seq<char>) -> DataCommandView {
    let t = split(line, ' ');
    if t.len() < 3 {
        DataCommandView::Malformed
    } else if t[0] == seq!['1'] || t[0] == seq!['2'] {
        match (parse_i32_spec(t[1]), parse_i32_spec(trim(t[2]))) {
            (Some(id), Some(fid)) => if t[0] == seq!['1'] {
                DataCommandView::RecvRequiredFragment { request_id: id, fragment_id: fid }
            } else {
                DataCommandView::SendFragment { request_id: id, fragment_id: fid }
            },
            _ => DataCommandView::Malformed,
        }
    } else if t[0] == seq!['3'] {
        match (parse_i32_spec(t[1]), parse_i32_spec(t[2])) {
            (Some(id), Some(fid)) => DataCommandView::DeleteFragment {
                request_id: id,
                fragment_id: fid,
            },
            _ => DataCommandView::Malformed,
        }
    } else if t[0] == seq!['4'] {
        if t.len() < 7 {
            DataCommandView::Malformed
        } else {
            match (parse_i32_spec(trim(t[5])), parse_bool_spec(trim(t[6]))) {
                (Some(noa), Some(isf)) => DataCommandView::RegisterFile {
                    name: t[2],
                    path: t[3],
                    attr: t[4],
                    noa,
                    is_folder: isf,
                },
                _ => DataCommandView::Malformed,
            }
        }
    } else if t[0] == seq!['5'] {
        if t.len() < 4 {
            DataCommandView::Malformed
        } else {
            match (parse_i32_spec(t[1]), parse_i32_spec(t[2]), parse_i32_spec(trim(t[3]))) {
                (Some(f), Some(n), Some(c)) => DataCommandView::RecvFileFragment {
                    file_id: f,
                    fragment_num: n,
                    fragment_count: c,
                },
                _ => DataCommandView::Malformed,
            }
        }
    } else if t[0] == seq!['6'] {
        match parse_i32_spec(trim(t[2])) {
            Some(n) => DataCommandView::CheckFolder { count: n, entries: t.skip(3) },
            None => DataCommandView::Malformed,
        }
    } else {
        DataCommandView::Unknown
    }
}

fn token_string(t: &Vec<char>) -> (s: String)
    ensures
        s@ == t@,
{
    string_of(t.as_slice())
}

fn trimmed_i32(t: &Vec<char>) -> (r: Option<i32>)
    ensures
        r == parse_i32_spec(trim(t@)),
{
    let tr = trim_chars(t.as_slice());
    parse_i32_chars(tr.as_slice())
}

/// Reads one command line of the data connection.
pub fn parse_data_command(line: &str) -> (cmd: DataCommand)
    ensures
        cmd@ == parse_data_spec(line@),
{
    let cs = chars_of(line);
    let t = split_chars(cs.as_slice(), ' ');
    let ghost ts = split(line@, ' ');
    assert(t@.len() == ts.len());
    if t.len() < 3 {
        return DataCommand::Malformed;
    }
    assert(t@[0]@ == ts[0] && t@[1]@ == ts[1] && t@[2]@ == ts[2]);
    let k1 = is_single(t[0].as_slice(), '1');
    let k2 = is_single(t[0].as_slice(), '2');
    let k3 = is_single(t[0].as_slice(), '3');
    let k4 = is_single(t[0].as_slice(), '4');
    let k5 = is_single(t[0].as_slice(), '5');
    let k6 = is_single(t[0].as_slice(), '6');
    if k1 || k2 {
        let id = parse_i32_chars(t[1].as_slice());
        let fid = trimmed_i32(&t[2]);
        match (id, fid) {
            (Some(id), Some(fid)) => if k1 {
                DataCommand::RecvRequiredFragment { request_id: id, fragment_id: fid }
            } else {
                DataCommand::SendFragment { request_id: id, fragment_id: fid }
            },
            _ => DataCommand::Malformed,
        }
    } else if k3 {
        let id = parse_i32_chars(t[1].as_slice());
        let fid = parse_i32_chars(t[2].as_slice());
        match (id, fid) {
            (Some(id), Some(fid)) => DataCommand::DeleteFragment {
                request_id: id,
                fragment_id: fid,
            },
            _ => DataCommand::Malformed,
        }
    } else if k4 {
        if t.len() < 7 {
            return DataCommand::Malformed;
        }
        assert(t@[3]@ == ts[3] && t@[4]@ == ts[4] && t@[5]@ == ts[5] && t@[6]@ == ts[6]);
        let noa = trimmed_i32(&t[5]);
        let tr6 = trim_chars(t[6].as_slice());
        let isf = parse_bool_chars(tr6.as_slice());
        match (noa, isf) {
            (Some(noa), Some(isf)) => DataCommand::RegisterFile {
                name: token_string(&t[2]),
                path: token_string(&t[3]),
                attr: token_string(&t[4]),
                noa,
                is_folder: isf,
            },
            _ => DataCommand::Malformed,
        }
    } else if k5 {
        if t.len() < 4 {
            return DataCommand::Malformed;
        }
        assert(t@[3]@ == ts[3]);
        let f = parse_i32_chars(t[1].as_slice());
        let n = parse_i32_chars(t[2].as_slice());
        let c = trimmed_i32(&t[3]);
        match (f, n, c) {
            (Some(f), Some(n), Some(c)) => DataCommand::RecvFileFragment {
                file_id: f,
                fragment_num: n,
                fragment_count: c,
            },
            _ => DataCommand::Malformed,
        }
    } else if k6 {
        match trimmed_i32(&t[2]) {
            Some(n) => {
                let mut entries: Vec<String> = Vec::new();
                let mut i: usize = 3;
                while i < t.len()
                    invariant
                        3 <= i <= t@.len(),
                        t@.len() == ts.len(),
                        forall|k: int| 0 <= k < t@.len() ==> #[trigger] t@[k]@ == ts[k],
                        entries@.len() == i - 3,
                        forall|k: int|
                            0 <= k < entries@.len() ==> #[trigger] entries@[k]@ == ts[k + 3],
                    decreases t@.len() - i,
                {
                    entries.push(token_string(&t[i]));
                    i = i + 1;
                }
                let cmd = DataCommand::CheckFolder { count: n, entries };
                assert(entries@.map_values(|e: String| e@) =~= ts.skip(3));
                cmd
            },
            None => DataCommand::Malformed,
        }
    } else {
        DataCommand::Unknown
    }
}

// ---------------------------------------------------------------------------
// Acknowledgements
// ---------------------------------------------------------------------------

/// The acknowledgement line `received!\n`.
pub open spec fn received() -> Seq<char> {
    seq!['r', 'e', 'c', 'e', 'i', 'v', 'e', 'd', '!', '\n']
}

/// The outcome of checking a reply against `received!\n`.
#[derive(PartialEq, Eq, Debug)]
pub enum AckCheck {
    Accepted,
    Rejected,
    /// The reply runs on past a complete acknowledgement; the character by
    /// character comparison then reads past its pattern and the task aborts.
    Overrun,
}

/// How the client judges a reply: every character must continue the
/// acknowledgement, so any prefix of it (the empty reply too) is accepted.
pub open spec fn ack_prefix_spec(s: Seq<char>) -> AckCheck {
    if s.len() <= 10 {
        if s == received().take(s.len() as int) {
            AckCheck::Accepted
        } else {
            AckCheck::Rejected
        }
    } else if s.take(10) == received() {
        AckCheck::Overrun
    } else {
        AckCheck::Rejected
    }
}

/// How the server judges a reply: it must be the acknowledgement exactly.
pub open spec fn ack_exact_spec(s: Seq<char>) -> AckCheck {
    if s.len() > 10 && s.take(10) == received() {
        AckCheck::Overrun
    } else if s == received() {
        AckCheck::Accepted
    } else {
        AckCheck::Rejected
    }
}

/// The server accepts exactly the line `received!` and a line break; it
/// aborts on a reply that continues past that line, and rejects any other.
pub proof fn lemma_ack_exact_judges(s: Seq<char>)
    ensures
        ack_exact_spec(s) is Accepted <==> s == seq!['r', 'e', 'c', 'e', 'i', 'v', 'e', 'd', '!', '\n'],
        ack_exact_spec(s) is Overrun <==> (s.len() > 10 && forall|i: int|
            0 <= i < 10 ==> s[i] == seq!['r', 'e', 'c', 'e', 'i', 'v', 'e', 'd', '!', '\n'][i]),
{
    let lit = seq!['r', 'e', 'c', 'e', 'i', 'v', 'e', 'd', '!', '\n'];
    assert(received() == lit);
    if s.len() > 10 {
        if forall|i: int| 0 <= i < 10 ==> s[i] == lit[i] {
            assert(s.take(10) =~= lit);
        }
        if s.take(10) == lit {
            assert forall|i: int| 0 <= i < 10 implies s[i] == lit[i] by {
                assert(s.take(10)[i] == s[i]);
            }
        }
    }
}

/// The client accepts every reply that the line `received!` and a line
/// break begins with (the empty reply too); it aborts on a reply that
/// continues past the whole line, and rejects any other.
pub proof fn lemma_ack_prefix_judges(s: Seq<char>)
    ensures
        ack_prefix_spec(s) is Accepted <==> (s.len() <= 10 && forall|i: int|
            0 <= i < s.len() ==> s[i] == seq!['r', 'e', 'c', 'e', 'i', 'v', 'e', 'd', '!', '\n'][i]),
        ack_prefix_spec(s) is Overrun <==> (s.len() > 10 && forall|i: int|
            0 <= i < 10 ==> s[i] == seq!['r', 'e', 'c', 'e', 'i', 'v', 'e', 'd', '!', '\n'][i]),
{
    let lit = seq!['r', 'e', 'c', 'e', 'i', 'v', 'e', 'd', '!', '\n'];
    assert(received() == lit);
    if s.len() <= 10 {
        let p = lit.take(s.len() as int);
        if forall|i: int| 0 <= i < s.len() ==> s[i] == lit[i] {
            assert(s =~= p);
        }
        if s == p {
            assert forall|i: int| 0 <= i < s.len() implies s[i] == lit[i] by {
                assert(p[i] == lit[i]);
            }
        }
    } else {
        if forall|i: int| 0 <= i < 10 ==> s[i] == lit[i] {
            assert(s.take(10) =~= lit);
        }
        if s.take(10) == lit {
            assert forall|i: int| 0 <= i < 10 implies s[i] == lit[i] by {
                assert(s.take(10)[i] == s[i]);
            }
        }
    }
}

fn received_chars() -> (r: Vec<char>)
    ensures
        r@ == received(),
{
    let r = chars_of("received!\n");
    proof {
        reveal_strlit("received!\n");
        assert(r@ =~= received());
    }
    r
}

/// The length of the longest common prefix of `a` and `b`.
fn common_prefix(a: &[char], b: &[char]) -> (n: usize)
    ensures
        n <= a@.len(),
        n <= b@.len(),
        a@.take(n as int) == b@.take(n as int),
        n < a@.len() && n < b@.len() ==> a@[n as int] != b@[n as int],
{
    let mut i: usize = 0;
    while i < a.len() && i < b.len() && a[i] == b[i]
        invariant
            i <= a@.len(),
            i <= b@.len(),
            a@.take(i as int) == b@.take(i as int),
        decreases a@.len() - i,
    {
        i = i + 1;
        assert(a@.take(i as int) =~= b@.take(i as int)) by {
            assert(a@.take(i - 1) == b@.take(i - 1));
            assert forall|k: int| 0 <= k < i implies a@.take(i as int)[k] == b@.take(i as int)[k] by {
                if k < i - 1 {
                    assert(a@.take(i - 1)[k] == b@.take(i - 1)[k]);
                }
            }
        }
    }
    i
}

/// Checks a reply as the client does after a request (`FileUploader`).
pub fn ack_prefix(reply: &str) -> (r: AckCheck)
    ensures
        r == ack_prefix_spec(reply@),
{
    let s = chars_of(reply);
    let re = received_chars();
    let n = common_prefix(s.as_slice(), re.as_slice());
    if s.len() <= 10 {
        if n == s.len() {
            assert(s@ =~= s@.take(n as int));
            AckCheck::Accepted
        } else {
            proof {
                if s@ == received().take(s@.len() as int) {
                    assert(s@[n as int] == received()[n as int]);
                }
            }
            AckCheck::Rejected
        }
    } else if n == 10 {
        assert(re@.take(10) =~= re@);
        AckCheck::Overrun
    } else {
        proof {
            if s@.take(10) == received() {
                assert(s@.take(10)[n as int] == s@[n as int]);
            }
        }
        AckCheck::Rejected
    }
}

/// Checks a reply as the server does after sending a fragment.
pub fn ack_exact(reply: &str) -> (r: AckCheck)
    ensures
        r == ack_exact_spec(reply@),
{
    let s = chars_of(reply);
    let re = received_chars();
    let n = common_prefix(s.as_slice(), re.as_slice());
    if s.len() > 10 && n == 10 {
        assert(re@.take(10) =~= re@);
        AckCheck::Overrun
    } else if n == 10 && s.len() == 10 {
        assert(s@ =~= s@.take(10));
        assert(re@.take(10) =~= re@);
        AckCheck::Accepted
    } else {
        proof {
            if s@.len() > 10 && s@.take(10) == received() {
                assert(s@.take(10)[n as int] == s@[n as int]);
            }
            if s@ == received() {
                assert(s@[n as int] == received()[n as int]);
            }
        }
        AckCheck::Rejected
    }
}

// ---------------------------------------------------------------------------
// File registration
// ---------------------------------------------------------------------------

pub open spec fn file_id_tag() -> Seq<char> {
    seq!['F', 'i', 'l', 'e', 'I', 'd', ':']
}

/// The server's answer to a registration: `FileId: <id>\n`.
pub open spec fn file_id_reply_spec(fid: int) -> Seq<char> {
    file_id_tag() + seq![' '] + (format_int(fid) + seq!['\n'])
}

/// How the client reads the answer to a registration. The first field must
/// spell `FileId:` (on a mismatch the result is `-2`); the second field,
/// trimmed, is the id. `None` where the client's reading aborts: a first
/// field that stops short within `FileId:`, or a missing or unreadable id.
pub open spec fn parse_file_id_reply_spec(s: Seq<char>) -> Option<i32> {
    let t = split(s, ' ');
    let first = t[0];
    let m = if first.len() < 7 {
        first.len() as int
    } else {
        7
    };
    if first.take(m) != file_id_tag().take(m) {
        Some(-2i32)
    } else if first.len() < 7 {
        None
    } else if t.len() >= 2 {
        parse_i32_spec(trim(t[1]))
    } else {
        None
    }
}

/// Writes the answer to a registration.
pub fn file_id_reply(fid: i32) -> (r: String)
    ensures
        r@ == file_id_reply_spec(fid as int),
{
    let mut r = string_from("FileId: ");
    let f = format_i32(fid);
    push_str(&mut r, f.as_str());
    push_str(&mut r, "\n");
    proof {
        reveal_strlit("FileId: ");
        reveal_strlit("\n");
        assert(r@ =~= file_id_reply_spec(fid as int));
    }
    r
}

/// Reads the answer to a registration as the client does.
pub fn parse_file_id_reply(reply: &str) -> (r: Option<i32>)
    ensures
        r == parse_file_id_reply_spec(reply@),
{
    let s = chars_of(reply);
    let t = split_chars(s.as_slice(), ' ');
    proof {
        crate::text::lemma_split_len(reply@, ' ');
    }
    let tag = chars_of("FileId:");
    proof {
        reveal_strlit("FileId:");
        assert(tag@ =~= file_id_tag());
    }
    let first = &t[0];
    let n = common_prefix(first.as_slice(), tag.as_slice());
    let m: usize = if first.len() < 7 {
        first.len()
    } else {
        7
    };
    if n < m {
        proof {
            assert(first@.take(m as int)[n as int] == first@[n as int]);
            assert(file_id_tag().take(m as int)[n as int] == file_id_tag()[n as int]);
        }
        return Some(-2);
    }
    assert(first@.take(m as int) =~= first@.take(n as int).take(m as int));
    assert(file_id_tag().take(m as int) =~= tag@.take(n as int).take(m as int));
    if first.len() < 7 {
        return None;
    }
    if t.len() >= 2 {
        let tr = trim_chars(t[1].as_slice());
        parse_i32_chars(tr.as_slice())
    } else {
        None
    }
}

/// The registration request `4 0 <name> <path> <attr> <fragments> false\n`.
pub open spec fn register_request_spec(
    name: Seq<char>,
    path: Seq<char>,
    attr: Seq<char>,
    noa: int,
) -> Seq<char> {
    seq!['4'] + seq![' '] + (seq!['0'] + seq![' '] + (name + seq![' '] + (path + seq![' '] + (
    attr + seq![' '] + (format_int(noa) + seq![' '] + seq!['f', 'a', 'l', 's', 'e', '\n'])))))
}

/// Writes the request that registers the file `fa`.
pub fn register_file_request(fa: &FileAttrs) -> (r: String)
    ensures
        r@ == register_request_spec(fa.name@, fa.path@, fa.attr@, fa.noa as int),
{
    let mut r = string_from("4 0 ");
    push_str(&mut r, fa.name.as_str());
    push_str(&mut r, " ");
    push_str(&mut r, fa.path.as_str());
    push_str(&mut r, " ");
    push_str(&mut r, fa.attr.as_str());
    push_str(&mut r, " ");
    let n = format_i32(fa.noa);
    push_str(&mut r, n.as_str());
    push_str(&mut r, " false\n");
    proof {
        reveal_strlit("4 0 ");
        reveal_strlit(" ");
        reveal_strlit(" false\n");
        assert(r@ =~= register_request_spec(fa.name@, fa.path@, fa.attr@, fa.noa as int));
    }
    r
}

/// The request for one fragment of an upload: `5 <file> <fragment> <count>\n`.
pub open spec fn push_fragment_request_spec(file_id: int, num: int, count: int) -> Seq<char> {
    seq!['5'] + seq![' '] + (format_int(file_id) + seq![' '] + (format_int(num) + seq![' '] + (
    format_int(count) + seq!['\n'])))
}

/// Writes the request announcing fragment `num` of `count` of file `file_id`.
pub fn push_fragment_request(file_id: i32, num: i32, count: i32) -> (r: String)
    ensures
        r@ == push_fragment_request_spec(file_id as int, num as int, count as int),
{
    let mut r = string_from("5 ");
    let a = format_i32(file_id);
    push_str(&mut r, a.as_str());
    push_str(&mut r, " ");
    let b = format_i32(num);
    push_str(&mut r, b.as_str());
    push_str(&mut r, " ");
    let c = format_i32(count);
    push_str(&mut r, c.as_str());
    push_str(&mut r, "\n");
    proof {
        reveal_strlit("5 ");
        reveal_strlit(" ");
        reveal_strlit("\n");
        assert(r@ =~= push_fragment_request_spec(file_id as int, num as int, count as int));
    }
    r
}

// ---------------------------------------------------------------------------
// Round trips
// ---------------------------------------------------------------------------

/// `true` or `false`, as a registration line writes whether the entry is a
/// folder.
pub open spec fn bool_text(b: bool) -> Seq<char> {
    if b {
        seq!['t', 'r', 'u', 'e']
    } else {
        seq!['f', 'a', 'l', 's', 'e']
    }
}

/// The registration line `4 0 <name> <path> <attr> <noa> <true|false>` and a
/// line break.
pub open spec fn register_line(
    name: Seq<char>,
    path: Seq<char>,
    attr: Seq<char>,
    noa: int,
    is_folder: bool,
) -> Seq<char> {
    seq!['4'] + seq![' '] + (seq!['0'] + seq![' '] + (name + seq![' '] + (path + seq![' '] + (
    attr + seq![' '] + (format_int(noa) + seq![' '] + (bool_text(is_folder) + seq!['\n']))))))
}

/// The server reads a registration line back as the registration it
/// writes, files and folders alike, where name, folder and attributes hold
/// no spaces.
pub proof fn lemma_register_line_round_trip(
    name: Seq<char>,
    path: Seq<char>,
    attr: Seq<char>,
    noa: i32,
    is_folder: bool,
)
    requires
        !contains_char(name, ' '),
        !contains_char(path, ' '),
        !contains_char(attr, ' '),
    ensures
        parse_data_spec(register_line(name, path, attr, noa as int, is_folder))
            == (DataCommandView::RegisterFile { name, path, attr, noa, is_folder }),
{
    let f = format_int(noa as int);
    let fls = bool_text(is_folder);
    let fl = fls + seq!['\n'];
    lemma_parse_format_i32(noa);
    lemma_parse_format(noa as int);
    assert(!contains_char(fl, ' ')) by {
        if contains_char(fl, ' ') {
            let i = choose|i: int| 0 <= i < fl.len() && fl[i] == ' ';
        }
    }
    assert(!contains_char(seq!['4'], ' ')) by {
        if contains_char(seq!['4'], ' ') {
            let i = choose|i: int| 0 <= i < 1 && seq!['4'][i] == ' ';
        }
    }
    assert(!contains_char(seq!['0'], ' ')) by {
        if contains_char(seq!['0'], ' ') {
            let i = choose|i: int| 0 <= i < 1 && seq!['0'][i] == ' ';
        }
    }
    lemma_split_no_sep(fl, ' ');
    lemma_split_no_sep(f, ' ');
    lemma_split_no_sep(attr, ' ');
    lemma_split_no_sep(path, ' ');
    lemma_split_no_sep(name, ' ');
    lemma_split_no_sep(seq!['0'], ' ');
    lemma_split_no_sep(seq!['4'], ' ');
    let x5 = f + seq![' '] + fl;
    lemma_split_join(f, fl, ' ');
    let x4 = attr + seq![' '] + x5;
    lemma_split_join(attr, x5, ' ');
    let x3 = path + seq![' '] + x4;
    lemma_split_join(path, x4, ' ');
    let x2 = name + seq![' '] + x3;
    lemma_split_join(name, x3, ' ');
    let x1 = seq!['0'] + seq![' '] + x2;
    lemma_split_join(seq!['0'], x2, ' ');
    let x0 = seq!['4'] + seq![' '] + x1;
    lemma_split_join(seq!['4'], x1, ' ');
    let t = split(x0, ' ');
    assert(t =~= seq![seq!['4'], seq!['0'], name, path, attr, f, fl]);
    assert(x0 == register_line(name, path, attr, noa as int, is_folder));
    // the last field, trimmed, reads the folder flag
    assert(has_no_ws(fls)) by {
        assert forall|i: int| 0 <= i < fls.len() implies !is_ws(#[trigger] fls[i]) by {
        }
    }
    lemma_trim_nl(fls);
    assert(parse_bool_spec(fls) == Some(is_folder)) by {
        if !is_folder {
            assert(fls != seq!['t', 'r', 'u', 'e']) by {
                assert(fls[0] != 't');
            }
        }
    }
    assert(seq!['4'] != seq!['1']) by {
        assert(seq!['4'][0] != seq!['1'][0]);
    }
    assert(seq!['4'] != seq!['2']) by {
        assert(seq!['4'][0] != seq!['2'][0]);
    }
    assert(seq!['4'] != seq!['3']) by {
        assert(seq!['4'][0] != seq!['3'][0]);
    }
}

/// What the client sends to register a file, the server reads back as that
/// registration, where name, folder and attributes hold no spaces.
pub proof fn lemma_register_round_trip(name: Seq<char>, path: Seq<char>, attr: Seq<char>, noa: i32)
    requires
        !contains_char(name, ' '),
        !contains_char(path, ' '),
        !contains_char(attr, ' '),
    ensures
        parse_data_spec(register_request_spec(name, path, attr, noa as int))
            == (DataCommandView::RegisterFile { name, path, attr, noa, is_folder: false }),
{
    assert(register_request_spec(name, path, attr, noa as int) =~= register_line(
        name,
        path,
        attr,
        noa as int,
        false,
    ));
    lemma_register_line_round_trip(name, path, attr, noa, false);
}

/// The line `<k> <id> <fid>` followed by `end` (a line break or nothing).
pub open spec fn request_line(k: char, id: int, fid: int, end: Seq<char>) -> Seq<char> {
    seq![k] + seq![' '] + (format_int(id) + seq![' '] + (format_int(fid) + end))
}

proof fn lemma_request_line_fields(k: char, id: i32, fid: i32, end: Seq<char>)
    requires
        k != ' ',
        !contains_char(end, ' '),
    ensures
        split(request_line(k, id as int, fid as int, end), ' ') == seq![
            seq![k],
            format_int(id as int),
            format_int(fid as int) + end,
        ],
        parse_i32_spec(format_int(id as int)) == Some(id),
        parse_i32_spec(format_int(fid as int)) == Some(fid),
{
    let a = format_int(id as int);
    let b = format_int(fid as int);
    lemma_parse_format_i32(id);
    lemma_parse_format_i32(fid);
    lemma_parse_format(id as int);
    lemma_parse_format(fid as int);
    let be = b + end;
    assert(!contains_char(be, ' ')) by {
        if contains_char(be, ' ') {
            let i = choose|i: int| 0 <= i < be.len() && be[i] == ' ';
            if i < b.len() {
                assert(be[i] == b[i]);
            } else {
                assert(be[i] == end[i - b.len()]);
            }
        }
    }
    assert(!contains_char(seq![k], ' ')) by {
        if contains_char(seq![k], ' ') {
            let i = choose|i: int| 0 <= i < 1 && seq![k][i] == ' ';
        }
    }
    lemma_split_no_sep(be, ' ');
    lemma_split_no_sep(a, ' ');
    lemma_split_no_sep(seq![k], ' ');
    let x1 = a + seq![' '] + be;
    lemma_split_join(a, be, ' ');
    lemma_split_join(seq![k], x1, ' ');
    assert(split(request_line(k, id as int, fid as int, end), ' ') =~= seq![seq![k], a, be]);
}

/// The server reads `1 <id> <fid>` and a line break as a fragment a device
/// sends it under request `id`, and `2 <id> <fid>` and a line break as a
/// fragment it is to send; `3 <id> <fid>` as a deletion, where the fragment
/// field ends the line (the server reads that field untrimmed).
pub proof fn lemma_request_line_round_trip(id: i32, fid: i32)
    ensures
        parse_data_spec(request_line('1', id as int, fid as int, seq!['\n']))
            == (DataCommandView::RecvRequiredFragment { request_id: id, fragment_id: fid }),
        parse_data_spec(request_line('2', id as int, fid as int, seq!['\n']))
            == (DataCommandView::SendFragment { request_id: id, fragment_id: fid }),
        parse_data_spec(request_line('3', id as int, fid as int, Seq::empty()))
            == (DataCommandView::DeleteFragment { request_id: id, fragment_id: fid }),
{
    let b = format_int(fid as int);
    assert(!contains_char(seq!['\n'], ' ')) by {
        if contains_char(seq!['\n'], ' ') {
            let i = choose|i: int| 0 <= i < 1 && seq!['\n'][i] == ' ';
        }
    }
    assert(!contains_char(Seq::<char>::empty(), ' '));
    lemma_request_line_fields('1', id, fid, seq!['\n']);
    lemma_request_line_fields('2', id, fid, seq!['\n']);
    lemma_request_line_fields('3', id, fid, Seq::empty());
    lemma_parse_format(fid as int);
    lemma_trim_nl(b);
    assert(b + Seq::<char>::empty() =~= b);
    assert(seq!['2'] != seq!['1']) by {
        assert(seq!['2'][0] != seq!['1'][0]);
    }
    assert(seq!['3'] != seq!['1']) by {
        assert(seq!['3'][0] != seq!['1'][0]);
    }
    assert(seq!['3'] != seq!['2']) by {
        assert(seq!['3'][0] != seq!['2'][0]);
    }
}

/// What the client sends to announce a fragment, the server reads back as
/// that fragment of that file.
pub proof fn lemma_push_fragment_round_trip(file_id: i32, num: i32, count: i32)
    ensures
        parse_data_spec(push_fragment_request_spec(file_id as int, num as int, count as int))
            == (DataCommandView::RecvFileFragment {
            file_id,
            fragment_num: num,
            fragment_count: count,
        }),
{
    let a = format_int(file_id as int);
    let b = format_int(num as int);
    let c = format_int(count as int);
    lemma_parse_format_i32(file_id);
    lemma_parse_format_i32(num);
    lemma_parse_format_i32(count);
    lemma_parse_format(file_id as int);
    lemma_parse_format(num as int);
    lemma_parse_format(count as int);
    let cn = c + seq!['\n'];
    lemma_no_space_nl(c);
    assert(!contains_char(seq!['5'], ' ')) by {
        if contains_char(seq!['5'], ' ') {
            let i = choose|i: int| 0 <= i < 1 && seq!['5'][i] == ' ';
        }
    }
    lemma_split_no_sep(cn, ' ');
    lemma_split_no_sep(b, ' ');
    lemma_split_no_sep(a, ' ');
    lemma_split_no_sep(seq!['5'], ' ');
    let x2 = b + seq![' '] + cn;
    lemma_split_join(b, cn, ' ');
    let x1 = a + seq![' '] + x2;
    lemma_split_join(a, x2, ' ');
    let x0 = seq!['5'] + seq![' '] + x1;
    lemma_split_join(seq!['5'], x1, ' ');
    let t = split(x0, ' ');
    assert(t =~= seq![seq!['5'], a, b, cn]);
    assert(x0 == push_fragment_request_spec(file_id as int, num as int, count as int));
    lemma_trim_nl(c);
    assert(seq!['5'] != seq!['1']) by {
        assert(seq!['5'][0] != seq!['1'][0]);
    }
    assert(seq!['5'] != seq!['2']) by {
        assert(seq!['5'][0] != seq!['2'][0]);
    }
    assert(seq!['5'] != seq!['3']) by {
        assert(seq!['5'][0] != seq!['3'][0]);
    }
    assert(seq!['5'] != seq!['4']) by {
        assert(seq!['5'][0] != seq!['4'][0]);
    }
}

/// The server answers a registration with `FileId: `, the id and a line
/// break; the client takes a reply that does not start with `F` (and is not
/// empty in its first field) as the refusal `-2`.
pub proof fn lemma_file_id_reply_text(fid: int, s: Seq<char>)
    ensures
        file_id_reply_spec(fid) == seq!['F', 'i', 'l', 'e', 'I', 'd', ':', ' '] + format_int(fid)
            + seq!['\n'],
        (s.len() > 0 && s[0] != 'F' && s[0] != ' ') ==> parse_file_id_reply_spec(s) == Some(-2i32),
{
    assert(file_id_reply_spec(fid) =~= seq!['F', 'i', 'l', 'e', 'I', 'd', ':', ' '] + format_int(fid)
        + seq!['\n']);
    if s.len() > 0 && s[0] != 'F' && s[0] != ' ' {
        let t = split(s, ' ');
        lemma_split_first(s, ' ');
        let first = t[0];
        let m = if first.len() < 7 {
            first.len() as int
        } else {
            7
        };
        assert(first.len() >= 1 && first[0] == s[0]);
        assert(first.take(m)[0] != file_id_tag().take(m)[0]);
    }
}

/// The id the server reports for a registration is the id the client reads.
pub proof fn lemma_file_id_round_trip(fid: i32)
    ensures
        parse_file_id_reply_spec(file_id_reply_spec(fid as int)) == Some(fid),
{
    let f = format_int(fid as int);
    lemma_parse_format_i32(fid);
    lemma_parse_format(fid as int);
    let fn_ = f + seq!['\n'];
    lemma_no_space_nl(f);
    assert(!contains_char(file_id_tag(), ' ')) by {
        if contains_char(file_id_tag(), ' ') {
            let i = choose|i: int| 0 <= i < 7 && file_id_tag()[i] == ' ';
        }
    }
    lemma_split_no_sep(fn_, ' ');
    lemma_split_no_sep(file_id_tag(), ' ');
    lemma_split_join(file_id_tag(), fn_, ' ');
    let t = split(file_id_reply_spec(fid as int), ' ');
    assert(t =~= seq![file_id_tag(), fn_]);
    assert(file_id_tag().take(7) =~= file_id_tag());
    lemma_trim_nl(f);
}

// ---------------------------------------------------------------------------
// Folder check request
// ---------------------------------------------------------------------------

/// The index of the last `c` in `a`, `-1` for none.
pub open spec fn last_index_of(a: Seq<char>, c: char) -> int
    decreases a.len(),
{
    if a.len() == 0 {
        -1
    } else if a.last() == c {
        a.len() - 1
    } else {
        last_index_of(a.drop_last(), c)
    }
}

/// `last_index_of(a, c)` is the position of the last `c` in `a`: `-1`
/// exactly when `a` holds no `c`, and otherwise a position that holds `c`
/// with no `c` after it.
pub proof fn lemma_last_index_of(a: Seq<char>, c: char)
    ensures
        -1 <= last_index_of(a, c) < a.len(),
        last_index_of(a, c) == -1 <==> forall|i: int| 0 <= i < a.len() ==> a[i] != c,
        last_index_of(a, c) >= 0 ==> a[last_index_of(a, c)] == c,
        forall|i: int| last_index_of(a, c) < i < a.len() ==> a[i] != c,
    decreases a.len(),
{
    if a.len() > 0 {
        let d = a.drop_last();
        lemma_last_index_of(d, c);
        assert forall|i: int| 0 <= i < d.len() implies d[i] == a[i] by {}
        if a.last() != c {
            assert forall|i: int| last_index_of(a, c) < i < a.len() implies a[i] != c by {
                if i < a.len() - 1 {
                    assert(d[i] == a[i]);
                }
            }
            if last_index_of(a, c) == -1 {
                assert forall|i: int| 0 <= i < a.len() implies a[i] != c by {
                    if i < a.len() - 1 {
                        assert(d[i] == a[i]);
                    }
                }
            }
        }
    }
}

/// Each character of `a` on a line of its own, with `/ ` after the one at
/// index `j`.
pub open spec fn spelled(a: Seq<char>, j: int) -> Seq<char>
    decreases a.len(),
{
    if a.len() == 0 {
        Seq::empty()
    } else {
        spelled(a.drop_last(), j) + seq![a.last(), '\n'] + if a.len() - 1 == j {
            seq!['/', ' ']
        } else {
            Seq::<char>::empty()
        }
    }
}

/// Without a marked index, each character comes on a line of its own.
proof fn lemma_spelled_plain(a: Seq<char>, j: int)
    requires
        !(0 <= j < a.len()),
    ensures
        spelled(a, j).len() == 2 * a.len(),
        forall|i: int| 0 <= i < a.len() ==> #[trigger] spelled(a, j)[2 * i] == a[i],
        forall|i: int| 0 <= i < a.len() ==> #[trigger] spelled(a, j)[2 * i + 1] == '\n',
    decreases a.len(),
{
    if a.len() > 0 {
        let d = a.drop_last();
        lemma_spelled_plain(d, j);
        let sd = spelled(d, j);
        let sa = spelled(a, j);
        assert(sa == sd + seq![a.last(), '\n'] + Seq::<char>::empty());
        assert forall|i: int| 0 <= i < a.len() implies #[trigger] sa[2 * i] == a[i] by {
            if i < d.len() {
                assert(sd[2 * i] == d[i]);
            }
        }
        assert forall|i: int| 0 <= i < a.len() implies #[trigger] sa[2 * i + 1] == '\n' by {
            if i < d.len() {
                assert(sd[2 * i + 1] == '\n');
            }
        }
    }
}

/// A folder spelled out with a marker at `j`: each character on a line of
/// its own, and `/ ` right after the line of the character at `j`.
pub proof fn lemma_spelled_layout(a: Seq<char>, j: int)
    requires
        0 <= j < a.len(),
    ensures
        spelled(a, j).len() == 2 * a.len() + 2,
        forall|i: int| 0 <= i <= j ==> spelled(a, j)[2 * i] == a[i] && spelled(a, j)[2 * i + 1] == '\n',
        spelled(a, j)[2 * j + 2] == '/' && spelled(a, j)[2 * j + 3] == ' ',
        forall|i: int| j < i < a.len() ==> spelled(a, j)[2 * i + 2] == a[i] && spelled(a, j)[2 * i + 3] == '\n',
    decreases a.len(),
{
    let d = a.drop_last();
    let sa = spelled(a, j);
    let sd = spelled(d, j);
    if j == a.len() - 1 {
        lemma_spelled_plain(d, j);
        assert(sa == sd + seq![a.last(), '\n'] + seq!['/', ' ']);
        assert forall|i: int| 0 <= i <= j implies sa[2 * i] == a[i] && sa[2 * i + 1] == '\n' by {
            if i < d.len() {
                assert(d[i] == a[i]);
            }
        }
    } else {
        lemma_spelled_layout(d, j);
        assert(sa == sd + seq![a.last(), '\n'] + Seq::<char>::empty());
        assert forall|i: int| 0 <= i <= j implies sa[2 * i] == a[i] && sa[2 * i + 1] == '\n' by {
            assert(d[i] == a[i]);
        }
        assert forall|i: int| j < i < a.len() implies sa[2 * i + 2] == a[i] && sa[2 * i + 3] == '\n' by {
            if i < d.len() {
                assert(d[i] == a[i]);
            }
        }
    }
}

/// What the client writes for one watched folder: `/ <folder> ` and a line
/// break for a folder without `/`; otherwise the folder spelled out
/// character by character, `/ ` after its last `/`, and two line breaks.
pub open spec fn folder_piece(a: Seq<char>) -> Seq<char> {
    let j = last_index_of(a, '/');
    if j == -1 {
        seq!['/', ' '] + a + seq![' '] + seq!['\n']
    } else {
        spelled(a, j) + seq!['\n'] + seq!['\n']
    }
}

/// What the client writes for a watched folder `a`: without a `/`, the
/// folder between `/ ` and ` ` and a line break; otherwise, where `j` holds
/// the last `/`, each character on a line of its own with `/ ` right after
/// the line of that `/`, and two line breaks.
pub proof fn lemma_folder_piece_marks_last_slash(a: Seq<char>, j: int)
    ensures
        (forall|i: int| 0 <= i < a.len() ==> a[i] != '/') ==> folder_piece(a) == seq!['/', ' '] + a
            + seq![' ', '\n'],
        (0 <= j < a.len() && a[j] == '/' && forall|i: int| j < i < a.len() ==> a[i] != '/') ==> {
            let p = folder_piece(a);
            &&& p.len() == 2 * a.len() + 4
            &&& forall|i: int| 0 <= i <= j ==> p[2 * i] == a[i] && p[2 * i + 1] == '\n'
            &&& p[2 * j + 2] == '/' && p[2 * j + 3] == ' '
            &&& forall|i: int| j < i < a.len() ==> p[2 * i + 2] == a[i] && p[2 * i + 3] == '\n'
            &&& p[2 * a.len() as int + 2] == '\n' && p[2 * a.len() as int + 3] == '\n'
        },
{
    lemma_last_index_of(a, '/');
    let k = last_index_of(a, '/');
    if forall|i: int| 0 <= i < a.len() ==> a[i] != '/' {
        assert(k == -1);
        assert(seq!['/', ' '] + a + seq![' '] + seq!['\n'] =~= seq!['/', ' '] + a + seq![' ', '\n']);
    }
    if 0 <= j < a.len() && a[j] == '/' && forall|i: int| j < i < a.len() ==> a[i] != '/' {
        assert(k == j);
        lemma_spelled_layout(a, j);
        let sp = spelled(a, j);
        let p = folder_piece(a);
        assert(p == sp + seq!['\n'] + seq!['\n']);
        assert forall|i: int| 0 <= i <= j implies p[2 * i] == a[i] && p[2 * i + 1] == '\n' by {
            assert(p[2 * i] == sp[2 * i]);
            assert(p[2 * i + 1] == sp[2 * i + 1]);
        }
        assert forall|i: int| j < i < a.len() implies p[2 * i + 2] == a[i] && p[2 * i + 3] == '\n' by {
            assert(p[2 * i + 2] == sp[2 * i + 2]);
            assert(p[2 * i + 3] == sp[2 * i + 3]);
        }
    }
}

pub open spec fn folder_pieces(addrs: Seq<Seq<char>>) -> Seq<char>
    decreases addrs.len(),
{
    if addrs.len() == 0 {
        Seq::empty()
    } else {
        folder_pieces(addrs.drop_last()) + folder_piece(addrs.last())
    }
}

/// The whole folder check the client writes: `6 0 <count> ` and the pieces.
pub open spec fn check_folders_request_spec(addrs: Seq<Seq<char>>) -> Seq<char> {
    seq!['6', ' ', '0', ' '] + format_int(addrs.len() as int) + seq![' '] + folder_pieces(addrs)
}

fn last_slash(a: &[char]) -> (j: i64)
    requires
        a@.len() < 0x7fff_ffff_ffff_ffff,
    ensures
        j == last_index_of(a@, '/'),
{
    let mut j: i64 = -1;
    let mut n: usize = 0;
    while n < a.len()
        invariant
            n <= a@.len(),
            a@.len() < 0x7fff_ffff_ffff_ffff,
            j == last_index_of(a@.take(n as int), '/'),
        decreases a@.len() - n,
    {
        proof {
            assert(a@.take(n + 1).drop_last() =~= a@.take(n as int));
            assert(a@.take(n + 1).last() == a@[n as int]);
        }
        if a[n] == '/' {
            j = n as i64;
        }
        n = n + 1;
    }
    assert(a@.take(a@.len() as int) =~= a@);
    j
}

fn folder_piece_exec(out: &mut String, a: &str)
    requires
        a@.len() < 0x7fff_ffff_ffff_ffff,
    ensures
        final(out)@ == old(out)@ + folder_piece(a@),
{
    let cs = chars_of(a);
    let j = last_slash(cs.as_slice());
    if j == -1 {
        push_str(out, "/ ");
        push_str(out, a);
        push_str(out, " ");
        push_str(out, "\n");
        proof {
            reveal_strlit("/ ");
            reveal_strlit(" ");
            reveal_strlit("\n");
            assert(final(out)@ =~= old(out)@ + folder_piece(a@));
        }
    } else {
        let ghost start = out@;
        let mut number: usize = 0;
        while number < cs.len()
            invariant
                number <= cs@.len(),
                cs@ == a@,
                a@.len() < 0x7fff_ffff_ffff_ffff,
                j == last_index_of(a@, '/'),
                out@ == start + spelled(a@.take(number as int), j as int),
            decreases cs@.len() - number,
        {
            let ghost before = out@;
            let mut piece: Vec<char> = Vec::new();
            piece.push(cs[number]);
            piece.push('\n');
            assert(piece@ =~= seq![a@[number as int], '\n']);
            push_chars(out, piece.as_slice());
            let ghost mid = out@;
            if number as i64 == j {
                push_str(out, "/ ");
                proof {
                    reveal_strlit("/ ");
                    assert("/ "@ =~= seq!['/', ' ']);
                }
            }
            proof {
                let t = a@.take(number + 1);
                assert(t.drop_last() =~= a@.take(number as int));
                assert(t.last() == a@[number as int]);
                assert(out@ =~= start + spelled(t, j as int));
            }
            number = number + 1;
        }
        push_str(out, "\n");
        push_str(out, "\n");
        proof {
            reveal_strlit("\n");
            assert(a@.take(a@.len() as int) =~= a@);
            assert(final(out)@ =~= old(out)@ + folder_piece(a@));
        }
    }
}

/// Writes the folder check for the watched folders `addrs`.
pub fn check_folders_request(addrs: &Vec<String>) -> (r: String)
    requires
        addrs@.len() <= i32::MAX,
        forall|i: int| 0 <= i < addrs@.len() ==> (#[trigger] addrs@[i])@.len() < 0x7fff_ffff_ffff_ffff,
    ensures
        r@ == check_folders_request_spec(addrs@.map_values(|a: String| a@)),
{
    let ghost views = addrs@.map_values(|a: String| a@);
    let mut r = string_from("6 0 ");
    let n = format_i32(addrs.len() as i32);
    push_str(&mut r, n.as_str());
    push_str(&mut r, " ");
    let ghost head = r@;
    let mut i: usize = 0;
    while i < addrs.len()
        invariant
            i <= addrs@.len(),
            views == addrs@.map_values(|a: String| a@),
            forall|k: int| 0 <= k < addrs@.len() ==> (#[trigger] addrs@[k])@.len() < 0x7fff_ffff_ffff_ffff,
            r@ == head + folder_pieces(views.take(i as int)),
        decreases addrs@.len() - i,
    {
        folder_piece_exec(&mut r, addrs[i].as_str());
        proof {
            let t = views.take(i + 1);
            assert(t.drop_last() =~= views.take(i as int));
            assert(t.last() == addrs@[i as int]@);
            assert(r@ =~= head + folder_pieces(t));
        }
        i = i + 1;
    }
    proof {
        reveal_strlit("6 0 ");
        reveal_strlit(" ");
        assert(views.take(addrs@.len() as int) =~= views);
        assert(r@ =~= check_folders_request_spec(views));
    }
    r
}

} // verus!
