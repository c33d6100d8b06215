//! The control connection: a client announces itself, reports its free space
//! and asks for pending requests, one line at a time. A connection binds to
//! the first device it names and serves that device only.
use vstd::prelude::*;

use crate::records::DeviceItem;
use crate::records::RequestItem;
use crate::text::chars_of;
use crate::text::contains_char;
use crate::text::lemma_parse_format;
use crate::text::lemma_parse_format_i32;
use crate::text::lemma_split_join;
use crate::text::lemma_split_no_sep;
use crate::text::lemma_no_space_nl;
use crate::text::lemma_trim_nl;
use crate::text::lemma_trim_no_ws;
use crate::text::format_i32;
use crate::text::format_int;
use crate::text::parse_i32_chars;
use crate::text::parse_i32_spec;
use crate::text::push_str;
use crate::text::split;
use crate::text::split_chars;
use crate::text::string_from;
use crate::text::string_of;
use crate::text::trim;
use crate::text::trim_chars;

verus! {

/// What the server does with one line of the control connection.
pub enum ControlAction {
    /// End the connection without an answer.
    Close,
    /// Answer `Error!` and end the connection: the line names another device.
    Reject,
    /// `1 <device> <space>`: the device reports its total space.
    Heartbeat { id: i32, rs: i32 },
    /// `2 <device>`: the device asks for its first pending request.
    FirstRequest { id: i32 },
    /// `3 <device> <ip> <port>`: the device reports where it can be reached.
    SetAddress { id: i32, ip: String, port: i32 },
    /// A line whose fields cannot be read; the connection is dropped.
    Malformed,
}

/// The contents of a [`ControlAction`].
pub enum ControlActionView {
    Close,
    Reject,
    Heartbeat { id: i32, rs: i32 },
    FirstRequest { id: i32 },
    SetAddress { id: i32, ip: Seq<char>, port: i32 },
    Malformed,
}

impl View for ControlAction {
    type V = ControlActionView;

    open spec fn view(&self) -> ControlActionView {
        match self {
            ControlAction::Close => ControlActionView::Close,
            ControlAction::Reject => ControlActionView::Reject,
            ControlAction::Heartbeat { id, rs } => ControlActionView::Heartbeat { id: *id, rs: *rs },
            ControlAction::FirstRequest { id } => ControlActionView::FirstRequest { id: *id },
            ControlAction::SetAddress { id, ip, port } => ControlActionView::SetAddress {
                id: *id,
                ip: ip@,
                port: *port,
            },
            ControlAction::Malformed => ControlActionView::Malformed,
        }
    }
}

/// No device bound yet.
pub const UNBOUND: i32 = -1;

/// How the server reads a control line for a connection bound to `client_id`
/// (or to none, `-1`). Only the first character selects the command; the
/// fields are the pieces between spaces, numbers read with whitespace trimmed.
pub open spec fn decide_spec(client_id: i32, line: Seq<char>) -> ControlActionView {
    if line.len() == 0 || !(line[0] == '1' || line[0] == '2' || line[0] == '3') {
        ControlActionView::Close
    } else {
        let s = split(line, ' ');
        if s.len() < 2 {
            ControlActionView::Malformed
        } else {
            match parse_i32_spec(trim(s[1])) {
                None => ControlActionView::Malformed,
                Some(id) => {
                    if (client_id != UNBOUND && client_id != id) {
                        ControlActionView::Reject
                    } else if line[0] == '1' {
                        if s.len() < 3 {
                            ControlActionView::Malformed
                        } else {
                            match parse_i32_spec(trim(s[2])) {
                                Some(rs) => ControlActionView::Heartbeat { id, rs },
                                None => ControlActionView::Malformed,
                            }
                        }
                    } else if line[0] == '2' {
                        ControlActionView::FirstRequest { id }
                    } else if s.len() < 4 {
                        ControlActionView::Malformed
                    } else {
                        match parse_i32_spec(trim(s[3])) {
                            Some(port) => ControlActionView::SetAddress { id, ip: s[2], port },
                            None => ControlActionView::Malformed,
                        }
                    }
                },
            }
        }
    }
}

/// The outcome of a space report.
pub enum HeartbeatOutcome {
    /// The device table has no such device; the connection ends.
    UnknownDevice,
    /// The new free space does not fit in an `i32`; the task aborts.
    Overflow,
    /// The device's new entry: online, with the reported space and its free
    /// space moved by the change in total space.
    Updated(DeviceItem),
}

/// The state of one control connection: the device it is bound to.
pub struct ControlSession {
    client_id: i32,
}

impl View for ControlSession {
    type V = i32;

    closed spec fn view(&self) -> i32 {
        self.client_id
    }
}

impl ControlSession {
    /// A connection not yet bound to a device.
    pub fn new() -> (r: Self)
        ensures
            r@ == UNBOUND,
    {
        ControlSession { client_id: UNBOUND }
    }

    /// The device this connection is bound to, `-1` for none.
    pub fn client_id(&self) -> (r: i32)
        ensures
            r == self@,
    {
        self.client_id
    }

    /// The device to mark offline when the connection ends.
    pub fn bound_device(&self) -> (r: Option<i32>)
        ensures
            r == (if self@ == UNBOUND {
                None::<i32>
            } else {
                Some(self@)
            }),
    {
        if self.client_id != UNBOUND {
            Some(self.client_id)
        } else {
            None
        }
    }

    /// Decides what to do with one line. An accepted command always names
    /// the bound device, or the connection is not bound yet.
    pub fn decide(&self, line: &str) -> (r: ControlAction)
        ensures
            r@ == decide_spec(self@, line@),
            r@ matches ControlActionView::Heartbeat { id, .. } ==> self@ == UNBOUND || self@ == id,
            r@ matches ControlActionView::FirstRequest { id } ==> self@ == UNBOUND || self@ == id,
            r@ matches ControlActionView::SetAddress { id, .. } ==> self@ == UNBOUND || self@ == id,
    {
        let cs = chars_of(line);
        if cs.len() == 0 || !(cs[0] == '1' || cs[0] == '2' || cs[0] == '3') {
            return ControlAction::Close;
        }
        let s = split_chars(cs.as_slice(), ' ');
        let ghost ss = split(line@, ' ');
        if s.len() < 2 {
            return ControlAction::Malformed;
        }
        assert(s@[1]@ == ss[1]);
        let t1 = trim_chars(s[1].as_slice());
        let id = match parse_i32_chars(t1.as_slice()) {
            None => {
                return ControlAction::Malformed;
            },
            Some(id) => id,
        };
        if self.client_id != UNBOUND && self.client_id != id {
            return ControlAction::Reject;
        }
        if cs[0] == '1' {
            if s.len() < 3 {
                return ControlAction::Malformed;
            }
            assert(s@[2]@ == ss[2]);
            let t2 = trim_chars(s[2].as_slice());
            match parse_i32_chars(t2.as_slice()) {
                Some(rs) => ControlAction::Heartbeat { id, rs },
                None => ControlAction::Malformed,
            }
        } else if cs[0] == '2' {
            ControlAction::FirstRequest { id }
        } else {
            if s.len() < 4 {
                return ControlAction::Malformed;
            }
            assert(s@[2]@ == ss[2] && s@[3]@ == ss[3]);
            let t3 = trim_chars(s[3].as_slice());
            match parse_i32_chars(t3.as_slice()) {
                Some(port) => ControlAction::SetAddress {
                    id,
                    ip: string_of(s[2].as_slice()),
                    port,
                },
                None => ControlAction::Malformed,
            }
        }
    }

    /// Applies a space report of device `id` to its entry `device` (as the
    /// device table returned it; id `-1` when there is none). Binds the
    /// connection to `id` when the report is taken.
    pub fn heartbeat(&mut self, id: i32, rs: i32, device: DeviceItem) -> (r: HeartbeatOutcome)
        ensures
            device.id == -1 ==> r is UnknownDevice && final(self)@ == old(self)@,
            device.id != -1 ==> {
                let v = rs - device.rs + device.leftrs;
                let d = rs - device.rs;
                if i32::MIN <= d <= i32::MAX && i32::MIN <= v <= i32::MAX {
                    &&& final(self)@ == id
                    &&& r matches HeartbeatOutcome::Updated(u)
                    &&& u.id == device.id
                    &&& u.ip == device.ip
                    &&& u.port == device.port
                    &&& u.time == device.time
                    &&& u.is_online
                    &&& u.rs == rs
                    &&& u.leftrs == v
                } else {
                    r is Overflow && final(self)@ == old(self)@
                }
            },
    {
        if device.id == -1 {
            return HeartbeatOutcome::UnknownDevice;
        }
        let d: i64 = rs as i64 - device.rs as i64;
        if d < i32::MIN as i64 || d > i32::MAX as i64 {
            return HeartbeatOutcome::Overflow;
        }
        let v: i64 = d + device.leftrs as i64;
        if v < i32::MIN as i64 || v > i32::MAX as i64 {
            return HeartbeatOutcome::Overflow;
        }
        self.client_id = id;
        HeartbeatOutcome::Updated(
            DeviceItem { is_online: true, rs, leftrs: v as i32, ..device },
        )
    }

    /// Applies an address report of device `id` to its entry `device` (id
    /// `-1` when there is none). `None` ends the connection; otherwise the
    /// connection is bound to `id` and the entry takes the new address.
    pub fn set_address(&mut self, id: i32, ip: String, port: i32, device: DeviceItem) -> (r:
        Option<DeviceItem>)
        ensures
            device.id == -1 ==> r is None && final(self)@ == old(self)@,
            device.id != -1 ==> {
                &&& final(self)@ == id
                &&& r matches Some(u)
                &&& u.id == device.id
                &&& u.ip@ == ip@
                &&& u.port == port
                &&& u.is_online == device.is_online
                &&& u.rs == device.rs
                &&& u.leftrs == device.leftrs
                &&& u.time == device.time
            },
    {
        if device.id == -1 {
            return None;
        }
        self.client_id = id;
        Some(DeviceItem { ip, port, ..device })
    }
}

/// The answer to a space report: `received with <n> unread request!\n`.
pub open spec fn heartbeat_reply_spec(unread: int) -> Seq<char> {
    seq!['r', 'e', 'c', 'e', 'i', 'v', 'e', 'd', ' ', 'w', 'i', 't', 'h', ' '] + format_int(unread)
        + seq![' ', 'u', 'n', 'r', 'e', 'a', 'd', ' ', 'r', 'e', 'q', 'u', 'e', 's', 't', '!', '\n']
}

pub fn heartbeat_reply(unread: i32) -> (r: String)
    ensures
        r@ == heartbeat_reply_spec(unread as int),
{
    let mut r = string_from("received with ");
    let n = format_i32(unread);
    push_str(&mut r, n.as_str());
    push_str(&mut r, " unread request!\n");
    proof {
        reveal_strlit("received with ");
        reveal_strlit(" unread request!\n");
        assert(r@ =~= heartbeat_reply_spec(unread as int));
    }
    r
}

/// The answer to a request query: `<id> <fragment> <type>\n`.
pub open spec fn request_reply_spec(id: int, fid: int, kind: int) -> Seq<char> {
    format_int(id) + seq![' '] + format_int(fid) + seq![' '] + format_int(kind) + seq!['\n']
}

/// The answer to a request query reads back, field by field and in this
/// order, as the request's id, its fragment and its type.
pub proof fn lemma_request_reply_fields(id: i32, fid: i32, kind: i32)
    ensures
        split(request_reply_spec(id as int, fid as int, kind as int), ' ').len() == 3,
        parse_i32_spec(split(request_reply_spec(id as int, fid as int, kind as int), ' ')[0])
            == Some(id),
        parse_i32_spec(split(request_reply_spec(id as int, fid as int, kind as int), ' ')[1])
            == Some(fid),
        parse_i32_spec(trim(split(request_reply_spec(id as int, fid as int, kind as int), ' ')[2]))
            == Some(kind),
{
    let a = format_int(id as int);
    let b = format_int(fid as int);
    let c = format_int(kind as int);
    lemma_parse_format_i32(id);
    lemma_parse_format_i32(fid);
    lemma_parse_format_i32(kind);
    lemma_parse_format(id as int);
    lemma_parse_format(fid as int);
    lemma_parse_format(kind as int);
    let cn = c + seq!['\n'];
    lemma_no_space_nl(c);
    lemma_split_no_sep(cn, ' ');
    lemma_split_no_sep(b, ' ');
    lemma_split_no_sep(a, ' ');
    lemma_split_join(b, cn, ' ');
    let x1 = b + seq![' '] + cn;
    lemma_split_join(a, x1, ' ');
    assert(request_reply_spec(id as int, fid as int, kind as int) =~= a + seq![' '] + x1);
    assert(split(a + seq![' '] + x1, ' ') =~= seq![a, b, cn]);
    lemma_trim_nl(c);
}

pub fn request_reply(request: &RequestItem) -> (r: String)
    ensures
        r@ == request_reply_spec(
            request@.id as int,
            request@.fragment_id as int,
            request@.type_ as int,
        ),
{
    let mut copy = *request;
    let id = copy.get_id();
    let fid = copy.get_fragment_id();
    let kind = copy.get_type();
    let mut r = format_i32(id);
    push_str(&mut r, " ");
    let f = format_i32(fid);
    push_str(&mut r, f.as_str());
    push_str(&mut r, " ");
    let k = format_i32(kind);
    push_str(&mut r, k.as_str());
    push_str(&mut r, "\n");
    proof {
        reveal_strlit(" ");
        reveal_strlit("\n");
        assert(r@ =~= request_reply_spec(
            request@.id as int,
            request@.fragment_id as int,
            request@.type_ as int,
        ));
    }
    r
}

/// The answer to an address report: `set ip=<ip>, port=<port> successfully\n`.
pub open spec fn address_reply_spec(ip: Seq<char>, port: int) -> Seq<char> {
    seq!['s', 'e', 't', ' ', 'i', 'p', '='] + ip + seq![',', ' ', 'p', 'o', 'r', 't', '=']
        + format_int(port) + seq![
        ' ',
        's',
        'u',
        'c',
        'c',
        'e',
        's',
        's',
        'f',
        'u',
        'l',
        'l',
        'y',
        '\n',
    ]
}

pub fn address_reply(ip: &str, port: i32) -> (r: String)
    ensures
        r@ == address_reply_spec(ip@, port as int),
{
    let mut r = string_from("set ip=");
    push_str(&mut r, ip);
    push_str(&mut r, ", port=");
    let p = format_i32(port);
    push_str(&mut r, p.as_str());
    push_str(&mut r, " successfully\n");
    proof {
        reveal_strlit("set ip=");
        reveal_strlit(", port=");
        reveal_strlit(" successfully\n");
        assert(r@ =~= address_reply_spec(ip@, port as int));
    }
    r
}

// ---------------------------------------------------------------------------
// What the client sends
// ---------------------------------------------------------------------------

/// The client's space report: `1 <device> <space>\n`.
pub open spec fn heartbeat_message_spec(id: int, rs: int) -> Seq<char> {
    seq!['1'] + seq![' '] + (format_int(id) + seq![' '] + (format_int(rs) + seq!['\n']))
}

pub fn heartbeat_message(id: i32, rs: i32) -> (r: String)
    ensures
        r@ == heartbeat_message_spec(id as int, rs as int),
{
    let mut r = string_from("1 ");
    let a = format_i32(id);
    push_str(&mut r, a.as_str());
    push_str(&mut r, " ");
    let b = format_i32(rs);
    push_str(&mut r, b.as_str());
    push_str(&mut r, "\n");
    proof {
        reveal_strlit("1 ");
        reveal_strlit(" ");
        reveal_strlit("\n");
        assert(r@ =~= heartbeat_message_spec(id as int, rs as int));
    }
    r
}

/// The client's address report: `3 <device> <ip> <port>\n`.
pub open spec fn address_message_spec(id: int, ip: Seq<char>, port: int) -> Seq<char> {
    seq!['3'] + seq![' '] + (format_int(id) + seq![' '] + (ip + seq![' '] + (format_int(port)
        + seq!['\n'])))
}

pub fn address_message(id: i32, ip: &str, port: i32) -> (r: String)
    ensures
        r@ == address_message_spec(id as int, ip@, port as int),
{
    let mut r = string_from("3 ");
    let a = format_i32(id);
    push_str(&mut r, a.as_str());
    push_str(&mut r, " ");
    push_str(&mut r, ip);
    push_str(&mut r, " ");
    let b = format_i32(port);
    push_str(&mut r, b.as_str());
    push_str(&mut r, "\n");
    proof {
        reveal_strlit("3 ");
        reveal_strlit(" ");
        reveal_strlit("\n");
        assert(r@ =~= address_message_spec(id as int, ip@, port as int));
    }
    r
}

/// The line that ends the client's side of the control connection.
pub fn exit_message() -> (r: String)
    ensures
        r@ == seq!['e', 'x', 'i', 't', '\n'],
{
    let r = string_from("exit\n");
    proof {
        reveal_strlit("exit\n");
        assert(r@ =~= seq!['e', 'x', 'i', 't', '\n']);
    }
    r
}

proof fn lemma_single_no_space(c: char)
    requires
        c != ' ',
    ensures
        !contains_char(seq![c], ' '),
{
    if contains_char(seq![c], ' ') {
        let i = choose|i: int| 0 <= i < 1 && seq![c][i] == ' ';
    }
}

/// A connection bound to a device rejects every command that names another
/// device, and a line that does not start with a command digit `1`, `2` or
/// `3` closes the connection.
pub proof fn lemma_bound_session_rejects_others(client_id: i32, line: Seq<char>, id: i32)
    ensures
        (client_id != UNBOUND && id != client_id && line.len() > 0 && (line[0] == '1' || line[0]
            == '2' || line[0] == '3') && split(line, ' ').len() >= 2 && parse_i32_spec(
            trim(split(line, ' ')[1]),
        ) == Some(id)) ==> decide_spec(client_id, line) is Reject,
        (line.len() == 0 || !(line[0] == '1' || line[0] == '2' || line[0] == '3')) ==> decide_spec(
            client_id,
            line,
        ) is Close,
{
}

/// A space report that the client sends is read back by a connection that
/// is unbound or bound to the same device as that report.
pub proof fn lemma_heartbeat_round_trip(client_id: i32, id: i32, rs: i32)
    requires
        client_id == UNBOUND || client_id == id,
    ensures
        decide_spec(client_id, heartbeat_message_spec(id as int, rs as int))
            == (ControlActionView::Heartbeat { id, rs }),
{
    let a = format_int(id as int);
    let b = format_int(rs as int);
    lemma_parse_format_i32(id);
    lemma_parse_format_i32(rs);
    lemma_parse_format(id as int);
    lemma_parse_format(rs as int);
    let bn = b + seq!['\n'];
    lemma_no_space_nl(b);
    lemma_single_no_space('1');
    lemma_split_no_sep(bn, ' ');
    lemma_split_no_sep(a, ' ');
    lemma_split_no_sep(seq!['1'], ' ');
    lemma_split_join(a, bn, ' ');
    let x1 = a + seq![' '] + bn;
    lemma_split_join(seq!['1'], x1, ' ');
    let m = heartbeat_message_spec(id as int, rs as int);
    assert(m == seq!['1'] + seq![' '] + x1);
    assert(split(m, ' ') =~= seq![seq!['1'], a, bn]);
    assert(m[0] == '1');
    lemma_trim_nl(b);
}

/// An address report that the client sends, with an address free of spaces,
/// is read back by a connection that is unbound or bound to the same device.
pub proof fn lemma_address_round_trip(client_id: i32, id: i32, ip: Seq<char>, port: i32)
    requires
        client_id == UNBOUND || client_id == id,
        !contains_char(ip, ' '),
    ensures
        decide_spec(client_id, address_message_spec(id as int, ip, port as int))
            == (ControlActionView::SetAddress { id, ip, port }),
{
    let a = format_int(id as int);
    let b = format_int(port as int);
    lemma_parse_format_i32(id);
    lemma_parse_format_i32(port);
    lemma_parse_format(id as int);
    lemma_parse_format(port as int);
    let bn = b + seq!['\n'];
    lemma_no_space_nl(b);
    lemma_single_no_space('3');
    lemma_split_no_sep(bn, ' ');
    lemma_split_no_sep(ip, ' ');
    lemma_split_no_sep(a, ' ');
    lemma_split_no_sep(seq!['3'], ' ');
    lemma_split_join(ip, bn, ' ');
    let x2 = ip + seq![' '] + bn;
    lemma_split_join(a, x2, ' ');
    let x1 = a + seq![' '] + x2;
    lemma_split_join(seq!['3'], x1, ' ');
    let m = address_message_spec(id as int, ip, port as int);
    assert(m == seq!['3'] + seq![' '] + x1);
    assert(split(m, ' ') =~= seq![seq!['3'], a, ip, bn]);
    assert(m[0] == '3');
    lemma_trim_no_ws(a);
    lemma_trim_nl(b);
}

} // verus!
