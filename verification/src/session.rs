//! A client's fragment service: a peer connects over a WebSocket, says
//! whether it uploads (`U`), downloads (`D`) or echoes (`E`), names a
//! fragment, and the client stores or sends the fragment and its digest.
use vstd::prelude::*;

use crate::text::chars_of;
use crate::text::format_i32;
use crate::text::format_int;
use crate::text::push_str;
use crate::text::string_from;

verus! {

/// A WebSocket message, as the service sees it.
pub enum Message {
    Text(String),
    Binary(Vec<u8>),
    Close,
    Ping(Vec<u8>),
    Pong(Vec<u8>),
}

/// The contents of a [`Message`].
pub enum MessageView {
    Text(Seq<char>),
    Binary(Seq<u8>),
    Close,
    Ping(Seq<u8>),
    Pong(Seq<u8>),
}

impl View for Message {
    type V = MessageView;

    open spec fn view(&self) -> MessageView {
        match self {
            Message::Text(s) => MessageView::Text(s@),
            Message::Binary(b) => MessageView::Binary(b@),
            Message::Close => MessageView::Close,
            Message::Ping(b) => MessageView::Ping(b@),
            Message::Pong(b) => MessageView::Pong(b@),
        }
    }
}

/// What receiving does with what the connection delivered.
pub enum RecvStep {
    /// Hand this message to the service.
    Deliver(Message),
    /// A close or ping: wait for the next message.
    Skip,
    /// Receiving failed: the service gets a close message.
    Stop,
}

/// Decides on one delivery (`None` for a receive error).
pub fn recv_step(incoming: Option<Message>) -> (r: RecvStep)
    ensures
        incoming is None ==> r is Stop,
        incoming matches Some(m) ==> (m is Close || m is Ping) ==> r is Skip,
        incoming matches Some(m) ==> !(m is Close || m is Ping) ==> (r matches RecvStep::Deliver(d)
            && d@ == m@),
{
    match incoming {
        None => RecvStep::Stop,
        Some(m) => match m {
            Message::Close => RecvStep::Skip,
            Message::Ping(_) => RecvStep::Skip,
            other => RecvStep::Deliver(other),
        },
    }
}

/// The text of a text message, `default` for any other message.
pub fn text_or(m: &Message, default: &str) -> (r: String)
    ensures
        m@ matches MessageView::Text(t) ==> r@ == t,
        !(m@ is Text) ==> r@ == default@,
{
    match m {
        Message::Text(t) => t.clone(),
        _ => string_from(default),
    }
}

/// The payload of a binary message.
pub fn binary_payload(m: Message) -> (r: Option<Vec<u8>>)
    ensures
        m@ matches MessageView::Binary(b) ==> (r matches Some(v) && v@ == b),
        !(m@ is Binary) ==> r is None,
{
    match m {
        Message::Binary(b) => Some(b),
        _ => None,
    }
}

/// The payload of a binary message, nothing for any other message.
pub fn binary_or_empty(m: Message) -> (r: Vec<u8>)
    ensures
        m@ matches MessageView::Binary(b) ==> r@ == b,
        !(m@ is Binary) ==> r@.len() == 0,
{
    match m {
        Message::Binary(b) => b,
        _ => Vec::new(),
    }
}

/// The operation a peer asks for.
pub enum FragmentOp {
    Upload,
    Download,
    Echo,
    Undefined,
}

/// How the service reads the opening message: a text message `U`, `D` or
/// `E`; anything else is undefined.
pub open spec fn fragment_op_spec(m: MessageView) -> FragmentOp {
    match m {
        MessageView::Text(t) => if t == seq!['U'] {
            FragmentOp::Upload
        } else if t == seq!['D'] {
            FragmentOp::Download
        } else if t == seq!['E'] {
            FragmentOp::Echo
        } else {
            FragmentOp::Undefined
        },
        _ => FragmentOp::Undefined,
    }
}

/// A peer uploads exactly when its opening message is the text `U`,
/// downloads exactly on the text `D`, echoes exactly on the text `E`; every
/// other opening is undefined.
pub proof fn lemma_fragment_op_letters(m: MessageView)
    ensures
        fragment_op_spec(m) is Upload <==> m == MessageView::Text(seq!['U']),
        fragment_op_spec(m) is Download <==> m == MessageView::Text(seq!['D']),
        fragment_op_spec(m) is Echo <==> m == MessageView::Text(seq!['E']),
{
    assert(seq!['U'] != seq!['D']) by {
        assert(seq!['U'][0] != seq!['D'][0]);
    }
    assert(seq!['U'] != seq!['E']) by {
        assert(seq!['U'][0] != seq!['E'][0]);
    }
    assert(seq!['D'] != seq!['E']) by {
        assert(seq!['D'][0] != seq!['E'][0]);
    }
}

pub fn fragment_op(m: &Message) -> (r: FragmentOp)
    ensures
        r == fragment_op_spec(m@),
{
    match m {
        Message::Text(t) => {
            let cs = chars_of(t.as_str());
            if cs.len() == 1 && cs[0] == 'U' {
                assert(cs@ =~= seq!['U']);
                FragmentOp::Upload
            } else if cs.len() == 1 && cs[0] == 'D' {
                assert(cs@ =~= seq!['D']);
                proof {
                    if t@ == seq!['U'] {
                        assert(t@[0] == 'U');
                    }
                }
                FragmentOp::Download
            } else if cs.len() == 1 && cs[0] == 'E' {
                assert(cs@ =~= seq!['E']);
                proof {
                    if t@ == seq!['U'] {
                        assert(t@[0] == 'U');
                    }
                    if t@ == seq!['D'] {
                        assert(t@[0] == 'D');
                    }
                }
                FragmentOp::Echo
            } else {
                proof {
                    if t@ == seq!['U'] {
                        assert(t@[0] == 'U');
                    }
                    if t@ == seq!['D'] {
                        assert(t@[0] == 'D');
                    }
                    if t@ == seq!['E'] {
                        assert(t@[0] == 'E');
                    }
                }
                FragmentOp::Undefined
            }
        },
        _ => FragmentOp::Undefined,
    }
}

/// Where the service keeps fragment `name`: `<folder>/<name>`.
pub fn fragment_path(folder: &str, name: &str) -> (r: String)
    ensures
        r@ == folder@ + seq!['/'] + name@,
{
    let mut r = string_from(folder);
    push_str(&mut r, "/");
    push_str(&mut r, name);
    proof {
        reveal_strlit("/");
        assert(r@ =~= folder@ + seq!['/'] + name@);
    }
    r
}

/// Where the service keeps the digest of fragment `name`:
/// `<folder>/<name>.digest`.
pub fn digest_path(folder: &str, name: &str) -> (r: String)
    ensures
        r@ == folder@ + seq!['/'] + name@ + seq!['.', 'd', 'i', 'g', 'e', 's', 't'],
{
    let mut r = fragment_path(folder, name);
    push_str(&mut r, ".digest");
    proof {
        reveal_strlit(".digest");
        assert(r@ =~= folder@ + seq!['/'] + name@ + seq!['.', 'd', 'i', 'g', 'e', 's', 't']);
    }
    r
}

/// The local address the fragment service listens on: `127.0.0.1:<port>`.
pub fn listen_address(port: i32) -> (r: String)
    ensures
        r@ == seq!['1', '2', '7', '.', '0', '.', '0', '.', '1', ':'] + format_int(port as int),
{
    let mut r = string_from("127.0.0.1:");
    let p = format_i32(port);
    push_str(&mut r, p.as_str());
    proof {
        reveal_strlit("127.0.0.1:");
        assert(r@ =~= seq!['1', '2', '7', '.', '0', '.', '0', '.', '1', ':'] + format_int(
            port as int,
        ));
    }
    r
}

} // verus!
