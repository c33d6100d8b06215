//! The server's handing of a stored fragment to the device that asked for
//! it, as a machine that the connection drives: it checks the request, opens
//! the fragment file, sends it (once more where the first send failed) and
//! settles the request on the device's exact acknowledgement.
use vstd::prelude::*;

use crate::protocol::ack_exact;
use crate::protocol::ack_exact_spec;
use crate::protocol::lemma_ack_exact_judges;
use crate::protocol::AckCheck;
use crate::records::RequestItem;
use crate::records::RequestView;
use crate::records::REQUEST_DOWNLOAD;

verus! {

/// Where the delivery stands.
#[derive(Clone, Copy, PartialEq, Eq, Structural, Debug)]
pub enum SendPhase {
    /// The request is still to be looked up.
    Lookup,
    /// The fragment file is being opened.
    Opening,
    /// The fragment is being sent.
    Sending,
    /// The first send failed; the fragment is being sent again.
    Resending,
    /// The device's reply is awaited.
    AwaitingReply,
    /// Nothing is left to do.
    Done,
}

/// The delivery of fragment `fid` under request `request_id` to device
/// `device_id`, and whether the connection ends well so far.
#[derive(Clone, Copy, PartialEq, Eq, Structural, Debug)]
pub struct SendState {
    pub request_id: i32,
    pub fid: i32,
    pub device_id: i32,
    pub phase: SendPhase,
    pub status: bool,
}

/// What the connection hands back after the last action.
pub enum SendEvent {
    /// The request stored under the asked id.
    Found(RequestItem),
    /// Opening the fragment file succeeded or not.
    Opened { ok: bool },
    /// A send of the fragment ended, well or not.
    Sent { ok: bool },
    /// The line the device answered.
    Replied(String),
}

pub enum SendEventView {
    Found(RequestView),
    Opened { ok: bool },
    Sent { ok: bool },
    Replied(Seq<char>),
}

impl View for SendEvent {
    type V = SendEventView;

    open spec fn view(&self) -> SendEventView {
        match self {
            SendEvent::Found(r) => SendEventView::Found(r@),
            SendEvent::Opened { ok } => SendEventView::Opened { ok: *ok },
            SendEvent::Sent { ok } => SendEventView::Sent { ok: *ok },
            SendEvent::Replied(line) => SendEventView::Replied(line@),
        }
    }
}

/// What the connection does next.
#[derive(Clone, Copy, PartialEq, Eq, Structural, Debug)]
pub enum SendAction {
    /// End; nothing more is done.
    Stop,
    /// Open the fragment file `fid`.
    Open { fid: i32 },
    /// The fragment file is missing: delete request `request_id`; the
    /// delivery ends.
    DropRequest { request_id: i32 },
    /// Send the opened fragment file.
    Send,
    /// Open the fragment file `fid` again and send it once more.
    Resend { fid: i32 },
    /// Read the device's reply line.
    ReadReply,
    /// Delete request `request_id` and record that fragment `fid` now lies
    /// on device `device_id`; the delivery ends.
    Delivered { request_id: i32, fid: i32, device_id: i32 },
    /// The event does not belong to this point of the delivery: nothing.
    Ignore,
}

/// One step of the delivery: the next state and action for an event.
pub open spec fn send_step_spec(st: SendState, ev: SendEventView) -> (SendState, SendAction) {
    let ignore = (st, SendAction::Ignore);
    let done = SendState { phase: SendPhase::Done, ..st };
    match st.phase {
        SendPhase::Lookup => match ev {
            SendEventView::Found(r) => if r.fragment_id == st.fid && r.type_ == REQUEST_DOWNLOAD {
                (
                    SendState {
                        request_id: r.id,
                        device_id: r.device_id,
                        phase: SendPhase::Opening,
                        ..st
                    },
                    SendAction::Open { fid: st.fid },
                )
            } else {
                (SendState { status: false, ..done }, SendAction::Stop)
            },
            _ => ignore,
        },
        SendPhase::Opening => match ev {
            SendEventView::Opened { ok } => if ok {
                (SendState { phase: SendPhase::Sending, ..st }, SendAction::Send)
            } else {
                (
                    SendState { status: false, ..done },
                    SendAction::DropRequest { request_id: st.request_id },
                )
            },
            _ => ignore,
        },
        SendPhase::Sending => match ev {
            SendEventView::Sent { ok } => if ok {
                (
                    SendState { phase: SendPhase::AwaitingReply, status: true, ..st },
                    SendAction::ReadReply,
                )
            } else {
                (
                    SendState { phase: SendPhase::Resending, status: false, ..st },
                    SendAction::Resend { fid: st.fid },
                )
            },
            _ => ignore,
        },
        SendPhase::Resending => match ev {
            SendEventView::Sent { ok } => if ok {
                (SendState { phase: SendPhase::AwaitingReply, ..st }, SendAction::ReadReply)
            } else {
                (done, SendAction::Stop)
            },
            _ => ignore,
        },
        SendPhase::AwaitingReply => match ev {
            SendEventView::Replied(line) => if ack_exact_spec(line) is Accepted {
                (
                    done,
                    SendAction::Delivered {
                        request_id: st.request_id,
                        fid: st.fid,
                        device_id: st.device_id,
                    },
                )
            } else {
                (done, SendAction::Stop)
            },
            _ => ignore,
        },
        SendPhase::Done => ignore,
    }
}

/// A reply that runs on past a complete acknowledgement makes the
/// character-by-character comparison read past its pattern: the delivery
/// aborts there.
pub open spec fn send_step_defined(st: SendState, ev: SendEventView) -> bool {
    match ev {
        SendEventView::Replied(line) => st.phase is AwaitingReply ==> !(ack_exact_spec(line) is Overrun),
        _ => true,
    }
}

impl SendState {
    /// The delivery asked for by request `request_id` for fragment `fid`,
    /// before the request is looked up.
    pub fn new(request_id: i32, fid: i32) -> (st: SendState)
        ensures
            st == (SendState { request_id, fid, device_id: 0, phase: SendPhase::Lookup, status: true }),
    {
        SendState { request_id, fid, device_id: 0, phase: SendPhase::Lookup, status: true }
    }
}

/// One step of the delivery of a stored fragment.
pub fn send_step(st: &SendState, ev: SendEvent) -> (r: (SendState, SendAction))
    requires
        send_step_defined(*st, ev@),
    ensures
        r == send_step_spec(*st, ev@),
{
    let st = *st;
    let done = SendState { phase: SendPhase::Done, ..st };
    match st.phase {
        SendPhase::Lookup => match ev {
            SendEvent::Found(r) => {
                if r.matches(st.fid, REQUEST_DOWNLOAD) {
                    let mut r = r;
                    let request_id = r.get_id();
                    let device_id = r.get_device_id();
                    (
                        SendState { request_id, device_id, phase: SendPhase::Opening, ..st },
                        SendAction::Open { fid: st.fid },
                    )
                } else {
                    (SendState { status: false, ..done }, SendAction::Stop)
                }
            },
            _ => (st, SendAction::Ignore),
        },
        SendPhase::Opening => match ev {
            SendEvent::Opened { ok } => {
                if ok {
                    (SendState { phase: SendPhase::Sending, ..st }, SendAction::Send)
                } else {
                    (
                        SendState { status: false, ..done },
                        SendAction::DropRequest { request_id: st.request_id },
                    )
                }
            },
            _ => (st, SendAction::Ignore),
        },
        SendPhase::Sending => match ev {
            SendEvent::Sent { ok } => {
                if ok {
                    (
                        SendState { phase: SendPhase::AwaitingReply, status: true, ..st },
                        SendAction::ReadReply,
                    )
                } else {
                    (
                        SendState { phase: SendPhase::Resending, status: false, ..st },
                        SendAction::Resend { fid: st.fid },
                    )
                }
            },
            _ => (st, SendAction::Ignore),
        },
        SendPhase::Resending => match ev {
            SendEvent::Sent { ok } => {
                if ok {
                    (SendState { phase: SendPhase::AwaitingReply, ..st }, SendAction::ReadReply)
                } else {
                    (done, SendAction::Stop)
                }
            },
            _ => (st, SendAction::Ignore),
        },
        SendPhase::AwaitingReply => match ev {
            SendEvent::Replied(line) => {
                match ack_exact(line.as_str()) {
                    AckCheck::Accepted => (
                        done,
                        SendAction::Delivered {
                            request_id: st.request_id,
                            fid: st.fid,
                            device_id: st.device_id,
                        },
                    ),
                    _ => (done, SendAction::Stop),
                }
            },
            _ => (st, SendAction::Ignore),
        },
        SendPhase::Done => (st, SendAction::Ignore),
    }
}

/// A request is settled only on the device's exact acknowledgement of the
/// fragment it asked for, and a missing fragment file drops the request.
pub proof fn lemma_delivered_only_on_ack(st: SendState, ev: SendEventView)
    ensures
        send_step_spec(st, ev).1 matches SendAction::Delivered { request_id, fid, device_id } ==> {
            &&& st.phase is AwaitingReply
            &&& ev matches SendEventView::Replied(line) && ack_exact_spec(line) is Accepted
            &&& request_id == st.request_id && fid == st.fid && device_id == st.device_id
        },
        send_step_spec(st, ev).1 is DropRequest ==> st.phase is Opening && ev == (SendEventView::Opened { ok: false }),
{
}

/// Each step of a delivery, by phase: the request is taken exactly when it
/// asks for this fragment to be sent (kind 2), keeping its id and device; a
/// fragment file that opens is sent, one that does not drops the request; a
/// failed send is retried once; the reply settles the request only when it
/// is `received!` and a line break exactly.
pub proof fn lemma_send_transitions(st: SendState, r: RequestView, ok: bool, line: Seq<char>)
    ensures
        st.phase is Lookup ==> {
            let (next, action) = send_step_spec(st, SendEventView::Found(r));
            &&& (r.fragment_id == st.fid && r.type_ == 2) ==> next == (SendState {
                request_id: r.id,
                device_id: r.device_id,
                phase: SendPhase::Opening,
                ..st
            }) && action == (SendAction::Open { fid: st.fid })
            &&& !(r.fragment_id == st.fid && r.type_ == 2) ==> next.phase is Done && !next.status
                && action is Stop
        },
        st.phase is Opening ==> {
            let (next, action) = send_step_spec(st, SendEventView::Opened { ok });
            &&& ok ==> next.phase is Sending && next.status == st.status && action is Send
            &&& !ok ==> next.phase is Done && !next.status && action == (SendAction::DropRequest {
                request_id: st.request_id,
            })
        },
        st.phase is Sending ==> {
            let (next, action) = send_step_spec(st, SendEventView::Sent { ok });
            &&& next.status == ok
            &&& ok ==> next.phase is AwaitingReply && action is ReadReply
            &&& !ok ==> next.phase is Resending && action == (SendAction::Resend { fid: st.fid })
        },
        st.phase is Resending ==> {
            let (next, action) = send_step_spec(st, SendEventView::Sent { ok });
            &&& next.status == st.status
            &&& ok ==> next.phase is AwaitingReply && action is ReadReply
            &&& !ok ==> next.phase is Done && action is Stop
        },
        st.phase is AwaitingReply ==> {
            let (next, action) = send_step_spec(st, SendEventView::Replied(line));
            &&& next.phase is Done && next.status == st.status
            &&& line == seq!['r', 'e', 'c', 'e', 'i', 'v', 'e', 'd', '!', '\n'] ==> action == (
            SendAction::Delivered { request_id: st.request_id, fid: st.fid, device_id: st.device_id })
            &&& line != seq!['r', 'e', 'c', 'e', 'i', 'v', 'e', 'd', '!', '\n'] ==> action is Stop
        },
{
    if st.phase is AwaitingReply {
        lemma_ack_exact_judges(line);
    }
}

} // verus!
