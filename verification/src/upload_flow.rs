//! The server's handling of one uploaded fragment, as a machine that the
//! connection drives: it looks the file up, receives the fragment (once more
//! where the first receipt failed), records it, and after the last fragment
//! either completes the upload or drops it with every fragment it named.
use vstd::prelude::*;

use crate::upload::fragment_name_spec;

verus! {

/// Where the handling of a fragment stands.
#[derive(Clone, Copy, PartialEq, Eq, Structural, Debug)]
pub enum UploadPhase {
    /// The file's stored entry is still to be looked up.
    Lookup,
    /// The fragment is being received.
    FirstReceive,
    /// The first receipt failed; the fragment is being received again.
    SecondReceive,
    /// The last fragment is recorded; the file's fragments are being counted.
    Counting,
    /// All fragments are in; they are being placed on devices.
    Placing,
    /// Nothing is left to do.
    Done,
}

/// Fragment `num` of the `count` fragments of file `file_id`, and whether
/// the connection ends well so far.
#[derive(Clone, Copy, PartialEq, Eq, Structural, Debug)]
pub struct UploadState {
    pub file_id: i32,
    pub num: i32,
    pub count: i32,
    pub phase: UploadPhase,
    pub status: bool,
}

/// What the connection hands back after the last action.
#[derive(Clone, Copy, PartialEq, Eq, Structural, Debug)]
pub enum UploadEvent {
    /// The file's stored entry awaits `noa` fragments (stored negated while
    /// the upload runs).
    Found { noa: i32 },
    /// A receipt of the fragment ended, well or not.
    Received { ok: bool },
    /// The server holds `stored` fragments of the file.
    Counted { stored: i32 },
    /// Placing the fragments on the online devices succeeded or not.
    Placed { ok: bool },
}

/// What the connection does next.
pub enum UploadAction {
    /// Answer `ERROR!`; the handling ends.
    Refuse,
    /// Create the fragment file `name`, answer `received!` and receive into it.
    Receive { name: i32 },
    /// Create the fragment file `name` again and receive into it once more.
    Retry { name: i32 },
    /// Record fragment `name` and answer `received!`; the handling ends.
    Acknowledge { name: i32 },
    /// Record fragment `name`, then count the fragments of `file_id`.
    RecordAndCount { name: i32, file_id: i32 },
    /// Place the `count` fragments of `file_id` on the online devices.
    Place { file_id: i32, count: i32 },
    /// Answer `received!` and store the entry of `file_id` with `count`
    /// fragments; the handling ends.
    Complete { file_id: i32, count: i32 },
    /// Answer `UPLOADFAIL!`, delete the entry of `file_id` and drop each
    /// fragment of `names`; the handling ends.
    Fail { file_id: i32, names: Vec<i32> },
    /// End without an answer.
    GiveUp,
    /// The event does not belong to this point of the handling: nothing.
    Ignore,
}

pub enum UploadActionView {
    Refuse,
    Receive { name: i32 },
    Retry { name: i32 },
    Acknowledge { name: i32 },
    RecordAndCount { name: i32, file_id: i32 },
    Place { file_id: i32, count: i32 },
    Complete { file_id: i32, count: i32 },
    Fail { file_id: i32, names: Seq<i32> },
    GiveUp,
    Ignore,
}

impl View for UploadAction {
    type V = UploadActionView;

    open spec fn view(&self) -> UploadActionView {
        match self {
            UploadAction::Refuse => UploadActionView::Refuse,
            UploadAction::Receive { name } => UploadActionView::Receive { name: *name },
            UploadAction::Retry { name } => UploadActionView::Retry { name: *name },
            UploadAction::Acknowledge { name } => UploadActionView::Acknowledge { name: *name },
            UploadAction::RecordAndCount { name, file_id } => UploadActionView::RecordAndCount {
                name: *name,
                file_id: *file_id,
            },
            UploadAction::Place { file_id, count } => UploadActionView::Place {
                file_id: *file_id,
                count: *count,
            },
            UploadAction::Complete { file_id, count } => UploadActionView::Complete {
                file_id: *file_id,
                count: *count,
            },
            UploadAction::Fail { file_id, names } => UploadActionView::Fail {
                file_id: *file_id,
                names: names@,
            },
            UploadAction::GiveUp => UploadActionView::GiveUp,
            UploadAction::Ignore => UploadActionView::Ignore,
        }
    }
}

/// The phases in which the fragment has been taken.
pub open spec fn taken(p: UploadPhase) -> bool {
    p is FirstReceive || p is SecondReceive || p is Counting || p is Placing
}

/// The fragment name of `file_id` and `num` fits in an `i32`, and so does
/// `file_id * 100`.
pub open spec fn name_fits(file_id: int, num: int) -> bool {
    &&& i32::MIN <= file_id * 100
    &&& fragment_name_spec(file_id, num) <= i32::MAX
}

/// What every state of the handling keeps: a taken fragment lies in
/// `[0, count)` and has a name; counting and placing follow the last one.
pub open spec fn upload_wf(st: UploadState) -> bool {
    &&& st.count != i32::MIN
    &&& taken(st.phase) ==> 0 <= st.num < st.count && name_fits(st.file_id as int, st.num as int)
    &&& (st.phase is Counting || st.phase is Placing) ==> st.num == st.count - 1
}

/// The server takes the fragment: the entry awaits exactly `count`
/// fragments and `num` lies in `[0, count)`.
pub open spec fn accepted(st: UploadState, noa: i32) -> bool {
    noa == -st.count && 0 <= st.num < st.count
}

/// Where a step computes a fragment name, the name fits.
pub open spec fn upload_step_defined(st: UploadState, ev: UploadEvent) -> bool {
    match ev {
        UploadEvent::Found { noa } => (st.phase is Lookup && accepted(st, noa)) ==> name_fits(
            st.file_id as int,
            st.num as int,
        ),
        _ => true,
    }
}

/// The name of the fragment being handled.
pub open spec fn current_name(st: UploadState) -> i32 {
    fragment_name_spec(st.file_id as int, st.num as int) as i32
}

/// The names of all `count` fragments of `file_id`, in order.
pub open spec fn all_names(file_id: int, count: int) -> Seq<i32> {
    Seq::new(
        if count > 0 {
            count as nat
        } else {
            0
        },
        |k: int| fragment_name_spec(file_id, k) as i32,
    )
}

/// The dropped upload: its entry and every fragment it named go.
pub open spec fn failed(st: UploadState) -> (UploadState, UploadActionView) {
    (
        UploadState { phase: UploadPhase::Done, ..st },
        UploadActionView::Fail { file_id: st.file_id, names: all_names(st.file_id as int, st.count as int) },
    )
}

/// A received fragment is recorded; after the last one the fragments are
/// counted, otherwise the handling ends with `received!`.
pub open spec fn after_receipt(st: UploadState) -> (UploadState, UploadActionView) {
    if st.num == st.count - 1 {
        (
            UploadState { phase: UploadPhase::Counting, ..st },
            UploadActionView::RecordAndCount { name: current_name(st), file_id: st.file_id },
        )
    } else {
        (
            UploadState { phase: UploadPhase::Done, ..st },
            UploadActionView::Acknowledge { name: current_name(st) },
        )
    }
}

/// One step of the handling: the next state and action for an event.
pub open spec fn upload_step_spec(st: UploadState, ev: UploadEvent) -> (UploadState, UploadActionView) {
    let ignore = (st, UploadActionView::Ignore);
    match st.phase {
        UploadPhase::Lookup => match ev {
            UploadEvent::Found { noa } => if accepted(st, noa) {
                (
                    UploadState { phase: UploadPhase::FirstReceive, ..st },
                    UploadActionView::Receive { name: current_name(st) },
                )
            } else {
                (
                    UploadState { phase: UploadPhase::Done, status: false, ..st },
                    UploadActionView::Refuse,
                )
            },
            _ => ignore,
        },
        UploadPhase::FirstReceive => match ev {
            UploadEvent::Received { ok } => if ok {
                after_receipt(UploadState { status: true, ..st })
            } else {
                (
                    UploadState { phase: UploadPhase::SecondReceive, status: false, ..st },
                    UploadActionView::Retry { name: current_name(st) },
                )
            },
            _ => ignore,
        },
        UploadPhase::SecondReceive => match ev {
            UploadEvent::Received { ok } => if ok {
                after_receipt(st)
            } else {
                (UploadState { phase: UploadPhase::Done, ..st }, UploadActionView::GiveUp)
            },
            _ => ignore,
        },
        UploadPhase::Counting => match ev {
            UploadEvent::Counted { stored } => if stored == st.count {
                (
                    UploadState { phase: UploadPhase::Placing, ..st },
                    UploadActionView::Place { file_id: st.file_id, count: st.count },
                )
            } else {
                failed(st)
            },
            _ => ignore,
        },
        UploadPhase::Placing => match ev {
            UploadEvent::Placed { ok } => if ok {
                (
                    UploadState { phase: UploadPhase::Done, ..st },
                    UploadActionView::Complete { file_id: st.file_id, count: st.count },
                )
            } else {
                failed(st)
            },
            _ => ignore,
        },
        UploadPhase::Done => ignore,
    }
}

impl UploadState {
    /// The handling of fragment `num` of `count` of file `file_id`, before
    /// the file is looked up.
    pub fn new(file_id: i32, num: i32, count: i32) -> (st: UploadState)
        requires
            count != i32::MIN,
        ensures
            st == (UploadState { file_id, num, count, phase: UploadPhase::Lookup, status: true }),
            upload_wf(st),
    {
        UploadState { file_id, num, count, phase: UploadPhase::Lookup, status: true }
    }
}

fn name_of(st: &UploadState) -> (r: i32)
    requires
        name_fits(st.file_id as int, st.num as int),
        0 <= st.num,
    ensures
        r == current_name(*st),
{
    st.file_id * 100 + st.num
}

fn names_of(file_id: i32, count: i32) -> (r: Vec<i32>)
    requires
        count > 0 ==> name_fits(file_id as int, count - 1),
    ensures
        r@ == all_names(file_id as int, count as int),
{
    let mut r: Vec<i32> = Vec::new();
    let mut i: i32 = 0;
    while i < count
        invariant
            0 <= i,
            count > 0 ==> i <= count,
            count <= 0 ==> i == 0,
            count > 0 ==> name_fits(file_id as int, count - 1),
            r@.len() == i,
            forall|k: int| 0 <= k < i ==> #[trigger] r@[k] == fragment_name_spec(file_id as int, k) as i32,
        decreases count - i,
    {
        r.push(file_id * 100 + i);
        i = i + 1;
    }
    assert(r@ =~= all_names(file_id as int, count as int));
    r
}

fn receipt_done(st: UploadState) -> (r: (UploadState, UploadAction))
    requires
        upload_wf(st),
        st.phase is FirstReceive || st.phase is SecondReceive,
    ensures
        upload_wf(r.0),
        r.0 == after_receipt(st).0,
        r.1@ == after_receipt(st).1,
{
    let name = name_of(&st);
    if st.num == st.count - 1 {
        (
            UploadState { phase: UploadPhase::Counting, ..st },
            UploadAction::RecordAndCount { name, file_id: st.file_id },
        )
    } else {
        (UploadState { phase: UploadPhase::Done, ..st }, UploadAction::Acknowledge { name })
    }
}

fn fail(st: UploadState) -> (r: (UploadState, UploadAction))
    requires
        upload_wf(st),
        st.phase is Counting || st.phase is Placing,
    ensures
        upload_wf(r.0),
        r.0 == failed(st).0,
        r.1@ == failed(st).1,
{
    let names = names_of(st.file_id, st.count);
    (
        UploadState { phase: UploadPhase::Done, ..st },
        UploadAction::Fail { file_id: st.file_id, names },
    )
}

/// One step of the handling of an uploaded fragment.
pub fn upload_step(st: &UploadState, ev: UploadEvent) -> (r: (UploadState, UploadAction))
    requires
        upload_wf(*st),
        upload_step_defined(*st, ev),
    ensures
        upload_wf(r.0),
        r.0 == upload_step_spec(*st, ev).0,
        r.1@ == upload_step_spec(*st, ev).1,
{
    let st = *st;
    match st.phase {
        UploadPhase::Lookup => match ev {
            UploadEvent::Found { noa } => {
                if noa == -st.count && 0 <= st.num && st.num < st.count {
                    let name = name_of(&st);
                    (
                        UploadState { phase: UploadPhase::FirstReceive, ..st },
                        UploadAction::Receive { name },
                    )
                } else {
                    (
                        UploadState { phase: UploadPhase::Done, status: false, ..st },
                        UploadAction::Refuse,
                    )
                }
            },
            _ => (st, UploadAction::Ignore),
        },
        UploadPhase::FirstReceive => match ev {
            UploadEvent::Received { ok } => {
                if ok {
                    receipt_done(UploadState { status: true, ..st })
                } else {
                    let name = name_of(&st);
                    (
                        UploadState { phase: UploadPhase::SecondReceive, status: false, ..st },
                        UploadAction::Retry { name },
                    )
                }
            },
            _ => (st, UploadAction::Ignore),
        },
        UploadPhase::SecondReceive => match ev {
            UploadEvent::Received { ok } => {
                if ok {
                    receipt_done(st)
                } else {
                    (UploadState { phase: UploadPhase::Done, ..st }, UploadAction::GiveUp)
                }
            },
            _ => (st, UploadAction::Ignore),
        },
        UploadPhase::Counting => match ev {
            UploadEvent::Counted { stored } => {
                if stored == st.count {
                    (
                        UploadState { phase: UploadPhase::Placing, ..st },
                        UploadAction::Place { file_id: st.file_id, count: st.count },
                    )
                } else {
                    fail(st)
                }
            },
            _ => (st, UploadAction::Ignore),
        },
        UploadPhase::Placing => match ev {
            UploadEvent::Placed { ok } => {
                if ok {
                    (
                        UploadState { phase: UploadPhase::Done, ..st },
                        UploadAction::Complete { file_id: st.file_id, count: st.count },
                    )
                } else {
                    fail(st)
                }
            },
            _ => (st, UploadAction::Ignore),
        },
        UploadPhase::Done => (st, UploadAction::Ignore),
    }
}

/// A dropped upload leaves nothing behind: the handling drops the entry of
/// the file and the names of all its `count` fragments, the one just
/// recorded among them.
pub proof fn lemma_failed_upload_drops_all(st: UploadState, ev: UploadEvent)
    requires
        upload_wf(st),
        upload_step_spec(st, ev).1 is Fail,
    ensures
        (upload_step_spec(st, ev).1 matches UploadActionView::Fail { file_id, names } && {
            &&& file_id == st.file_id
            &&& names.len() == st.count
            &&& forall|k: int| 0 <= k < st.count ==> #[trigger] names[k] == fragment_name_spec(st.file_id as int, k)
            &&& names[st.num as int] == current_name(st)
        }),
{
    let names = all_names(st.file_id as int, st.count as int);
    assert forall|k: int| 0 <= k < st.count implies #[trigger] names[k] == fragment_name_spec(st.file_id as int, k) by {
        assert(fragment_name_spec(st.file_id as int, k) <= fragment_name_spec(st.file_id as int, st.num as int));
    }
}

/// An upload completes only once all its fragments are stored and placed:
/// completion follows a successful placement, and placement starts only when
/// the server holds as many fragments as the upload announced.
pub proof fn lemma_complete_needs_all(st: UploadState, ev: UploadEvent)
    ensures
        upload_step_spec(st, ev).1 is Complete ==> st.phase is Placing && ev == (UploadEvent::Placed { ok: true }),
        (upload_step_spec(st, ev).0.phase is Placing && !(st.phase is Placing)) ==> st.phase is Counting
            && ev == (UploadEvent::Counted { stored: st.count }),
{
}

/// The lookup takes fragment `num` exactly when the stored entry awaits
/// `count` fragments (`noa == -count`) and `0 <= num < count`: the fragment
/// is then received under the name `file_id * 100 + num`. Otherwise the
/// server refuses it and the connection ends badly.
pub proof fn lemma_lookup_takes_valid_fragments(st: UploadState, noa: i32)
    requires
        upload_wf(st),
        st.phase is Lookup,
        (noa == -st.count && 0 <= st.num < st.count) ==> (i32::MIN <= st.file_id * 100
            && st.file_id * 100 + st.num <= i32::MAX),
    ensures
        (noa == -st.count && 0 <= st.num < st.count) ==> {
            &&& upload_step_spec(st, UploadEvent::Found { noa }).0 == (UploadState {
                phase: UploadPhase::FirstReceive,
                ..st
            })
            &&& (upload_step_spec(st, UploadEvent::Found { noa }).1 matches UploadActionView::Receive {
                name,
            } && name == st.file_id * 100 + st.num)
        },
        !(noa == -st.count && 0 <= st.num < st.count) ==> {
            &&& upload_step_spec(st, UploadEvent::Found { noa }).0 == (UploadState {
                phase: UploadPhase::Done,
                status: false,
                ..st
            })
            &&& upload_step_spec(st, UploadEvent::Found { noa }).1 is Refuse
        },
{
}

/// A fragment that arrives, on the first receipt or on the retry, is
/// recorded under `file_id * 100 + num`. The last fragment (`num ==
/// count - 1`) then leads to counting the file's fragments; any other ends
/// the handling with `received!`. The connection ends well exactly when the
/// first receipt succeeded.
pub proof fn lemma_receipt_records_fragment(st: UploadState)
    requires
        upload_wf(st),
        st.phase is FirstReceive || st.phase is SecondReceive,
    ensures
        ({
            let (next, action) = upload_step_spec(st, UploadEvent::Received { ok: true });
            &&& next.file_id == st.file_id && next.num == st.num && next.count == st.count
            &&& next.status == (st.phase is FirstReceive || st.status)
            &&& st.num == st.count - 1 ==> next.phase is Counting && (action matches UploadActionView::RecordAndCount {
                name,
                file_id,
            } && name == st.file_id * 100 + st.num && file_id == st.file_id)
            &&& st.num != st.count - 1 ==> next.phase is Done && (action matches UploadActionView::Acknowledge {
                name,
            } && name == st.file_id * 100 + st.num)
        }),
        ({
            let (next, action) = upload_step_spec(st, UploadEvent::Received { ok: false });
            &&& next.file_id == st.file_id && next.num == st.num && next.count == st.count
            &&& !next.status || st.phase is SecondReceive && next.status == st.status
            &&& st.phase is FirstReceive ==> next.phase is SecondReceive && (action matches UploadActionView::Retry {
                name,
            } && name == st.file_id * 100 + st.num)
            &&& st.phase is SecondReceive ==> next.phase is Done && action is GiveUp
        }),
{
}

/// After the last fragment is recorded, placement starts exactly when the
/// server holds `count` fragments of the file, and the upload completes
/// with `count` fragments exactly when placement succeeds; otherwise the
/// upload is dropped.
pub proof fn lemma_count_and_place(st: UploadState, stored: i32, ok: bool)
    requires
        upload_wf(st),
    ensures
        st.phase is Counting ==> {
            &&& stored == st.count ==> upload_step_spec(st, UploadEvent::Counted { stored }).0.phase is Placing
                && upload_step_spec(st, UploadEvent::Counted { stored }).1 == (UploadActionView::Place {
                file_id: st.file_id,
                count: st.count,
            })
            &&& stored != st.count ==> upload_step_spec(st, UploadEvent::Counted { stored }).0.phase is Done
                && upload_step_spec(st, UploadEvent::Counted { stored }).1 is Fail
        },
        st.phase is Placing ==> {
            &&& ok ==> upload_step_spec(st, UploadEvent::Placed { ok }).0.phase is Done
                && upload_step_spec(st, UploadEvent::Placed { ok }).1 == (UploadActionView::Complete {
                file_id: st.file_id,
                count: st.count,
            })
            &&& !ok ==> upload_step_spec(st, UploadEvent::Placed { ok }).0.phase is Done
                && upload_step_spec(st, UploadEvent::Placed { ok }).1 is Fail
        },
{
}

} // verus!
