//! Transfers that go on at the same time: what holds of them however the steps
//! of several browsers come one after the other.

use vstd::prelude::*;

use crate::keys::vacant_is_not_used;
use crate::transfers::{
    closing_keeps_others, fresh_batch, opening_keeps_others, reports_keep_coherence,
    starting_keeps_coherence, FileCountView, FileView, Ticket, TransfersView,
};

verus! {

/// A step of the transfers.
pub enum Step {
    /// A batch is opened, of so many files, with so many counted.
    Open(FileCountView, int),
    /// The batch under a key is closed.
    Close(usize),
    /// A file of the batch under a key is started.
    Begin(usize, FileView),
    /// So many more bytes of a file have passed.
    Advance(Ticket, nat),
    /// A file has arrived.
    Finish(Ticket),
    /// A batch has counted one more file.
    Count(u64),
}

/// The transfers after a step.
pub open spec fn stepped(t: TransfersView, s: Step) -> TransfersView {
    match s {
        Step::Open(num_files, files_uploaded) => t.opened(fresh_batch(num_files, files_uploaded)),
        Step::Close(key) => t.closed(key),
        Step::Begin(key, file) => t.begun(key, file),
        Step::Advance(ticket, n) => t.advanced(ticket, n),
        Step::Finish(ticket) => t.finished(ticket),
        Step::Count(id) => t.counted(id),
    }
}

/// A step that can be taken: the key it goes by is in use, and what is opened or
/// started can still be numbered.
pub open spec fn can_step(t: TransfersView, s: Step) -> bool {
    match s {
        Step::Open(_, _) => t.issued < u64::MAX && t.listed.dom().len() < usize::MAX,
        Step::Close(key) => t.listed.contains_key(key),
        Step::Begin(key, _) => {
            &&& t.issued < u64::MAX
            &&& t.listed.contains_key(key)
            &&& t.batches[t.listed[key]].files.dom().len() < usize::MAX
        },
        _ => true,
    }
}

/// The transfers after steps, one after the other.
pub open spec fn stepped_all(t: TransfersView, steps: Seq<Step>) -> TransfersView
    decreases steps.len(),
{
    if steps.len() == 0 {
        t
    } else {
        stepped(stepped_all(t, steps.drop_last()), steps.last())
    }
}

/// Steps that can be taken one after the other.
pub open spec fn can_step_all(t: TransfersView, steps: Seq<Step>) -> bool
    decreases steps.len(),
{
    steps.len() > 0 ==> {
        &&& can_step_all(t, steps.drop_last())
        &&& can_step(stepped_all(t, steps.drop_last()), steps.last())
    }
}

/// A step closes a batch.
pub open spec fn closes(t: TransfersView, s: Step, id: u64) -> bool {
    s matches Step::Close(key) && t.listed[key] == id
}

/// A step ends a file under way: it has arrived, or its batch is closed.
pub open spec fn ends(t: TransfersView, s: Step, ticket: Ticket) -> bool {
    s == Step::Finish(ticket) || closes(t, s, ticket.batch)
}

/// No step ends a file under way.
pub open spec fn none_ends(t: TransfersView, steps: Seq<Step>, ticket: Ticket) -> bool
    decreases steps.len(),
{
    steps.len() > 0 ==> {
        &&& none_ends(t, steps.drop_last(), ticket)
        &&& !ends(stepped_all(t, steps.drop_last()), steps.last(), ticket)
    }
}

/// A step is about a batch: it closes it, starts on a file of it, or reports on
/// one.
pub open spec fn is_about(t: TransfersView, s: Step, id: u64) -> bool {
    match s {
        Step::Open(_, _) => false,
        Step::Close(key) => t.listed[key] == id,
        Step::Begin(key, _) => t.listed[key] == id,
        Step::Advance(ticket, _) => ticket.batch == id,
        Step::Finish(ticket) => ticket.batch == id,
        Step::Count(i) => i == id,
    }
}

/// No step is about a batch.
pub open spec fn none_is_about(t: TransfersView, steps: Seq<Step>, id: u64) -> bool
    decreases steps.len(),
{
    steps.len() > 0 ==> {
        &&& none_is_about(t, steps.drop_last(), id)
        &&& !is_about(stepped_all(t, steps.drop_last()), steps.last(), id)
    }
}

/// No step closes a batch.
pub open spec fn none_closes(t: TransfersView, steps: Seq<Step>, id: u64) -> bool
    decreases steps.len(),
{
    steps.len() > 0 ==> {
        &&& none_closes(t, steps.drop_last(), id)
        &&& !closes(stepped_all(t, steps.drop_last()), steps.last(), id)
    }
}

/// A step counts a file of a batch: one that was under way has arrived, or the
/// batch itself has counted one.
pub open spec fn counts(t: TransfersView, s: Step, id: u64) -> bool {
    match s {
        Step::Finish(ticket) => ticket.batch == id && t.under_way(ticket),
        Step::Count(i) => i == id,
        _ => false,
    }
}

/// How many steps count a file of a batch.
pub open spec fn how_many_count(t: TransfersView, steps: Seq<Step>, id: u64) -> nat
    decreases steps.len(),
{
    if steps.len() == 0 {
        0
    } else {
        let before = how_many_count(t, steps.drop_last(), id);
        if counts(stepped_all(t, steps.drop_last()), steps.last(), id) {
            before + 1
        } else {
            before
        }
    }
}

/// Every step keeps the transfers coherent.
pub proof fn step_keeps_coherence(t: TransfersView, s: Step)
    requires
        t.coherent(),
        can_step(t, s),
    ensures
        stepped(t, s).coherent(),
{
    match s {
        Step::Open(num_files, files_uploaded) => {
            opening_keeps_others(t, fresh_batch(num_files, files_uploaded));
        },
        Step::Close(key) => {
            closing_keeps_others(t, key);
        },
        Step::Begin(key, file) => {
            starting_keeps_coherence(t, key, file);
        },
        Step::Advance(ticket, n) => {
            reports_keep_coherence(t, ticket, n);
        },
        Step::Finish(ticket) => {
            reports_keep_coherence(t, ticket, 0);
        },
        Step::Count(id) => {
            reports_keep_coherence(t, Ticket { batch: id, file: 0 }, 0);
        },
    }
}

/// Transfers are coherent after any steps.
pub proof fn steps_keep_coherence(t: TransfersView, steps: Seq<Step>)
    requires
        t.coherent(),
        can_step_all(t, steps),
    ensures
        stepped_all(t, steps).coherent(),
    decreases steps.len(),
{
    if steps.len() > 0 {
        steps_keep_coherence(t, steps.drop_last());
        step_keeps_coherence(stepped_all(t, steps.drop_last()), steps.last());
    }
}

/// A batch that is not closed stays where it is, and nothing but a step about it
/// changes it.
proof fn step_leaves_others(t: TransfersView, s: Step, key: usize)
    requires
        t.coherent(),
        can_step(t, s),
        t.listed.contains_key(key),
        !closes(t, s, t.listed[key]),
    ensures
        stepped(t, s).listed.contains_key(key),
        stepped(t, s).listed[key] == t.listed[key],
        stepped(t, s).batches.contains_key(t.listed[key]),
        !is_about(t, s, t.listed[key]) ==> stepped(t, s).batches[t.listed[key]]
            == t.batches[t.listed[key]],
        stepped(t, s).batches[t.listed[key]].num_files == t.batches[t.listed[key]].num_files,
{
    vacant_is_not_used(t.listed.dom(), t.freed, t.vacant);
    assert(t.batches.contains_key(t.listed[key]));
    match s {
        Step::Close(k) => {
            assert(k != key);
            assert(t.listed[k] != t.listed[key]);
        },
        _ => {},
    }
}

/// Two batches in use at the same time have two keys: a key in use is not given
/// away, whatever has happened since the batch was opened.
pub proof fn keys_in_use_are_not_given_away(t: TransfersView, steps: Seq<Step>, key: usize)
    requires
        t.coherent(),
        can_step_all(t, steps),
        t.listed.contains_key(key),
        none_closes(t, steps, t.listed[key]),
    ensures
        stepped_all(t, steps).listed.contains_key(key),
        stepped_all(t, steps).listed[key] == t.listed[key],
        stepped_all(t, steps).vacant != key,
    decreases steps.len(),
{
    steps_keep_coherence(t, steps);
    if steps.len() > 0 {
        let before = stepped_all(t, steps.drop_last());
        steps_keep_coherence(t, steps.drop_last());
        keys_in_use_are_not_given_away(t, steps.drop_last(), key);
        step_leaves_others(before, steps.last(), key);
    }
    let after = stepped_all(t, steps);
    vacant_is_not_used(after.listed.dom(), after.freed, after.vacant);
}

/// Whatever the other browsers do, a batch that no step is about stays under its
/// key and as it was: how many files it has, how many have arrived, and how far
/// each has come.
pub proof fn others_leave_a_batch_alone(t: TransfersView, steps: Seq<Step>, key: usize)
    requires
        t.coherent(),
        can_step_all(t, steps),
        t.listed.contains_key(key),
        none_is_about(t, steps, t.listed[key]),
    ensures
        stepped_all(t, steps).listed.contains_key(key),
        stepped_all(t, steps).listed[key] == t.listed[key],
        stepped_all(t, steps).batches.contains_key(t.listed[key]),
        stepped_all(t, steps).batches[t.listed[key]] == t.batches[t.listed[key]],
    decreases steps.len(),
{
    assert(t.batches.contains_key(t.listed[key]));
    if steps.len() > 0 {
        let before = stepped_all(t, steps.drop_last());
        steps_keep_coherence(t, steps.drop_last());
        others_leave_a_batch_alone(t, steps.drop_last(), key);
        step_leaves_others(before, steps.last(), key);
    }
}

/// A file under way stays so, under its name and size, and is not mixed up with
/// another, while other files begin, advance and arrive, and other batches come
/// and go.
pub proof fn file_stays_under_way(t: TransfersView, steps: Seq<Step>, ticket: Ticket)
    requires
        t.coherent(),
        can_step_all(t, steps),
        t.under_way(ticket),
        none_ends(t, steps, ticket),
    ensures
        ({
            let after = stepped_all(t, steps);
            let file = t.batches[ticket.batch].files[ticket.file];
            &&& after.under_way(ticket)
            &&& after.batches[ticket.batch].files[ticket.file].name == file.name
            &&& after.batches[ticket.batch].files[ticket.file].num_bytes == file.num_bytes
        }),
    decreases steps.len(),
{
    if steps.len() > 0 {
        let before = stepped_all(t, steps.drop_last());
        let s = steps.last();
        steps_keep_coherence(t, steps.drop_last());
        file_stays_under_way(t, steps.drop_last(), ticket);
        let id = ticket.batch;
        let key = choose|k: usize| before.listed.contains_key(k) && #[trigger] before.listed[k] == id;
        step_leaves_others(before, s, key);
        let batch = before.batches[id];
        assert(batch.coherent());
        vacant_is_not_used(batch.files.dom(), batch.freed, batch.vacant);
        match s {
            Step::Advance(other, n) => {
                if other.batch == id && other.file == ticket.file {
                    assert(other == ticket);
                }
            },
            Step::Finish(other) => {
                if other.batch == id && other.file == ticket.file {
                    assert(other == ticket);
                }
            },
            _ => {},
        }
    }
}

/// However the steps of several browsers come one after the other, the count of
/// a batch grows by the number of its files that have arrived.
pub proof fn count_grows_by_arrivals(t: TransfersView, steps: Seq<Step>, key: usize)
    requires
        t.coherent(),
        can_step_all(t, steps),
        t.listed.contains_key(key),
        none_closes(t, steps, t.listed[key]),
        t.batches[t.listed[key]].files_uploaded + how_many_count(t, steps, t.listed[key])
            <= i64::MAX,
    ensures
        ({
            let id = t.listed[key];
            let after = stepped_all(t, steps);
            &&& after.listed.contains_key(key) && after.listed[key] == id
            &&& after.batches[id].num_files == t.batches[id].num_files
            &&& after.batches[id].files_uploaded == t.batches[id].files_uploaded + how_many_count(
                t,
                steps,
                id,
            )
        }),
    decreases steps.len(),
{
    if steps.len() > 0 {
        let before = stepped_all(t, steps.drop_last());
        steps_keep_coherence(t, steps.drop_last());
        count_grows_by_arrivals(t, steps.drop_last(), key);
        step_leaves_others(before, steps.last(), key);
    }
}

/// An upload that is started on, while others go on, and then finished counts
/// once: its file is under way until it arrives, and no longer.
pub proof fn upload_counts_once(
    t: TransfersView,
    key: usize,
    file: FileView,
    steps: Seq<Step>,
)
    requires
        t.coherent(),
        can_step(t, Step::Begin(key, file)),
        can_step_all(t.begun(key, file), steps),
        none_ends(
            t.begun(key, file),
            steps,
            Ticket { batch: t.listed[key], file: t.batches[t.listed[key]].vacant },
        ),
    ensures
        ({
            let ticket = Ticket { batch: t.listed[key], file: t.batches[t.listed[key]].vacant };
            let before = stepped_all(t.begun(key, file), steps);
            &&& counts(before, Step::Finish(ticket), ticket.batch)
            &&& before.batches[ticket.batch].files[ticket.file].name == file.name
            &&& !before.finished(ticket).under_way(ticket)
            &&& !counts(before.finished(ticket), Step::Finish(ticket), ticket.batch)
        }),
{
    let ticket = Ticket { batch: t.listed[key], file: t.batches[t.listed[key]].vacant };
    step_keeps_coherence(t, Step::Begin(key, file));
    assert(t.begun(key, file).under_way(ticket));
    file_stays_under_way(t.begun(key, file), steps, ticket);
}

} // verus!
