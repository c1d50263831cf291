//! Reports on the bytes that pass by, and how often the window is refreshed
//! for them.

use vstd::prelude::*;

use crate::message::{Message, MessageView};
use crate::transfers::{report_adds_its_bytes, Ticket, Transfers, TransfersView};

verus! {

/// The window is refreshed for bytes when more than half a second has passed
/// since it was last, in nanoseconds.
pub const REFRESH_NANOS: u128 = 500_000_000;

/// What came of an attempt to write.
#[derive(Debug, Clone, Copy, PartialEq, Eq, Structural)]
pub enum WritePoll {
    /// This many bytes were written.
    Written(usize),
    /// It failed.
    Failed,
    /// Nothing could be written yet.
    Pending,
}

/// When the window was last refreshed, in nanoseconds of some clock.
pub struct RefreshTimer {
    last: u128,
}

impl View for RefreshTimer {
    type V = nat;

    closed spec fn view(&self) -> nat {
        self.last as nat
    }
}

/// Whether the window is to be refreshed, when it last was at `last`.
pub open spec fn is_due(last: nat, now: nat) -> bool {
    now > last + 500_000_000
}

/// When the window was last refreshed, after the timer was asked.
pub open spec fn last_after(last: nat, now: nat) -> nat {
    if is_due(last, now) {
        now
    } else {
        last
    }
}

impl RefreshTimer {
    /// A timer that starts now.
    pub fn new(now: u128) -> (res: Self)
        ensures
            res@ == now,
    {
        RefreshTimer { last: now }
    }

    /// Whether the window is to be refreshed now; if so, it is taken to have been.
    pub fn due(&mut self, now: u128) -> (res: bool)
        ensures
            res == is_due(old(self)@, now as nat),
            final(self)@ == last_after(old(self)@, now as nat),
    {
        if now > self.last && now - self.last > REFRESH_NANOS {
            self.last = now;
            true
        } else {
            false
        }
    }
}

/// The transfers after an attempt to read that filled a buffer from `before`
/// bytes to `after`.
pub open spec fn after_reading(
    t: TransfersView,
    ticket: Ticket,
    before: nat,
    after: nat,
) -> TransfersView {
    t.advanced(ticket, (after - before) as nat)
}

/// The transfers after an attempt to write.
pub open spec fn after_writing(t: TransfersView, ticket: Ticket, poll: WritePoll) -> TransfersView {
    match poll {
        WritePoll::Written(n) => t.advanced(ticket, n as nat),
        _ => t,
    }
}

/// Reports an attempt to read that filled a buffer from `before` bytes to
/// `after`, and gives what the window is told.
pub fn report_read(
    transfers: &mut Transfers,
    ticket: &Ticket,
    timer: &mut RefreshTimer,
    before: usize,
    after: usize,
    now: u128,
) -> (res: Option<Message>)
    requires
        old(transfers).well_formed(),
        before <= after,
    ensures
        final(transfers).well_formed(),
        final(transfers)@ == old(transfers)@.advanced(*ticket, (after - before) as nat),
        final(transfers)@ == after_reading(old(transfers)@, *ticket, before as nat, after as nat),
        final(timer)@ == last_after(old(timer)@, now as nat),
        res is Some == is_due(old(timer)@, now as nat),
        res is Some ==> res->0@ == MessageView::Refresh,
{
    transfers.advance(ticket, (after - before) as u64);
    if timer.due(now) {
        Some(Message::Refresh)
    } else {
        None
    }
}

/// Reports an attempt to write, and gives what the window is told. Only bytes
/// that were written count, and only then is the timer asked.
pub fn report_write(
    transfers: &mut Transfers,
    ticket: &Ticket,
    timer: &mut RefreshTimer,
    poll: WritePoll,
    now: u128,
) -> (res: Option<Message>)
    requires
        old(transfers).well_formed(),
    ensures
        final(transfers).well_formed(),
        final(transfers)@ == after_writing(old(transfers)@, *ticket, poll),
        final(transfers)@ == (match poll {
            WritePoll::Written(n) => old(transfers)@.advanced(*ticket, n as nat),
            _ => old(transfers)@,
        }),
        final(timer)@ == (if poll is Written {
            last_after(old(timer)@, now as nat)
        } else {
            old(timer)@
        }),
        res is Some == (poll is Written && is_due(old(timer)@, now as nat)),
        res is Some ==> res->0@ == MessageView::Refresh,
{
    match poll {
        WritePoll::Written(n) => {
            transfers.advance(ticket, n as u64);
            if timer.due(now) {
                Some(Message::Refresh)
            } else {
                None
            }
        },
        WritePoll::Failed => None,
        WritePoll::Pending => None,
    }
}

/// When the window was last refreshed, after a timer that started at `start` was
/// asked at each of these times.
pub open spec fn last_of(start: nat, asked: Seq<nat>) -> nat
    decreases asked.len(),
{
    if asked.len() == 0 {
        start
    } else {
        last_after(last_of(start, asked.drop_last()), asked.last())
    }
}

/// The times at which the window is refreshed, by a timer that started at
/// `start` and was asked at each of these times.
pub open spec fn refreshes(start: nat, asked: Seq<nat>) -> Seq<nat>
    decreases asked.len(),
{
    if asked.len() == 0 {
        Seq::empty()
    } else {
        let before = refreshes(start, asked.drop_last());
        if is_due(last_of(start, asked.drop_last()), asked.last()) {
            before.push(asked.last())
        } else {
            before
        }
    }
}

/// However often a timer is asked, two refreshes are more than half a second
/// apart, and the first is more than half a second after the start.
pub proof fn refreshes_are_apart(start: nat, asked: Seq<nat>)
    ensures
        forall|i: int, j: int|
            0 <= i < j < refreshes(start, asked).len() ==> #[trigger] refreshes(start, asked)[j]
                > #[trigger] refreshes(start, asked)[i] + 500_000_000,
        forall|i: int|
            0 <= i < refreshes(start, asked).len() ==> #[trigger] refreshes(start, asked)[i]
                > start + 500_000_000,
        last_of(start, asked) == (if refreshes(start, asked).len() > 0 {
            refreshes(start, asked).last()
        } else {
            start
        }),
    decreases asked.len(),
{
    if asked.len() > 0 {
        refreshes_are_apart(start, asked.drop_last());
        let before = refreshes(start, asked.drop_last());
        let after = refreshes(start, asked);
        if is_due(last_of(start, asked.drop_last()), asked.last()) {
            assert forall|i: int, j: int| 0 <= i < j < after.len() implies #[trigger] after[j]
                > #[trigger] after[i] + 500_000_000 by {
                if j < before.len() {
                    assert(before[j] > before[i] + 500_000_000);
                } else if i < before.len() - 1 {
                    assert(before[before.len() - 1] > before[i] + 500_000_000);
                }
            }
            assert forall|i: int| 0 <= i < after.len() implies #[trigger] after[i] > start
                + 500_000_000 by {
                if before.len() > 0 {
                    assert(before[before.len() - 1] > start + 500_000_000);
                }
                if i < before.len() {
                    assert(before[i] > start + 500_000_000);
                }
            }
        }
    }
}

/// A refresh comes as soon as the timer is asked more than half a second after
/// the last one, and starts the half second anew; till then none comes, and
/// asking changes nothing.
pub proof fn refresh_comes_when_due(start: nat, asked: Seq<nat>, wait: nat)
    ensures
        ({
            let last = last_of(start, asked);
            let more = asked.push(last + wait);
            &&& wait > 500_000_000 ==> refreshes(start, more) == refreshes(start, asked).push(
                last + wait,
            ) && last_of(start, more) == last + wait
            &&& wait <= 500_000_000 ==> refreshes(start, more) == refreshes(start, asked)
                && last_of(start, more) == last
        }),
{
    assert(asked.push(last_of(start, asked) + wait).drop_last() =~= asked);
}

/// What is read or written is what is counted: each byte once, and none where an
/// attempt failed or nothing could be done yet.
pub proof fn bytes_are_counted_as_they_pass(
    t: TransfersView,
    ticket: Ticket,
    before: nat,
    read: nat,
    written: usize,
)
    requires
        t.under_way(ticket),
        t.batches[ticket.batch].files[ticket.file].bytes_uploaded + read <= u64::MAX,
        t.batches[ticket.batch].files[ticket.file].bytes_uploaded + written <= u64::MAX,
    ensures
        ({
            let had = t.batches[ticket.batch].files[ticket.file].bytes_uploaded;
            let after = after_reading(t, ticket, before, before + read);
            &&& after.batches[ticket.batch].files[ticket.file].bytes_uploaded == had + read
            &&& after_writing(
                t,
                ticket,
                WritePoll::Written(written),
            ).batches[ticket.batch].files[ticket.file].bytes_uploaded == had + written
            &&& after_writing(t, ticket, WritePoll::Failed) == t
            &&& after_writing(t, ticket, WritePoll::Pending) == t
        }),
{
    report_adds_its_bytes(t, ticket, read);
    report_adds_its_bytes(t, ticket, written as nat);
}

} // verus!
