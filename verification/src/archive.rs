//! The files on offer as one archive, handed out piece by piece while it is
//! being made.

use vstd::prelude::*;
use vstd::string::*;

use crate::keys::vacant_is_not_used;
use crate::message::{Message, MessageView};
use crate::numbers::{decimal, decimal_text};
use crate::outbox::{pieces_make_up_the_whole, put_in, taken_out, waiting, Use};
use crate::reader::least;
use crate::transfers::{
    fresh_batch, fresh_file, BatchView, FileCount, FileCountView, Ticket, Transfers, TransfersView,
};
use crate::uploader::text_of;

verus! {

/// How far an archive has come.
#[derive(Debug, Clone, Copy, PartialEq, Eq, Structural)]
pub enum ZipState {
    /// Files are being put into it.
    Reading,
    /// It is complete, and its entry among the transfers is to be closed.
    WaitingOnLock,
    /// It is complete, and its entry has been closed.
    Done,
}

/// What the maker of an archive does next.
#[derive(Debug, PartialEq, Eq)]
pub enum ZipAction {
    /// See whether the file that is being put in is in.
    PollAppend,
    /// See whether the transfers are free to be changed.
    PollLock,
    /// Hand out what has been made so far, and start on this file.
    StartFile(String),
    /// Complete the archive, and hand out the rest of it.
    Finish,
    /// Hand out what has been made so far.
    HandOut,
    /// Wait.
    Wait,
    /// Hand out the error.
    Fail,
    /// There is nothing more to hand out.
    End,
}

/// An action with its text as a character sequence.
pub enum ZipActionView {
    PollAppend,
    PollLock,
    StartFile(Seq<char>),
    Finish,
    HandOut,
    Wait,
    Fail,
    End,
}

impl View for ZipAction {
    type V = ZipActionView;

    open spec fn view(&self) -> ZipActionView {
        match self {
            ZipAction::PollAppend => ZipActionView::PollAppend,
            ZipAction::PollLock => ZipActionView::PollLock,
            ZipAction::StartFile(p) => ZipActionView::StartFile(p@),
            ZipAction::Finish => ZipActionView::Finish,
            ZipAction::HandOut => ZipActionView::HandOut,
            ZipAction::Wait => ZipActionView::Wait,
            ZipAction::Fail => ZipActionView::Fail,
            ZipAction::End => ZipActionView::End,
        }
    }
}

/// The making of an archive.
pub struct ZipStreamer {
    paths: Vec<String>,
    taken: usize,
    zip_state: ZipState,
    rest_due: bool,
    key: usize,
    ticket: Ticket,
}

/// The making of an archive: the files, how many have been started on, how far
/// it has come, whether the last piece is due in answer to the current call, and
/// where it stands among the transfers.
pub struct ZipView {
    pub paths: Seq<Seq<char>>,
    pub taken: nat,
    pub state: ZipState,
    pub rest_due: bool,
    pub key: usize,
    pub ticket: Ticket,
}

impl View for ZipStreamer {
    type V = ZipView;

    closed spec fn view(&self) -> ZipView {
        ZipView {
            paths: self.paths.deep_view(),
            taken: self.taken as nat,
            state: self.zip_state,
            rest_due: self.rest_due,
            key: self.key,
            ticket: self.ticket,
        }
    }
}

/// The sum of sizes.
pub open spec fn total_of(sizes: Seq<u64>) -> nat
    decreases sizes.len(),
{
    if sizes.len() == 0 {
        0
    } else {
        total_of(sizes.drop_last()) + sizes.last() as nat
    }
}

/// The name under which a download of `n` files is shown.
pub open spec fn download_name(n: nat) -> Seq<char> {
    "Download: "@ + decimal(n) + " files"@
}

/// The transfers after a download has been entered.
pub open spec fn entered(t: TransfersView, num_files: nat, total: nat) -> TransfersView {
    t.opened(fresh_batch(FileCountView::Whole(num_files), -1)).begun(
        t.vacant,
        fresh_file(download_name(num_files), total),
    )
}

impl ZipView {
    /// No more files have been started on than there are.
    pub open spec fn well_formed(self) -> bool {
        self.taken <= self.paths.len()
    }

    /// What comes after a file is in.
    pub open spec fn action_after_file(self) -> ZipActionView {
        if self.taken < self.paths.len() {
            ZipActionView::StartFile(self.paths[self.taken as int])
        } else {
            ZipActionView::Finish
        }
    }

    /// After a file is in.
    pub open spec fn after_file(self) -> ZipView {
        if self.taken < self.paths.len() {
            ZipView { taken: self.taken + 1, ..self }
        } else {
            self
        }
    }

    /// The transfers after a file is in.
    pub open spec fn counted_in(self, t: TransfersView) -> TransfersView {
        t.counted(self.ticket.batch)
    }

    /// The transfers after the entry of the archive has been closed.
    pub open spec fn closed_in(self, t: TransfersView) -> TransfersView {
        t.closed(self.key)
    }

    /// What to do when the file that is being put in is not in yet.
    pub open spec fn action_when_pending(self, buffered: bool) -> ZipActionView {
        if buffered {
            ZipActionView::HandOut
        } else {
            ZipActionView::Wait
        }
    }

    /// What to do when the next piece is asked for.
    pub open spec fn action_when_polled(self) -> ZipActionView {
        match self.state {
            ZipState::Reading => ZipActionView::PollAppend,
            ZipState::WaitingOnLock => ZipActionView::PollLock,
            ZipState::Done => ZipActionView::End,
        }
    }

    /// After the archive is complete.
    pub open spec fn completed(self) -> ZipView {
        ZipView { state: ZipState::WaitingOnLock, rest_due: true, ..self }
    }

    /// What to do after the transfers were free to be changed.
    pub open spec fn action_when_free(self) -> ZipActionView {
        if self.rest_due {
            ZipActionView::HandOut
        } else {
            ZipActionView::End
        }
    }

    /// After the transfers were free to be changed.
    pub open spec fn found_free(self) -> ZipView {
        ZipView { state: ZipState::Done, rest_due: false, ..self }
    }

    /// What to do after the transfers were not free to be changed.
    pub open spec fn action_when_busy(self) -> ZipActionView {
        if self.rest_due {
            ZipActionView::HandOut
        } else {
            ZipActionView::Wait
        }
    }

    /// After the transfers were not free to be changed.
    pub open spec fn found_busy(self) -> ZipView {
        ZipView { rest_due: false, ..self }
    }
}

/// The last component of a path as a system with the paths of Windows, or one
/// with the paths of Unix, tells it.
pub uninterp spec fn last_component(path: Seq<char>, windows: bool) -> Option<Seq<char>>;

/// A name that is one component of a path on every system: it has no separators,
/// and does not stand for a folder as seen from another.
pub open spec fn is_component(name: Seq<char>) -> bool {
    &&& name.len() > 0
    &&& !name.contains('/')
    &&& !name.contains('\\')
    &&& name != "."@
    &&& name != ".."@
}

/// A path whose components are separated by slashes on every system: it has no
/// backslash before its last component, and does not begin with two slashes.
pub open spec fn has_slashes_only(path: Seq<char>, folder: Seq<char>) -> bool {
    &&& !folder.contains('\\')
    &&& !"//"@.is_prefix_of(path)
}

/// What a path names on every system: a name behind a slash is what the path
/// names, and `..` behind a slash is no name.
pub open spec fn names_its_file(path: Seq<char>, name: Option<Seq<char>>) -> bool {
    &&& forall|folder: Seq<char>, last: Seq<char>|
        path == #[trigger] (folder + seq!['/'] + last) && has_slashes_only(path, folder)
            && is_component(last) ==> name == Some(last)
    &&& forall|folder: Seq<char>|
        path == #[trigger] (folder + seq!['/'] + ".."@) && has_slashes_only(path, folder) ==> name
            is None
}

/// Calls `std::path::Path::file_name`, which gives the last component of a path
/// if it is a name. It depends on the path and on the system. Where slashes
/// separate the components on every system, a name is taken for what it is, and
/// `..` for none; nothing is said of other paths.
#[verifier::external_body]
fn path_file_name(path: &str) -> (res: Option<String>)
    ensures
        exists|windows: bool| text_of(res) == #[trigger] last_component(path@, windows),
        names_its_file(path@, text_of(res)),
{
    std::path::Path::new(path).file_name().and_then(|name| name.to_str()).map(String::from)
}

/// The name that the file at a path has in an archive, if it has one. What
/// separates the components of a path, beside slashes, depends on the system.
pub fn entry_name(path: &str) -> (res: Option<String>)
    ensures
        exists|windows: bool| text_of(res) == #[trigger] last_component(path@, windows),
        names_its_file(path@, text_of(res)),
{
    path_file_name(path)
}

/// More sizes never make a smaller sum.
proof fn total_grows(sizes: Seq<u64>, k: int)
    requires
        0 <= k <= sizes.len(),
    ensures
        total_of(sizes.take(k)) <= total_of(sizes),
    decreases sizes.len() - k,
{
    if k == sizes.len() {
        assert(sizes.take(k) =~= sizes);
    } else {
        assert(sizes.take(k + 1).drop_last() =~= sizes.take(k));
        total_grows(sizes, k + 1);
    }
}

/// The sum of sizes.
fn add_up(sizes: &Vec<u64>) -> (res: u64)
    requires
        total_of(sizes@) <= u64::MAX,
    ensures
        res == total_of(sizes@),
{
    let mut sum: u64 = 0;
    for i in 0..sizes.len()
        invariant
            total_of(sizes@) <= u64::MAX,
            sum == total_of(sizes@.take(i as int)),
    {
        proof {
            assert(sizes@.take(i + 1).drop_last() =~= sizes@.take(i as int));
            total_grows(sizes@, i + 1);
        }
        sum = sum + sizes[i];
    }
    assert(sizes@.take(sizes@.len() as int) =~= sizes@);
    sum
}

impl ZipStreamer {
    /// Starts to make an archive of files with the given sizes, and enters it
    /// among the transfers.
    pub fn new(files: Vec<String>, sizes: &Vec<u64>, transfers: &mut Transfers) -> (res: Self)
        requires
            old(transfers).well_formed(),
            old(transfers)@.issued < u64::MAX - 1,
            total_of(sizes@) <= u64::MAX,
        ensures
            final(transfers).well_formed(),
            final(transfers)@ == entered(old(transfers)@, files@.len(), total_of(sizes@)),
            res@ == (ZipView {
                paths: files.deep_view(),
                taken: 0,
                state: ZipState::Reading,
                rest_due: false,
                key: old(transfers)@.vacant,
                ticket: Ticket { batch: old(transfers)@.issued as u64, file: 0 },
            }),
    {
        let total: u64 = add_up(sizes);
        let num_files: u64 = files.len() as u64;
        let name = "Download: ".to_owned().concat(decimal_text(num_files).as_str()).concat(
            " files",
        );
        let key = transfers.open_batch(FileCount::Whole(num_files), -1);
        let ticket = match transfers.begin_file(key, name, total) {
            Some(ticket) => ticket,
            None => Ticket { batch: 0, file: 0 },
        };
        ZipStreamer {
            paths: files,
            taken: 0,
            zip_state: ZipState::Reading,
            rest_due: false,
            key,
            ticket,
        }
    }

    /// The key of the archive among the transfers.
    pub fn key(&self) -> (res: usize)
        ensures
            res == self@.key,
    {
        self.key
    }

    /// The right to report on the bytes of the archive.
    pub fn ticket(&self) -> (res: Ticket)
        ensures
            res == self@.ticket,
    {
        Ticket { batch: self.ticket.batch, file: self.ticket.file }
    }

    /// What to do when the next piece is asked for.
    pub fn poll_data(&self) -> (res: ZipAction)
        ensures
            res@ == self@.action_when_polled(),
    {
        match self.zip_state {
            ZipState::Reading => ZipAction::PollAppend,
            ZipState::WaitingOnLock => ZipAction::PollLock,
            ZipState::Done => ZipAction::End,
        }
    }

    /// What to do when the file that is being put in is in, or when none has
    /// been started on yet.
    pub fn appended(&mut self, transfers: &mut Transfers) -> (res: ZipAction)
        requires
            old(self)@.well_formed(),
            old(transfers).well_formed(),
        ensures
            final(self)@.well_formed(),
            final(transfers).well_formed(),
            final(self)@ == old(self)@.after_file(),
            final(transfers)@ == old(transfers)@.counted(old(self)@.ticket.batch),
            final(transfers)@ == old(self)@.counted_in(old(transfers)@),
            res@ == old(self)@.action_after_file(),
    {
        transfers.count_file(self.ticket.batch);
        if self.taken < self.paths.len() {
            let path = self.paths[self.taken].clone();
            self.taken = self.taken + 1;
            ZipAction::StartFile(path)
        } else {
            ZipAction::Finish
        }
    }

    /// What to do when the file that is being put in is not in yet.
    pub fn append_pending(&self, buffered: bool) -> (res: ZipAction)
        ensures
            res@ == self@.action_when_pending(buffered),
            res@ == (if buffered {
                ZipActionView::HandOut
            } else {
                ZipActionView::Wait
            }),
    {
        if buffered {
            ZipAction::HandOut
        } else {
            ZipAction::Wait
        }
    }

    /// What to do when the file that is being put in could not be put in, or
    /// when the archive could not be completed.
    pub fn failed(&self) -> (res: ZipAction)
        ensures
            res@ == ZipActionView::Fail,
    {
        ZipAction::Fail
    }

    /// What to do when the archive is complete.
    pub fn shut_down(&mut self) -> (res: ZipAction)
        ensures
            final(self)@ == old(self)@.completed(),
            res@ == ZipActionView::PollLock,
    {
        self.zip_state = ZipState::WaitingOnLock;
        self.rest_due = true;
        ZipAction::PollLock
    }

    /// What to do when the transfers are free to be changed, after the entry of
    /// the archive among them has been closed, and what the window is told.
    pub fn lock_acquired(&mut self, transfers: &mut Transfers) -> (res: (ZipAction, Message))
        requires
            old(transfers).well_formed(),
            old(transfers)@.listed.contains_key(old(self)@.key),
        ensures
            final(transfers).well_formed(),
            final(transfers)@ == old(transfers)@.closed(old(self)@.key),
            final(transfers)@ == old(self)@.closed_in(old(transfers)@),
            final(self)@ == old(self)@.found_free(),
            res.0@ == old(self)@.action_when_free(),
            res.1@ == MessageView::Refresh,
    {
        transfers.close_batch(self.key);
        self.zip_state = ZipState::Done;
        let rest_due = self.rest_due;
        self.rest_due = false;
        if rest_due {
            (ZipAction::HandOut, Message::Refresh)
        } else {
            (ZipAction::End, Message::Refresh)
        }
    }

    /// What to do when the transfers are not free to be changed.
    pub fn lock_busy(&mut self) -> (res: ZipAction)
        ensures
            final(self)@ == old(self)@.found_busy(),
            res@ == old(self)@.action_when_busy(),
    {
        let rest_due = self.rest_due;
        self.rest_due = false;
        if rest_due {
            ZipAction::HandOut
        } else {
            ZipAction::Wait
        }
    }
}

/// How far the file has come that is being put in.
pub enum Append {
    /// It is not in yet.
    Pending,
    /// It is in, or none has been started on.
    In,
    /// It could not be put in.
    Failed,
}

/// What is met when the next piece is asked for: how far the file has come,
/// whether bytes wait to be handed out, whether the archive can be completed,
/// and whether the transfers are free to be changed.
pub struct Call {
    pub append: Append,
    pub buffered: bool,
    pub completes: bool,
    pub free: bool,
}

/// The answer to a call for the next piece.
pub enum Answer {
    /// A piece.
    Piece,
    /// Not yet.
    Later,
    /// An error.
    Error,
    /// There are no more pieces.
    Over,
}

/// An archive, the transfers, and the answer after a call for the next piece.
pub open spec fn called(z: ZipView, t: TransfersView, c: Call) -> (ZipView, TransfersView, Answer) {
    match z.action_when_polled() {
        ZipActionView::PollAppend => match c.append {
            Append::Failed => (z, t, Answer::Error),
            Append::Pending => (
                z,
                t,
                if z.action_when_pending(c.buffered) is HandOut {
                    Answer::Piece
                } else {
                    Answer::Later
                },
            ),
            Append::In => {
                let counted = z.counted_in(t);
                if z.action_after_file() is StartFile {
                    (z.after_file(), counted, Answer::Piece)
                } else if !c.completes {
                    (z.after_file(), counted, Answer::Error)
                } else {
                    lock_tried(z.after_file().completed(), counted, c.free)
                }
            },
        },
        ZipActionView::PollLock => lock_tried(z, t, c.free),
        _ => (z, t, Answer::Over),
    }
}

/// An archive, the transfers, and the answer after it was tried to change them.
pub open spec fn lock_tried(z: ZipView, t: TransfersView, free: bool) -> (
    ZipView,
    TransfersView,
    Answer,
) {
    let (after, transfers, action) = if free {
        (z.found_free(), z.closed_in(t), z.action_when_free())
    } else {
        (z.found_busy(), t, z.action_when_busy())
    };
    (
        after,
        transfers,
        match action {
            ZipActionView::HandOut => Answer::Piece,
            ZipActionView::Wait => Answer::Later,
            _ => Answer::Over,
        },
    )
}

/// An archive and the transfers after calls, one after the other.
pub open spec fn called_all(z: ZipView, t: TransfersView, calls: Seq<Call>) -> (
    ZipView,
    TransfersView,
)
    decreases calls.len(),
{
    if calls.len() == 0 {
        (z, t)
    } else {
        let (z1, t1) = called_all(z, t, calls.drop_last());
        let (z2, t2, _) = called(z1, t1, calls.last());
        (z2, t2)
    }
}

/// The answers to calls, one after the other.
pub open spec fn answers(z: ZipView, t: TransfersView, calls: Seq<Call>) -> Seq<Answer>
    decreases calls.len(),
{
    if calls.len() == 0 {
        Seq::empty()
    } else {
        let (z1, t1) = called_all(z, t, calls.drop_last());
        answers(z, t, calls.drop_last()).push(called(z1, t1, calls.last()).2)
    }
}

/// No call is answered with an error.
pub open spec fn no_errors(z: ZipView, t: TransfersView, calls: Seq<Call>) -> bool
    decreases calls.len(),
{
    calls.len() > 0 ==> {
        let (z1, t1) = called_all(z, t, calls.drop_last());
        &&& no_errors(z, t, calls.drop_last())
        &&& !(called(z1, t1, calls.last()).2 is Error)
    }
}

/// A call finds the file that is being put in to be in.
pub open spec fn finds_in(z: ZipView, c: Call) -> bool {
    z.state is Reading && c.append is In
}

/// How many calls find a file to be in.
pub open spec fn how_many_find_in(z: ZipView, t: TransfersView, calls: Seq<Call>) -> nat
    decreases calls.len(),
{
    if calls.len() == 0 {
        0
    } else {
        let before = how_many_find_in(z, t, calls.drop_last());
        if finds_in(called_all(z, t, calls.drop_last()).0, calls.last()) {
            before + 1
        } else {
            before
        }
    }
}

/// The files that calls start on, in order.
pub open spec fn started(z: ZipView, t: TransfersView, calls: Seq<Call>) -> Seq<Seq<char>>
    decreases calls.len(),
{
    if calls.len() == 0 {
        Seq::empty()
    } else {
        let before = started(z, t, calls.drop_last());
        let z1 = called_all(z, t, calls.drop_last()).0;
        if finds_in(z1, calls.last()) {
            match z1.action_after_file() {
                ZipActionView::StartFile(path) => before.push(path),
                _ => before,
            }
        } else {
            before
        }
    }
}

/// An archive that has just been entered among the transfers.
pub open spec fn just_entered(z: ZipView, t: TransfersView) -> bool {
    &&& z.taken == 0
    &&& z.state is Reading
    &&& !z.rest_due
    &&& t.listed.contains_key(z.key)
    &&& t.listed[z.key] == z.ticket.batch
    &&& t.batches.contains_key(z.ticket.batch)
    &&& t.batches[z.ticket.batch].files_uploaded == -1
}

/// The transfers with so many files of an archive counted.
pub open spec fn with_count(z: ZipView, t: TransfersView, count: int) -> TransfersView {
    t.with_batch(
        z.ticket.batch,
        BatchView { files_uploaded: count, ..t.batches[z.ticket.batch] },
    )
}

/// Whatever is met on the way, as long as nothing fails: an archive starts on its
/// files one after the other, each once and in order. Its count is -1 at first,
/// and goes up by one in exactly those calls that find a file to be in. The one
/// that finds the last file to be in completes the archive, with the count at the
/// number of files; after it nothing is started on or counted. The entry among
/// the transfers is there until it is closed, once.
pub proof fn archive_runs(z: ZipView, t: TransfersView, calls: Seq<Call>)
    requires
        just_entered(z, t),
        z.paths.len() < i64::MAX,
        no_errors(z, t, calls),
    ensures
        ({
            let (after, transfers) = called_all(z, t, calls);
            let n = how_many_find_in(z, t, calls);
            &&& n <= z.paths.len() + 1
            &&& after == (ZipView { taken: least(n, z.paths.len()), state: after.state, ..z })
            &&& after.state is Reading <==> n <= z.paths.len()
            &&& started(z, t, calls) == z.paths.take(least(n, z.paths.len()) as int)
            &&& transfers == (if after.state is Done {
                with_count(z, t, n - 1).closed(z.key)
            } else {
                with_count(z, t, n - 1)
            })
        }),
    decreases calls.len(),
{
    if calls.len() == 0 {
        assert(z.paths.take(0) =~= Seq::empty());
        assert(with_count(z, t, -1).batches =~= t.batches);
    } else {
        archive_runs(z, t, calls.drop_last());
        let (z1, t1) = called_all(z, t, calls.drop_last());
        let m = how_many_find_in(z, t, calls.drop_last());
        let c = calls.last();
        if finds_in(z1, c) {
            assert(t1.counted(z.ticket.batch) == with_count(z, t, m as int)) by {
                assert(t1.counted(z.ticket.batch).batches =~= with_count(z, t, m as int).batches);
            }
            if m < z.paths.len() {
                assert(z.paths.take((m + 1) as int) =~= z.paths.take(m as int).push(z.paths[m as int]));
            }
        }
    }
}

/// Once an archive is complete, its whole list of files has been started on, and
/// its count is the number of its files.
pub proof fn complete_archive_has_every_file(z: ZipView, t: TransfersView, calls: Seq<Call>)
    requires
        just_entered(z, t),
        z.paths.len() < i64::MAX,
        no_errors(z, t, calls),
        !(called_all(z, t, calls).0.state is Reading),
    ensures
        started(z, t, calls) == z.paths,
        called_all(z, t, calls).0.state is WaitingOnLock ==> called_all(
            z,
            t,
            calls,
        ).1.batches[z.ticket.batch].files_uploaded == z.paths.len(),
{
    archive_runs(z, t, calls);
    assert(z.paths.take(z.paths.len() as int) =~= z.paths);
}

/// The uses of the outbox that calls make, when `made` lists the bytes that are
/// made during each: while files are put in, those bytes are put into the outbox,
/// and a call that is answered with a piece takes everything out for it.
pub open spec fn outbox_uses(
    z: ZipView,
    t: TransfersView,
    calls: Seq<Call>,
    made: Seq<Seq<u8>>,
) -> Seq<Use>
    decreases calls.len(),
{
    if calls.len() == 0 {
        Seq::empty()
    } else {
        let before = outbox_uses(z, t, calls.drop_last(), made.drop_last());
        let (z1, t1) = called_all(z, t, calls.drop_last());
        let filled = if z1.state is Reading {
            before.push(Use::Put(made.last()))
        } else {
            before
        };
        if called(z1, t1, calls.last()).2 is Piece {
            filled.push(Use::Take)
        } else {
            filled
        }
    }
}

/// An archive is handed out whole. As long as nothing fails, the pieces that
/// have been handed out and what waits make up the bytes that have been made: none
/// is lost, repeated or reordered. Once the archive is complete, every file has
/// been started on, once and in order, nothing waits, and the pieces make up
/// everything that has been made.
pub proof fn archive_is_handed_out_whole(
    z: ZipView,
    t: TransfersView,
    calls: Seq<Call>,
    made: Seq<Seq<u8>>,
)
    requires
        just_entered(z, t),
        z.paths.len() < i64::MAX,
        no_errors(z, t, calls),
    ensures
        ({
            let uses = outbox_uses(z, t, calls, made);
            &&& taken_out(uses) + waiting(uses) == put_in(uses)
            &&& !(called_all(z, t, calls).0.state is Reading) ==> {
                &&& started(z, t, calls) == z.paths
                &&& waiting(uses).len() == 0
                &&& taken_out(uses) == put_in(uses)
            }
        }),
{
    let uses = outbox_uses(z, t, calls, made);
    pieces_make_up_the_whole(uses);
    if !(called_all(z, t, calls).0.state is Reading) {
        complete_archive_has_every_file(z, t, calls);
        nothing_waits_in_the_end(z, t, calls, made);
        assert(taken_out(uses) + waiting(uses) =~= taken_out(uses));
    }
}

proof fn nothing_waits_in_the_end(
    z: ZipView,
    t: TransfersView,
    calls: Seq<Call>,
    made: Seq<Seq<u8>>,
)
    requires
        just_entered(z, t),
        z.paths.len() < i64::MAX,
        no_errors(z, t, calls),
        !(called_all(z, t, calls).0.state is Reading),
    ensures
        waiting(outbox_uses(z, t, calls, made)).len() == 0,
    decreases calls.len(),
{
    let uses = outbox_uses(z, t, calls, made);
    let fewer = calls.drop_last();
    let (z1, t1) = called_all(z, t, fewer);
    archive_runs(z, t, fewer);
    if z1.state is Reading {
        assert(called(z1, t1, calls.last()).2 is Piece);
        assert(uses.last() is Take);
    } else {
        nothing_waits_in_the_end(z, t, fewer, made.drop_last());
        assert(!(called(z1, t1, calls.last()).2 is Piece));
    }
}

/// When the transfers are not free to be changed as an archive is completed, the
/// last piece is handed out all the same, and its entry stays. While they are not
/// free, every call is put off and changes nothing. The call that finds them free
/// closes the entry and ends; after it every call ends and changes nothing. So
/// the last piece is handed out once.
pub proof fn busy_lock_only_delays(
    z: ZipView,
    t: TransfersView,
    completing: Call,
    busy: Seq<Call>,
    free: Call,
    late: Seq<Call>,
)
    requires
        z.state is Reading,
        z.taken == z.paths.len(),
        completing.append is In,
        completing.completes,
        !completing.free,
        forall|i: int| 0 <= i < busy.len() ==> !(#[trigger] busy[i]).free,
        free.free,
    ensures
        ({
            let (z1, t1, answer) = called(z, t, completing);
            let (z2, t2) = called_all(z1, t1, busy);
            let (z3, t3, last) = called(z2, t2, free);
            &&& answer is Piece
            &&& t1 == t.counted(z.ticket.batch)
            &&& (z2, t2) == (z1, t1)
            &&& answers(z1, t1, busy) == Seq::new(busy.len(), |i: int| Answer::Later)
            &&& last is Over
            &&& t3 == t2.closed(z.key)
            &&& called_all(z3, t3, late) == (z3, t3)
            &&& answers(z3, t3, late) == Seq::new(late.len(), |i: int| Answer::Over)
        }),
{
    let (z1, t1, _) = called(z, t, completing);
    busy_calls(z1, t1, busy);
    let (z3, t3, _) = called(z1, t1, free);
    late_calls(z3, t3, late);
}

proof fn busy_calls(z: ZipView, t: TransfersView, calls: Seq<Call>)
    requires
        z.state is WaitingOnLock,
        !z.rest_due,
        forall|i: int| 0 <= i < calls.len() ==> !(#[trigger] calls[i]).free,
    ensures
        called_all(z, t, calls) == (z, t),
        answers(z, t, calls) == Seq::new(calls.len(), |i: int| Answer::Later),
    decreases calls.len(),
{
    if calls.len() > 0 {
        assert(forall|i: int|
            0 <= i < calls.drop_last().len() ==> calls.drop_last()[i] == calls[i]);
        busy_calls(z, t, calls.drop_last());
        assert(!calls[calls.len() - 1].free);
        assert(called_all(z, t, calls) == (z, t));
    }
    assert(answers(z, t, calls) =~= Seq::new(calls.len(), |i: int| Answer::Later));
}

proof fn late_calls(z: ZipView, t: TransfersView, calls: Seq<Call>)
    requires
        z.state is Done,
    ensures
        called_all(z, t, calls) == (z, t),
        answers(z, t, calls) == Seq::new(calls.len(), |i: int| Answer::Over),
    decreases calls.len(),
{
    if calls.len() > 0 {
        late_calls(z, t, calls.drop_last());
    }
    assert(answers(z, t, calls) =~= Seq::new(calls.len(), |i: int| Answer::Over));
}

/// A download that was entered, ran, and was closed again leaves the transfers
/// in progress as it found them.
pub proof fn download_leaves_no_trace(
    t: TransfersView,
    z: ZipView,
    total: nat,
    calls: Seq<Call>,
)
    requires
        t.coherent(),
        t.issued < u64::MAX,
        z.key == t.vacant,
        z.ticket.batch == t.issued,
        z.taken == 0,
        z.state is Reading,
        !z.rest_due,
        z.paths.len() < i64::MAX,
        no_errors(z, entered(t, z.paths.len(), total), calls),
        called_all(z, entered(t, z.paths.len(), total), calls).0.state is Done,
    ensures
        ({
            let end = called_all(z, entered(t, z.paths.len(), total), calls).1;
            &&& end.batches == t.batches
            &&& end.listed == t.listed
            &&& end.vacant == t.vacant
        }),
{
    let start = entered(t, z.paths.len(), total);
    vacant_is_not_used(t.listed.dom(), t.freed, t.vacant);
    assert(start.batches[z.ticket.batch].files_uploaded == -1);
    archive_runs(z, start, calls);
    let end = called_all(z, start, calls).1;
    assert(!t.batches.contains_key(z.ticket.batch));
    assert(end.batches =~= t.batches);
    assert(end.listed =~= t.listed);
}

/// The sizes of files add up, in whatever groups they are added.
pub proof fn sizes_add_up(a: Seq<u64>, b: Seq<u64>, size: u64)
    ensures
        total_of(a + b) == total_of(a) + total_of(b),
        total_of(seq![size]) == size,
        total_of(Seq::<u64>::empty()) == 0,
    decreases b.len(),
{
    assert(seq![size].drop_last() =~= Seq::<u64>::empty());
    assert(total_of(seq![size].drop_last()) == 0);
    if b.len() == 0 {
        assert(a + b =~= a);
    } else {
        sizes_add_up(a, b.drop_last(), size);
        assert((a + b).drop_last() =~= a + b.drop_last());
    }
}

/// A download is entered as a batch of as many files as it has, with -1 counted
/// and one file under way, which tells their number and has all their bytes and
/// none counted; nothing else changes.
pub proof fn download_is_entered(t: TransfersView, num_files: nat, total: nat)
    requires
        t.coherent(),
        t.issued < u64::MAX,
    ensures
        ({
            let after = entered(t, num_files, total);
            let id = after.listed[t.vacant];
            let batch = after.batches[id];
            &&& after.listed.contains_key(t.vacant)
            &&& after.batches.contains_key(id)
            &&& batch.num_files == FileCountView::Whole(num_files)
            &&& batch.files_uploaded == -1
            &&& batch.files.dom() == set![0usize]
            &&& batch.files[0].name == "Download: "@ + (decimal(num_files) + " files"@)
            &&& batch.files[0].num_bytes == total
            &&& batch.files[0].bytes_uploaded == 0
            &&& after.batches.remove(id) == t.batches
            &&& after.listed.remove(t.vacant) == t.listed
        }),
{
    vacant_is_not_used(t.listed.dom(), t.freed, t.vacant);
    let after = entered(t, num_files, total);
    let id = t.issued as u64;
    assert(!t.batches.contains_key(id));
    assert(after.batches.remove(id) =~= t.batches);
    assert(after.listed.remove(t.vacant) =~= t.listed);
    assert(after.batches[id].files.dom() =~= set![0usize]);
    assert("Download: "@ + decimal(num_files) + " files"@ =~= "Download: "@ + (decimal(num_files)
        + " files"@));
}

/// While files are put in, a call that finds the file not to be in hands out what
/// has been made, if anything has, and else waits; one that fails hands out the
/// error; neither changes anything. A call that finds it to be in hands out a
/// piece, unless the archive can then not be completed.
pub proof fn calls_are_answered(z: ZipView, t: TransfersView, c: Call)
    requires
        z.state is Reading,
    ensures
        c.append is Failed ==> called(z, t, c).2 is Error,
        c.append is Pending && c.buffered ==> called(z, t, c).2 is Piece,
        c.append is Pending && !c.buffered ==> called(z, t, c).2 is Later,
        !(c.append is In) ==> called(z, t, c).0 == z && called(z, t, c).1 == t,
        c.append is In && z.taken < z.paths.len() ==> {
            &&& called(z, t, c).2 is Piece
            &&& called(z, t, c).0.state is Reading
            &&& called(z, t, c).0.taken == z.taken + 1
            &&& z.action_after_file() == ZipActionView::StartFile(z.paths[z.taken as int])
        },
        c.append is In && z.taken >= z.paths.len() ==> {
            &&& z.action_after_file() is Finish
            &&& !c.completes ==> called(z, t, c).2 is Error && called(z, t, c).0.state is Reading
            &&& c.completes ==> called(z, t, c).2 is Piece && !(called(z, t, c).0.state is Reading)
            &&& c.completes && c.free ==> called(z, t, c).0.state is Done
            &&& c.completes && !c.free ==> called(z, t, c).0.state is WaitingOnLock
        },
{
}

/// When the transfers are free to be changed, or not, the last piece is handed
/// out if it is due, and is due no longer; else the archive ends, or waits.
pub proof fn lock_is_answered(z: ZipView)
    ensures
        z.completed().action_when_free() is HandOut,
        z.completed().action_when_busy() is HandOut,
        !z.rest_due ==> z.action_when_free() is End && z.action_when_busy() is Wait,
        !z.found_free().rest_due && z.found_free().action_when_polled() is End,
        !z.found_busy().rest_due && z.found_busy().state == z.state,
        z.completed().action_when_polled() is PollLock,
        z.completed().found_busy().action_when_polled() is PollLock,
        z.state is Reading ==> z.action_when_polled() is PollAppend,
{
}

} // verus!
