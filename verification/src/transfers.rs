//! The transfers in progress: batches of files, the files of each batch, and
//! how far each has come.

use vstd::prelude::*;

use crate::keys::{
    freed_after, freeing_keeps_numbers, taking_keeps_numbers, vacant_after, vacant_is_not_used,
    well_numbered,
};
use crate::screen::{
    batch_rows, count_line, entries_list_ascending, file_rows, progress_rows, rows_of_batches, Row,
};
use crate::shelf::Shelf;

verus! {

/// How far a file has come.
pub struct UploadStatus {
    pub name: String,
    pub num_bytes: u64,
    pub bytes_uploaded: u64,
}

/// How many files a batch has: a whole number, or a number that was announced
/// otherwise, as it is written.
#[derive(Debug, PartialEq, Eq)]
pub enum FileCount {
    Whole(u64),
    Other(String),
}

/// A number of files, with its text as a character sequence.
pub enum FileCountView {
    Whole(nat),
    Other(Seq<char>),
}

impl View for FileCount {
    type V = FileCountView;

    open spec fn view(&self) -> FileCountView {
        match self {
            FileCount::Whole(n) => FileCountView::Whole(*n as nat),
            FileCount::Other(text) => FileCountView::Other(text@),
        }
    }
}

impl FileCount {
    /// A copy.
    pub fn copy(&self) -> (res: Self)
        ensures
            res@ == self@,
    {
        match self {
            FileCount::Whole(n) => FileCount::Whole(*n),
            FileCount::Other(text) => FileCount::Other(text.clone()),
        }
    }
}

/// How far a batch of files has come. A download counts from -1, because its
/// count also goes up when it starts on its first file.
pub struct ConcurrentUploadStatus {
    pub num_files: FileCount,
    pub files_uploaded: i64,
}

/// A batch: how far it has come, and its files under way.
pub struct Batch {
    status: ConcurrentUploadStatus,
    files: Shelf<UploadStatus>,
}

/// The right to report on a file of a batch.
#[derive(Debug, PartialEq, Eq)]
pub struct Ticket {
    pub batch: u64,
    pub file: usize,
}

/// The batches in progress, by the key under which a browser refers to each.
pub struct Transfers {
    batches: Shelf<Batch>,
    issued: u64,
}

pub struct FileView {
    pub name: Seq<char>,
    pub num_bytes: nat,
    pub bytes_uploaded: nat,
}

/// A batch with its files under way by their keys, the key that its next file
/// gets, and the keys that are given away again before new ones, the next last.
#[verifier::ext_equal]
pub struct BatchView {
    pub num_files: FileCountView,
    pub files_uploaded: int,
    pub files: Map<usize, FileView>,
    pub vacant: usize,
    pub freed: Seq<usize>,
}

/// The batches by identity, the identity behind each key, the key that the next
/// batch gets, the keys that are given away again before new ones, the next
/// last, and how many identities have been given out.
#[verifier::ext_equal]
pub struct TransfersView {
    pub batches: Map<u64, BatchView>,
    pub listed: Map<usize, u64>,
    pub vacant: usize,
    pub freed: Seq<usize>,
    pub issued: nat,
}

impl View for UploadStatus {
    type V = FileView;

    open spec fn view(&self) -> FileView {
        FileView {
            name: self.name@,
            num_bytes: self.num_bytes as nat,
            bytes_uploaded: self.bytes_uploaded as nat,
        }
    }
}

impl View for Batch {
    type V = BatchView;

    closed spec fn view(&self) -> BatchView {
        BatchView {
            num_files: self.status.num_files@,
            files_uploaded: self.status.files_uploaded as int,
            files: Map::new(
                |k: usize| self.files.ids().contains_key(k),
                |k: usize| self.files.items()[self.files.ids()[k]]@,
            ),
            vacant: self.files.vacant(),
            freed: self.files.freed(),
        }
    }
}

impl View for Transfers {
    type V = TransfersView;

    closed spec fn view(&self) -> TransfersView {
        TransfersView {
            batches: Map::new(
                |id: u64| self.batches.items().contains_key(id),
                |id: u64| self.batches.items()[id]@,
            ),
            listed: self.batches.ids(),
            vacant: self.batches.vacant(),
            freed: self.batches.freed(),
            issued: self.issued as nat,
        }
    }
}

/// A number of bytes after `n` more, at most what can be counted.
pub open spec fn more_bytes(have: nat, n: nat) -> nat {
    if have + n <= u64::MAX {
        have + n
    } else {
        u64::MAX as nat
    }
}

/// A number of files after one more, at most what can be counted.
pub open spec fn one_more_file(have: int) -> int {
    if have < i64::MAX {
        have + 1
    } else {
        have
    }
}

impl BatchView {
    /// The keys of its files are numbered without gaps.
    pub open spec fn coherent(self) -> bool {
        well_numbered(self.files.dom(), self.freed, self.vacant)
    }

    /// With another file under way, under the vacant key.
    pub open spec fn with_file(self, file: FileView) -> BatchView {
        BatchView {
            files: self.files.insert(self.vacant, file),
            vacant: vacant_after(self.files.dom().len(), self.freed),
            freed: freed_after(self.freed),
            ..self
        }
    }
}

impl TransfersView {
    /// A key is in use for a batch that is there, no batch has two keys, every
    /// batch has one, identities are not given out twice, and the keys of the
    /// batches and of the files of each are numbered without gaps.
    pub open spec fn coherent(self) -> bool {
        &&& forall|k: usize| #[trigger]
            self.listed.contains_key(k) ==> self.batches.contains_key(self.listed[k])
        &&& forall|j: usize, k: usize|
            self.listed.contains_key(j) && self.listed.contains_key(k) && #[trigger] self.listed[j]
                == #[trigger] self.listed[k] ==> j == k
        &&& forall|id: u64| #[trigger]
            self.batches.contains_key(id) ==> id < self.issued && exists|k: usize|
                self.listed.contains_key(k) && #[trigger] self.listed[k] == id
        &&& well_numbered(self.listed.dom(), self.freed, self.vacant)
        &&& forall|id: u64|
            self.batches.contains_key(id) ==> (#[trigger] self.batches[id]).coherent()
    }

    /// After a batch has been opened, under the vacant key.
    pub open spec fn opened(self, batch: BatchView) -> TransfersView {
        TransfersView {
            batches: self.batches.insert(self.issued as u64, batch),
            listed: self.listed.insert(self.vacant, self.issued as u64),
            vacant: vacant_after(self.listed.dom().len(), self.freed),
            freed: freed_after(self.freed),
            issued: self.issued + 1,
        }
    }

    /// After the batch under `key` has been closed.
    pub open spec fn closed(self, key: usize) -> TransfersView {
        TransfersView {
            batches: self.batches.remove(self.listed[key]),
            listed: self.listed.remove(key),
            vacant: key,
            freed: self.freed.push(key),
            issued: self.issued,
        }
    }

    /// With another account of one batch.
    pub open spec fn with_batch(self, id: u64, batch: BatchView) -> TransfersView {
        TransfersView { batches: self.batches.insert(id, batch), ..self }
    }

    /// After a file of the batch under `key` has been started.
    pub open spec fn begun(self, key: usize, file: FileView) -> TransfersView {
        let id = self.listed[key];
        TransfersView {
            issued: self.issued + 1,
            ..self.with_batch(id, self.batches[id].with_file(file))
        }
    }

    /// The file that a ticket stands for is under way.
    pub open spec fn under_way(self, ticket: Ticket) -> bool {
        &&& self.batches.contains_key(ticket.batch)
        &&& self.batches[ticket.batch].files.contains_key(ticket.file)
    }

    /// After `n` more bytes of a file.
    pub open spec fn advanced(self, ticket: Ticket, n: nat) -> TransfersView {
        if self.under_way(ticket) {
            let batch = self.batches[ticket.batch];
            let file = batch.files[ticket.file];
            self.with_batch(
                ticket.batch,
                BatchView {
                    files: batch.files.insert(
                        ticket.file,
                        FileView { bytes_uploaded: more_bytes(file.bytes_uploaded, n), ..file },
                    ),
                    ..batch
                },
            )
        } else {
            self
        }
    }

    /// After a file has arrived.
    pub open spec fn finished(self, ticket: Ticket) -> TransfersView {
        if self.under_way(ticket) {
            let batch = self.batches[ticket.batch];
            self.with_batch(
                ticket.batch,
                BatchView {
                    files_uploaded: one_more_file(batch.files_uploaded),
                    files: batch.files.remove(ticket.file),
                    vacant: ticket.file,
                    freed: batch.freed.push(ticket.file),
                    ..batch
                },
            )
        } else {
            self
        }
    }

    /// After the count of a batch has gone up by one file.
    pub open spec fn counted(self, id: u64) -> TransfersView {
        if self.batches.contains_key(id) {
            let batch = self.batches[id];
            self.with_batch(
                id,
                BatchView { files_uploaded: one_more_file(batch.files_uploaded), ..batch },
            )
        } else {
            self
        }
    }
}

/// A batch in which nothing has happened yet.
pub open spec fn fresh_batch(num_files: FileCountView, files_uploaded: int) -> BatchView {
    BatchView { num_files, files_uploaded, files: Map::empty(), vacant: 0, freed: Seq::empty() }
}

/// A file of which nothing has arrived yet.
pub open spec fn fresh_file(name: Seq<char>, num_bytes: nat) -> FileView {
    FileView { name, num_bytes, bytes_uploaded: 0 }
}

impl Batch {
    /// The files can be found, and their identities were given out before `issued`.
    pub closed spec fn well_formed(&self, issued: u64) -> bool {
        &&& self.files.well_formed()
        &&& forall|id: u64| #[trigger] self.files.items().contains_key(id) ==> id < issued
    }

    /// The rows of this batch.
    fn rows(&self) -> (res: Vec<Row>)
        requires
            self.files.well_formed(),
        ensures
            res.deep_view() == batch_rows(self@),
    {
        let entries = self.files.entries();
        let ghost keys = entries@.map_values(|e: (usize, u64)| e.0);
        let ghost head = batch_rows(self@).take(2);
        proof {
            entries_list_ascending(entries@, self.files.ids());
            assert(self@.files.dom() =~= self.files.ids().dom());
        }
        let mut rows: Vec<Row> = Vec::new();
        rows.push(Row::Line(count_line(self.status.files_uploaded, &self.status.num_files)));
        rows.push(
            Row::FileBar {
                num_files: self.status.num_files.copy(),
                files: self.status.files_uploaded,
            },
        );
        assert(rows.deep_view() =~= head + file_rows(self@.files, keys.take(0)));
        for i in 0..entries.len()
            invariant
                self.files.well_formed(),
                crate::keys::lists_by_key(entries@, self.files.ids()),
                keys == entries@.map_values(|e: (usize, u64)| e.0),
                rows.deep_view() == head + file_rows(self@.files, keys.take(i as int)),
        {
            assert(keys.take(i + 1).drop_last() =~= keys.take(i as int));
            assert(keys.take(i + 1).last() == entries@[i as int].0);
            let id: u64 = entries[i].1;
            assert(self.files.ids().contains_key(entries@[i as int].0));
            match self.files.get(id) {
                Some(file) => {
                    let ghost before = rows.deep_view();
                    rows.push(Row::Line(file.name.clone()));
                    rows.push(Row::ByteBar { num_bytes: file.num_bytes, bytes: file.bytes_uploaded });
                    assert(rows.deep_view() =~= before.push(
                        crate::screen::RowView::Line(file.name@),
                    ).push(
                        crate::screen::RowView::ByteBar {
                            num_bytes: file.num_bytes as nat,
                            bytes: file.bytes_uploaded as nat,
                        },
                    ));
                    assert(self@.files[keys[i as int]] == file@);
                },
                None => {},
            }
            assert(rows.deep_view() =~= head + file_rows(self@.files, keys.take(i + 1)));
        }
        assert(keys.take(keys.len() as int) =~= keys);
        assert(rows.deep_view() =~= batch_rows(self@));
        rows
    }
}

impl Transfers {
    /// The batches can be found, with all their files.
    pub closed spec fn well_formed(&self) -> bool {
        &&& self.batches.well_formed()
        &&& forall|id: u64| #[trigger]
            self.batches.items().contains_key(id) ==> id < self.issued
                && self.batches.items()[id].well_formed(self.issued)
    }

    /// What is well formed is coherent.
    pub proof fn well_formed_is_coherent(&self)
        requires
            self.well_formed(),
        ensures
            self@.coherent(),
    {
        assert forall|id: u64| #[trigger] self@.batches.contains_key(id) implies exists|k: usize|
            self@.listed.contains_key(k) && #[trigger] self@.listed[k] == id by {
            let k = choose|k: usize|
                self.batches.ids().contains_key(k) && #[trigger] self.batches.ids()[k] == id;
            assert(self@.listed[k] == id);
        }
        assert forall|id: u64| self@.batches.contains_key(id) implies (
        #[trigger] self@.batches[id]).coherent() by {
            let batch = self.batches.items()[id];
            assert(batch.well_formed(self.issued));
            assert(batch@.files.dom() =~= batch.files.ids().dom());
        }
    }

    /// No transfers.
    pub fn new() -> (res: Self)
        ensures
            res.well_formed(),
            res@ == (TransfersView {
                batches: Map::empty(),
                listed: Map::empty(),
                vacant: 0,
                freed: Seq::empty(),
                issued: 0,
            }),
    {
        Transfers { batches: Shelf::new(), issued: 0 }
    }

    /// Whether `n` more batches and files can be told apart from all before them.
    pub fn has_room(&self, n: u64) -> (res: bool)
        ensures
            res == (self@.issued + n <= u64::MAX),
    {
        n <= u64::MAX - self.issued
    }

    /// Opens a batch of `num_files` files, and returns its key.
    pub fn open_batch(&mut self, num_files: FileCount, files_uploaded: i64) -> (res: usize)
        requires
            old(self).well_formed(),
            old(self)@.issued < u64::MAX,
        ensures
            final(self).well_formed(),
            res == old(self)@.vacant,
            !old(self)@.listed.contains_key(res),
            final(self)@ == old(self)@.opened(
                fresh_batch(num_files@, files_uploaded as int),
            ),
    {
        let batch = Batch {
            status: ConcurrentUploadStatus { num_files, files_uploaded },
            files: Shelf::new(),
        };
        assert(batch@ =~= fresh_batch(num_files@, files_uploaded as int));
        let id: u64 = self.issued;
        let key = self.batches.insert(id, batch);
        self.issued = id + 1;
        assert(self@ =~= old(self)@.opened(batch@));
        key
    }

    /// Closes the batch under a key.
    pub fn close_batch(&mut self, key: usize)
        requires
            old(self).well_formed(),
            old(self)@.listed.contains_key(key),
        ensures
            final(self).well_formed(),
            final(self)@ == old(self)@.closed(key),
    {
        self.batches.remove(key);
        assert(self@ =~= old(self)@.closed(key));
    }

    /// The batch under a key, if the key is in use.
    pub fn batch_at(&self, key: usize) -> (res: Option<u64>)
        ensures
            res == (if self@.listed.contains_key(key) {
                Some(self@.listed[key])
            } else {
                None
            }),
    {
        self.batches.id_at(key)
    }

    /// Starts on a file of the batch under `key`, if the key is in use.
    pub fn begin_file(&mut self, key: usize, name: String, num_bytes: u64) -> (res: Option<Ticket>)
        requires
            old(self).well_formed(),
            old(self)@.issued < u64::MAX,
        ensures
            final(self).well_formed(),
            match res {
                Some(ticket) => {
                    &&& old(self)@.listed.contains_key(key)
                    &&& ticket.batch == old(self)@.listed[key]
                    &&& ticket.file == old(self)@.batches[ticket.batch].vacant
                    &&& !old(self)@.batches[ticket.batch].files.contains_key(ticket.file)
                    &&& final(self)@ == old(self)@.begun(
                        key,
                        fresh_file(name@, num_bytes as nat),
                    )
                },
                None => {
                    &&& !old(self)@.listed.contains_key(key)
                    &&& final(self)@ == old(self)@
                },
            },
    {
        let id: u64 = match self.batches.id_at(key) {
            Some(id) => id,
            None => {
                return None;
            },
        };
        match self.batches.take(id) {
            Some(batch) => {
                let ghost before = batch;
                let mut batch = batch;
                let file_id: u64 = self.issued;
                let status = UploadStatus { name, num_bytes, bytes_uploaded: 0 };
                let file = batch.files.insert(file_id, status);
                self.issued = file_id + 1;
                assert(batch@.files =~= before@.files.insert(file, status@)) by {
                    assert forall|k: usize| #[trigger]
                        before.files.ids().contains_key(k) implies before.files.ids()[k]
                        != file_id by {}
                }
                self.batches.put_back(id, batch);
                assert(before@.files.dom() =~= before.files.ids().dom());
                assert(batch@ =~= before@.with_file(status@));
                assert(self@ =~= old(self)@.begun(key, status@));
                Some(Ticket { batch: id, file })
            },
            None => {
                assert(self.batches.items() =~= old(self).batches.items());
                None
            },
        }
    }

    /// Reports `n` more bytes of a file. A file whose batch has been closed is
    /// not counted any more.
    pub fn advance(&mut self, ticket: &Ticket, n: u64)
        requires
            old(self).well_formed(),
        ensures
            final(self).well_formed(),
            final(self)@ == old(self)@.advanced(*ticket, n as nat),
    {
        match self.batches.take(ticket.batch) {
            Some(batch) => {
                let ghost before = batch;
                let mut batch = batch;
                match batch.files.id_at(ticket.file) {
                    Some(file_id) => match batch.files.take(file_id) {
                        Some(status) => {
                            let mut status = status;
                            status.bytes_uploaded = status.bytes_uploaded.saturating_add(n);
                            batch.files.put_back(file_id, status);
                            assert(batch@.files =~= before@.files.insert(ticket.file, status@));
                        },
                        None => {},
                    },
                    None => {},
                }
                self.batches.put_back(ticket.batch, batch);
            },
            None => {},
        }
        assert(self@ =~= old(self)@.advanced(*ticket, n as nat));
    }

    /// Reports that a file has arrived. A file whose batch has been closed is
    /// not counted any more.
    pub fn finish_file(&mut self, ticket: Ticket)
        requires
            old(self).well_formed(),
        ensures
            final(self).well_formed(),
            final(self)@ == old(self)@.finished(ticket),
    {
        match self.batches.take(ticket.batch) {
            Some(batch) => {
                let ghost before = batch;
                let mut batch = batch;
                if batch.files.id_at(ticket.file).is_some() {
                    batch.files.remove(ticket.file);
                    if batch.status.files_uploaded < i64::MAX {
                        batch.status.files_uploaded = batch.status.files_uploaded + 1;
                    }
                    assert(batch@.files =~= before@.files.remove(ticket.file));
                }
                self.batches.put_back(ticket.batch, batch);
            },
            None => {},
        }
        assert(self@ =~= old(self)@.finished(ticket));
    }

    /// Counts one more file of a batch, unless it has been closed.
    pub fn count_file(&mut self, id: u64)
        requires
            old(self).well_formed(),
        ensures
            final(self).well_formed(),
            final(self)@ == old(self)@.counted(id),
    {
        match self.batches.take(id) {
            Some(batch) => {
                let ghost before = batch;
                let mut batch = batch;
                if batch.status.files_uploaded < i64::MAX {
                    batch.status.files_uploaded = batch.status.files_uploaded + 1;
                }
                assert(batch@.files =~= before@.files);
                self.batches.put_back(id, batch);
            },
            None => {},
        }
        assert(self@ =~= old(self)@.counted(id));
    }

    /// The rows of the transfers in progress.
    pub fn progress(&self) -> (res: Vec<Row>)
        requires
            self.well_formed(),
        ensures
            res.deep_view() == progress_rows(self@),
    {
        let entries = self.batches.entries();
        let ghost keys = entries@.map_values(|e: (usize, u64)| e.0);
        proof {
            entries_list_ascending(entries@, self.batches.ids());
        }
        let mut rows: Vec<Row> = Vec::new();
        assert(rows.deep_view() =~= rows_of_batches(self@, keys.take(0)));
        for i in 0..entries.len()
            invariant
                self.well_formed(),
                crate::keys::lists_by_key(entries@, self.batches.ids()),
                keys == entries@.map_values(|e: (usize, u64)| e.0),
                rows.deep_view() == rows_of_batches(self@, keys.take(i as int)),
        {
            assert(keys.take(i + 1).drop_last() =~= keys.take(i as int));
            assert(keys.take(i + 1).last() == entries@[i as int].0);
            let id: u64 = entries[i].1;
            assert(self.batches.ids().contains_key(entries@[i as int].0));
            match self.batches.get(id) {
                Some(batch) => {
                    let ghost before = rows.deep_view();
                    let mut more = batch.rows();
                    let ghost added = more.deep_view();
                    rows.append(&mut more);
                    assert(rows.deep_view() =~= before + added);
                },
                None => {},
            }
        }
        assert(keys.take(keys.len() as int) =~= keys);
        rows
    }
}

/// Opening a batch keeps the transfers coherent, gives it a key that was not in
/// use, and leaves every other batch under its key and as it was.
pub proof fn opening_keeps_others(t: TransfersView, batch: BatchView)
    requires
        t.coherent(),
        t.issued < u64::MAX,
        t.listed.dom().len() < usize::MAX,
        batch.coherent(),
    ensures
        t.opened(batch).coherent(),
        !t.listed.contains_key(t.vacant),
        t.opened(batch).listed.contains_key(t.vacant),
        t.opened(batch).batches[t.opened(batch).listed[t.vacant]] == batch,
        forall|k: usize| #[trigger]
            t.listed.contains_key(k) ==> {
                let after = t.opened(batch);
                &&& after.listed[k] == t.listed[k]
                &&& after.batches[after.listed[k]] == t.batches[t.listed[k]]
            },
{
    let after = t.opened(batch);
    vacant_is_not_used(t.listed.dom(), t.freed, t.vacant);
    taking_keeps_numbers(t.listed.dom(), t.freed, t.vacant);
    assert(after.listed.dom() =~= t.listed.dom().insert(t.vacant));
    assert forall|id: u64| #[trigger] after.batches.contains_key(id) implies id < after.issued
        && exists|k: usize| after.listed.contains_key(k) && #[trigger] after.listed[k] == id by {
        if id == t.issued {
            assert(after.listed[t.vacant] == id);
        } else {
            assert(t.batches.contains_key(id));
            let k = choose|k: usize| t.listed.contains_key(k) && #[trigger] t.listed[k] == id;
            assert(after.listed[k] == id);
        }
    }
    assert forall|id: u64| after.batches.contains_key(id) implies (
    #[trigger] after.batches[id]).coherent() by {
        assert(id != t.issued ==> t.batches.contains_key(id));
    }
}

/// Closing a batch keeps the transfers coherent, makes its key the next to be
/// given away, and leaves every other batch under its key and as it was.
pub proof fn closing_keeps_others(t: TransfersView, key: usize)
    requires
        t.coherent(),
        t.listed.contains_key(key),
    ensures
        t.closed(key).coherent(),
        t.closed(key).vacant == key,
        forall|k: usize| #[trigger]
            t.listed.contains_key(k) && k != key ==> {
                let after = t.closed(key);
                &&& after.listed.contains_key(k)
                &&& after.listed[k] == t.listed[k]
                &&& after.batches[after.listed[k]] == t.batches[t.listed[k]]
            },
{
    let after = t.closed(key);
    freeing_keeps_numbers(t.listed.dom(), t.freed, t.vacant, key);
    assert(after.listed.dom() =~= t.listed.dom().remove(key));
    assert forall|id: u64| #[trigger] after.batches.contains_key(id) implies id < after.issued
        && exists|k: usize| after.listed.contains_key(k) && #[trigger] after.listed[k] == id by {
        assert(t.batches.contains_key(id));
        let k = choose|k: usize| t.listed.contains_key(k) && #[trigger] t.listed[k] == id;
        assert(after.listed[k] == id);
    }
    assert forall|id: u64| after.batches.contains_key(id) implies (
    #[trigger] after.batches[id]).coherent() by {
        assert(t.batches.contains_key(id));
    }
}

/// Closing a batch undoes opening it.
pub proof fn closing_undoes_opening(t: TransfersView, batch: BatchView)
    requires
        t.coherent(),
        t.issued < u64::MAX,
    ensures
        t.opened(batch).closed(t.vacant).batches == t.batches,
        t.opened(batch).closed(t.vacant).listed == t.listed,
        t.opened(batch).closed(t.vacant).vacant == t.vacant,
{
    let end = t.opened(batch).closed(t.vacant);
    vacant_is_not_used(t.listed.dom(), t.freed, t.vacant);
    assert(!t.batches.contains_key(t.issued as u64));
    assert(end.batches =~= t.batches);
    assert(end.listed =~= t.listed);
}

/// Another account of a batch that is there keeps the transfers coherent.
pub proof fn account_keeps_coherence(t: TransfersView, id: u64, batch: BatchView)
    requires
        t.coherent(),
        t.batches.contains_key(id),
        batch.coherent(),
    ensures
        t.with_batch(id, batch).coherent(),
{
    let after = t.with_batch(id, batch);
    assert(after.batches.dom() =~= t.batches.dom());
    assert forall|i: u64| #[trigger] after.batches.contains_key(i) implies i < after.issued
        && exists|k: usize| after.listed.contains_key(k) && #[trigger] after.listed[k] == i by {
        assert(t.batches.contains_key(i));
        let k = choose|k: usize| t.listed.contains_key(k) && #[trigger] t.listed[k] == i;
        assert(after.listed[k] == i);
    }
    assert forall|i: u64| after.batches.contains_key(i) implies (
    #[trigger] after.batches[i]).coherent() by {
        assert(t.batches.contains_key(i));
        assert(i != id ==> after.batches[i] == t.batches[i]);
    }
}

/// Starting on a file keeps the transfers coherent.
pub proof fn starting_keeps_coherence(t: TransfersView, key: usize, file: FileView)
    requires
        t.coherent(),
        t.listed.contains_key(key),
        t.batches[t.listed[key]].files.dom().len() < usize::MAX,
    ensures
        t.begun(key, file).coherent(),
{
    let id = t.listed[key];
    let batch = t.batches[id];
    assert(batch.coherent());
    taking_keeps_numbers(batch.files.dom(), batch.freed, batch.vacant);
    assert(batch.with_file(file).files.dom() =~= batch.files.dom().insert(batch.vacant));
    account_keeps_coherence(t, id, batch.with_file(file));
    let with = t.with_batch(id, batch.with_file(file));
    let after = t.begun(key, file);
    assert forall|i: u64| #[trigger] after.batches.contains_key(i) implies i < after.issued
        && exists|k: usize| after.listed.contains_key(k) && #[trigger] after.listed[k] == i by {
        assert(with.batches.contains_key(i));
        let k = choose|k: usize| with.listed.contains_key(k) && #[trigger] with.listed[k] == i;
        assert(after.listed[k] == i);
    }
    assert forall|i: u64| after.batches.contains_key(i) implies (
    #[trigger] after.batches[i]).coherent() by {
        assert(with.batches[i] == after.batches[i]);
    }
}

/// Reports keep the transfers coherent.
pub proof fn reports_keep_coherence(t: TransfersView, ticket: Ticket, n: nat)
    requires
        t.coherent(),
    ensures
        t.advanced(ticket, n).coherent(),
        t.finished(ticket).coherent(),
        t.counted(ticket.batch).coherent(),
{
    let id = ticket.batch;
    if t.batches.contains_key(id) {
        let batch = t.batches[id];
        assert(batch.coherent());
        account_keeps_coherence(
            t,
            id,
            BatchView { files_uploaded: one_more_file(batch.files_uploaded), ..batch },
        );
        if t.under_way(ticket) {
            let advanced = t.advanced(ticket, n).batches[id];
            assert(advanced.files.dom() =~= batch.files.dom());
            account_keeps_coherence(t, id, advanced);
            let finished = t.finished(ticket).batches[id];
            freeing_keeps_numbers(batch.files.dom(), batch.freed, batch.vacant, ticket.file);
            assert(finished.files.dom() =~= batch.files.dom().remove(ticket.file));
            account_keeps_coherence(t, id, finished);
        }
    }
}

/// Reports of bytes add up.
pub proof fn reports_add_up(t: TransfersView, ticket: Ticket, m: nat, n: nat)
    ensures
        t.advanced(ticket, m).advanced(ticket, n) == t.advanced(ticket, m + n),
{
    if t.under_way(ticket) {
        let once = t.advanced(ticket, m);
        let batch = t.batches[ticket.batch];
        let twice = once.advanced(ticket, n);
        let both = t.advanced(ticket, m + n);
        assert(once.batches[ticket.batch].files[ticket.file] == (FileView {
            bytes_uploaded: more_bytes(batch.files[ticket.file].bytes_uploaded, m),
            ..batch.files[ticket.file]
        }));
        assert(twice.batches[ticket.batch].files =~= both.batches[ticket.batch].files);
        assert(twice.batches =~= both.batches);
    }
}

/// A file that is started on, reported on, and finished leaves its batch with
/// one more file counted, and otherwise with what it had.
pub proof fn finished_file_counts_once(t: TransfersView, key: usize, file: FileView, n: nat)
    requires
        t.coherent(),
        t.listed.contains_key(key),
    ensures
        ({
            let id = t.listed[key];
            let ticket = Ticket { batch: id, file: t.batches[id].vacant };
            let end = t.begun(key, file).advanced(ticket, n).finished(ticket);
            &&& end.listed == t.listed
            &&& end.batches[id].files_uploaded == one_more_file(t.batches[id].files_uploaded)
            &&& end.batches[id].num_files == t.batches[id].num_files
            &&& end.batches[id].files == t.batches[id].files
            &&& end.batches[id].vacant == t.batches[id].vacant
            &&& end.batches.remove(id) == t.batches.remove(id)
        }),
{
    let id = t.listed[key];
    let batch = t.batches[id];
    let ticket = Ticket { batch: id, file: batch.vacant };
    let end = t.begun(key, file).advanced(ticket, n).finished(ticket);
    assert(batch.coherent());
    vacant_is_not_used(batch.files.dom(), batch.freed, batch.vacant);
    assert(end.batches[id].files =~= batch.files);
    assert(end.batches.remove(id) =~= t.batches.remove(id));
}

/// A batch that is opened stands under the vacant key, with no files under way
/// and with the counts that it was opened with; nothing else changes.
pub proof fn opened_batch_is_fresh(t: TransfersView, num_files: FileCountView, count: int)
    requires
        t.coherent(),
        t.issued < u64::MAX,
    ensures
        ({
            let after = t.opened(fresh_batch(num_files, count));
            let id = after.listed[t.vacant];
            &&& after.batches.contains_key(id)
            &&& after.batches[id].num_files == num_files
            &&& after.batches[id].files_uploaded == count
            &&& forall|k: usize| !(#[trigger] after.batches[id].files.contains_key(k))
            &&& after.batches.remove(id) == t.batches
            &&& after.listed.remove(t.vacant) == t.listed
        }),
{
    vacant_is_not_used(t.listed.dom(), t.freed, t.vacant);
    let after = t.opened(fresh_batch(num_files, count));
    assert(!t.batches.contains_key(t.issued as u64));
    assert(after.batches.remove(t.issued as u64) =~= t.batches);
    assert(after.listed.remove(t.vacant) =~= t.listed);
}

/// Closing a batch takes it and its key away, and nothing else.
pub proof fn closed_batch_is_gone(t: TransfersView, key: usize)
    requires
        t.listed.contains_key(key),
    ensures
        !t.closed(key).listed.contains_key(key),
        !t.closed(key).batches.contains_key(t.listed[key]),
        t.closed(key).listed == t.listed.remove(key),
        t.closed(key).batches == t.batches.remove(t.listed[key]),
{
}

/// A file that is started on is under way under a key that was not in use in its
/// batch, with its name and size and no bytes counted. It does not count as
/// arrived, and nothing else changes.
pub proof fn started_file_is_under_way(
    t: TransfersView,
    key: usize,
    name: Seq<char>,
    num_bytes: nat,
)
    requires
        t.coherent(),
        t.listed.contains_key(key),
    ensures
        ({
            let id = t.listed[key];
            let batch = t.batches[id];
            let after = t.begun(key, fresh_file(name, num_bytes));
            let now = after.batches[id];
            &&& !batch.files.contains_key(batch.vacant)
            &&& now.files.contains_key(batch.vacant)
            &&& now.files[batch.vacant].name == name
            &&& now.files[batch.vacant].num_bytes == num_bytes
            &&& now.files[batch.vacant].bytes_uploaded == 0
            &&& now.files.remove(batch.vacant) == batch.files
            &&& now.num_files == batch.num_files
            &&& now.files_uploaded == batch.files_uploaded
            &&& after.batches.remove(id) == t.batches.remove(id)
            &&& after.listed == t.listed
        }),
{
    let id = t.listed[key];
    let batch = t.batches[id];
    assert(batch.coherent());
    vacant_is_not_used(batch.files.dom(), batch.freed, batch.vacant);
    let after = t.begun(key, fresh_file(name, num_bytes));
    assert(after.batches[id].files.remove(batch.vacant) =~= batch.files);
    assert(after.batches.remove(id) =~= t.batches.remove(id));
}

/// A report of bytes adds exactly them to its file, up to what can be counted,
/// and changes nothing else; it does nothing for a file that is not under way.
pub proof fn report_adds_its_bytes(t: TransfersView, ticket: Ticket, n: nat)
    ensures
        !t.under_way(ticket) ==> t.advanced(ticket, n) == t,
        t.under_way(ticket) ==> {
            let after = t.advanced(ticket, n);
            let batch = t.batches[ticket.batch];
            let now = after.batches[ticket.batch];
            let file = batch.files[ticket.file];
            &&& after.under_way(ticket)
            &&& file.bytes_uploaded + n <= u64::MAX ==> now.files[ticket.file].bytes_uploaded
                == file.bytes_uploaded + n
            &&& file.bytes_uploaded + n > u64::MAX ==> now.files[ticket.file].bytes_uploaded
                == u64::MAX
            &&& now.files[ticket.file].name == file.name
            &&& now.files[ticket.file].num_bytes == file.num_bytes
            &&& now.files.remove(ticket.file) == batch.files.remove(ticket.file)
            &&& now.num_files == batch.num_files
            &&& now.files_uploaded == batch.files_uploaded
            &&& after.batches.remove(ticket.batch) == t.batches.remove(ticket.batch)
            &&& after.listed == t.listed
        },
{
    if t.under_way(ticket) {
        let after = t.advanced(ticket, n);
        let batch = t.batches[ticket.batch];
        assert(after.batches[ticket.batch].files.remove(ticket.file) =~= batch.files.remove(
            ticket.file,
        ));
        assert(after.batches.remove(ticket.batch) =~= t.batches.remove(ticket.batch));
    }
}

/// A file that has arrived is no longer under way, and its batch counts exactly
/// one more, as far as it can count; nothing else changes, and nothing happens for
/// a file that is not under way. A batch can also count one more of itself.
pub proof fn arrival_counts_one(t: TransfersView, ticket: Ticket)
    ensures
        !t.under_way(ticket) ==> t.finished(ticket) == t,
        t.under_way(ticket) ==> {
            let after = t.finished(ticket);
            let batch = t.batches[ticket.batch];
            let now = after.batches[ticket.batch];
            &&& !after.under_way(ticket)
            &&& batch.files_uploaded < i64::MAX ==> now.files_uploaded == batch.files_uploaded + 1
            &&& now.files == batch.files.remove(ticket.file)
            &&& now.num_files == batch.num_files
            &&& after.batches.remove(ticket.batch) == t.batches.remove(ticket.batch)
            &&& after.listed == t.listed
        },
        !t.batches.contains_key(ticket.batch) ==> t.counted(ticket.batch) == t,
        t.batches.contains_key(ticket.batch) ==> {
            let after = t.counted(ticket.batch);
            let batch = t.batches[ticket.batch];
            let now = after.batches[ticket.batch];
            &&& batch.files_uploaded < i64::MAX ==> now.files_uploaded == batch.files_uploaded + 1
            &&& now.files == batch.files
            &&& now.num_files == batch.num_files
            &&& after.batches.remove(ticket.batch) == t.batches.remove(ticket.batch)
            &&& after.listed == t.listed
        },
{
    if t.batches.contains_key(ticket.batch) {
        assert(t.counted(ticket.batch).batches.remove(ticket.batch) =~= t.batches.remove(
            ticket.batch,
        ));
        if t.under_way(ticket) {
            assert(t.finished(ticket).batches.remove(ticket.batch) =~= t.batches.remove(
                ticket.batch,
            ));
        }
    }
}

} // verus!
