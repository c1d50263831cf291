//! What the desktop window shows, row by row.

use vstd::prelude::*;
use vstd::string::*;

use crate::message::{copy_names, MessageView};
use crate::numbers::{decimal, decimal_text, signed_decimal, signed_text};
use crate::transfers::{
    BatchView, FileCount, FileCountView, FileView, Transfers, TransfersView,
};
use crate::uploader::{told, Uploader, UploaderView};

verus! {

/// A row of the window.
pub enum Row {
    /// A large heading.
    Heading(String),
    /// A line of text.
    Line(String),
    /// A line of text in green.
    GoodNews(String),
    /// The choice of a folder: one that exists, or one to create.
    FolderChoice { folders: Vec<String>, chosen: Option<String>, new_folder: String },
    /// The choice of the files on offer; they can be cleared if there are any.
    FileChoice { can_clear: bool },
    /// A bar that shows how many files of a batch there have been.
    FileBar { num_files: FileCount, files: i64 },
    /// A bar that shows how many bytes of a file there have been.
    ByteBar { num_bytes: u64, bytes: u64 },
}

/// A row with its texts as character sequences.
pub enum RowView {
    Heading(Seq<char>),
    Line(Seq<char>),
    GoodNews(Seq<char>),
    FolderChoice { folders: Seq<Seq<char>>, chosen: Option<Seq<char>>, new_folder: Seq<char> },
    FileChoice { can_clear: bool },
    FileBar { num_files: FileCountView, files: int },
    ByteBar { num_bytes: nat, bytes: nat },
}

impl View for Row {
    type V = RowView;

    open spec fn view(&self) -> RowView {
        match self {
            Row::Heading(t) => RowView::Heading(t@),
            Row::Line(t) => RowView::Line(t@),
            Row::GoodNews(t) => RowView::GoodNews(t@),
            Row::FolderChoice { folders, chosen, new_folder } => RowView::FolderChoice {
                folders: folders.deep_view(),
                chosen: crate::uploader::text_of(*chosen),
                new_folder: new_folder@,
            },
            Row::FileChoice { can_clear } => RowView::FileChoice { can_clear: *can_clear },
            Row::FileBar { num_files, files } => RowView::FileBar {
                num_files: num_files@,
                files: *files as int,
            },
            Row::ByteBar { num_bytes, bytes } => RowView::ByteBar {
                num_bytes: *num_bytes as nat,
                bytes: *bytes as nat,
            },
        }
    }
}

impl DeepView for Row {
    type V = RowView;

    open spec fn deep_view(&self) -> RowView {
        self@
    }
}

/// `keys` lists the members of `s` in ascending order.
pub open spec fn lists_ascending(keys: Seq<usize>, s: Set<usize>) -> bool {
    &&& forall|i: int, j: int| 0 <= i < j < keys.len() ==> keys[i] < keys[j]
    &&& forall|k: usize| #[trigger] s.contains(k) <==> keys.contains(k)
}

/// The members of `s` in ascending order.
pub open spec fn ascending(s: Set<usize>) -> Seq<usize> {
    choose|keys: Seq<usize>| lists_ascending(keys, s)
}

/// The rows of files under way, for the keys given.
pub open spec fn file_rows(files: Map<usize, FileView>, keys: Seq<usize>) -> Seq<RowView>
    decreases keys.len(),
{
    if keys.len() == 0 {
        Seq::empty()
    } else {
        let file = files[keys.last()];
        file_rows(files, keys.drop_last()).push(RowView::Line(file.name)).push(
            RowView::ByteBar { num_bytes: file.num_bytes, bytes: file.bytes_uploaded },
        )
    }
}

/// A number of files as it is written.
pub open spec fn written(count: FileCountView) -> Seq<char> {
    match count {
        FileCountView::Whole(n) => decimal(n),
        FileCountView::Other(text) => text,
    }
}

/// The rows of a batch: its count, then its files under way by key.
pub open spec fn batch_rows(b: BatchView) -> Seq<RowView> {
    seq![
        RowView::Line(signed_decimal(b.files_uploaded) + "/"@ + written(b.num_files)),
        RowView::FileBar { num_files: b.num_files, files: b.files_uploaded },
    ] + file_rows(b.files, ascending(b.files.dom()))
}

/// The rows of the batches, for the keys given.
pub open spec fn rows_of_batches(t: TransfersView, keys: Seq<usize>) -> Seq<RowView>
    decreases keys.len(),
{
    if keys.len() == 0 {
        Seq::empty()
    } else {
        rows_of_batches(t, keys.drop_last()) + batch_rows(t.batches[t.listed[keys.last()]])
    }
}

/// The rows of the transfers in progress, by key.
pub open spec fn progress_rows(t: TransfersView) -> Seq<RowView> {
    rows_of_batches(t, ascending(t.listed.dom()))
}

/// The rows of the window.
pub open spec fn screen(u: UploaderView, t: TransfersView) -> Seq<RowView> {
    seq![RowView::Heading("LocaDrive"@), RowView::Line(u.instructions)] + (if u.clients > 0 {
        seq![RowView::GoodNews("Clients connected: "@ + decimal(u.clients as nat))]
    } else {
        Seq::empty()
    }) + seq![
        RowView::Line("Output to:"@),
        RowView::FolderChoice { folders: u.folders, chosen: u.output, new_folder: u.new_dir },
        RowView::FileChoice { can_clear: u.downloads.len() > 0 },
    ] + progress_rows(t)
}

/// There is one way to list a set in ascending order.
pub proof fn ascending_is_unique(a: Seq<usize>, b: Seq<usize>, s: Set<usize>)
    requires
        lists_ascending(a, s),
        lists_ascending(b, s),
    ensures
        a == b,
    decreases a.len(),
{
    if a.len() == 0 {
        if b.len() > 0 {
            assert(b.contains(b[0]));
            assert(s.contains(b[0]));
            assert(a.contains(b[0]));
        }
        assert(a =~= b);
    } else {
        assert(a.contains(a.last()));
        assert(s.contains(a.last()));
        assert(b.contains(a.last()));
        assert(b.contains(b.last()));
        assert(s.contains(b.last()));
        assert(a.contains(b.last()));
        assert(a.last() == b.last());
        let top = a.last();
        lists_without_last(a, s);
        lists_without_last(b, s);
        ascending_is_unique(a.drop_last(), b.drop_last(), s.remove(top));
        assert(a =~= a.drop_last().push(top));
        assert(b =~= b.drop_last().push(top));
    }
}

proof fn lists_without_last(a: Seq<usize>, s: Set<usize>)
    requires
        lists_ascending(a, s),
        a.len() > 0,
    ensures
        lists_ascending(a.drop_last(), s.remove(a.last())),
{
    let r = s.remove(a.last());
    assert forall|k: usize| #[trigger] r.contains(k) <==> a.drop_last().contains(k) by {
        if r.contains(k) {
            assert(s.contains(k));
            let i = choose|i: int| 0 <= i < a.len() && a[i] == k;
            assert(a.drop_last()[i] == k);
        }
        if a.drop_last().contains(k) {
            let i = choose|i: int| 0 <= i < a.drop_last().len() && a.drop_last()[i] == k;
            assert(a[i] == k);
            assert(a.contains(k));
            assert(a[i] < a[a.len() - 1]);
        }
    }
}

/// The keys of an ascending list of entries, in order, are the keys of the map.
pub proof fn entries_list_ascending(entries: Seq<(usize, u64)>, contents: Map<usize, u64>)
    requires
        crate::keys::lists_by_key(entries, contents),
    ensures
        entries.map_values(|e: (usize, u64)| e.0) == ascending(contents.dom()),
{
    let keys = entries.map_values(|e: (usize, u64)| e.0);
    let s = contents.dom();
    assert forall|k: usize| #[trigger] s.contains(k) <==> keys.contains(k) by {
        if s.contains(k) {
            assert(contents.contains_key(k));
            let i = choose|i: int| 0 <= i < entries.len() && (#[trigger] entries[i]).0 == k;
            assert(keys[i] == k);
        }
        if keys.contains(k) {
            let i = choose|i: int| 0 <= i < keys.len() && keys[i] == k;
            assert(entries[i].0 == k);
        }
    }
    assert(lists_ascending(keys, s));
    ascending_is_unique(keys, ascending(s), s);
}

impl Uploader {
    /// The title of the window.
    pub fn title(&self) -> (res: String)
        ensures
            res@ == "LocaDrive"@,
    {
        "LocaDrive".to_owned()
    }

    /// The rows of the window.
    pub fn rows(&self, transfers: &Transfers) -> (res: Vec<Row>)
        requires
            transfers.well_formed(),
        ensures
            res.deep_view() == screen(self@, transfers@),
            forall|i: int|
                0 <= i < res@.len() ==> (#[trigger] res@[i] matches Row::FileChoice { can_clear }
                    ==> can_clear == (self.download_path@.len() > 0)),
            exists|i: int| 0 <= i < res@.len() && #[trigger] res@[i] is FileChoice,
            (exists|i: int| 0 <= i < res@.len() && #[trigger] res@[i] is GoodNews) <==> (
            self.clients_connected > 0),
    {
        let mut rows: Vec<Row> = Vec::new();
        rows.push(Row::Heading("LocaDrive".to_owned()));
        rows.push(Row::Line(self.instructions.clone()));
        if self.clients_connected > 0 {
            rows.push(
                Row::GoodNews(
                    "Clients connected: ".to_owned().concat(
                        decimal_text(self.clients_connected as u64).as_str(),
                    ),
                ),
            );
        }
        rows.push(Row::Line("Output to:".to_owned()));
        let chosen: Option<String> = match &self.output_path {
            Some(p) => Some(p.clone()),
            None => None,
        };
        rows.push(
            Row::FolderChoice {
                folders: copy_names(&self.current_dir),
                chosen,
                new_folder: self.new_dir_input.clone(),
            },
        );
        rows.push(Row::FileChoice { can_clear: self.download_path.len() > 0 });
        let ghost head = rows.deep_view();
        let mut progress = transfers.progress();
        let ghost tail = progress.deep_view();
        rows.append(&mut progress);
        assert(rows.deep_view() =~= head + tail);
        assert(rows.deep_view() =~= screen(self@, transfers@));
        proof {
            let shown = rows.deep_view();
            assert forall|i: int| 0 <= i < rows@.len() implies #[trigger] rows@[i]@ == shown[i] by {}
            window_shows_the_state(self@, transfers@);
            let k: int = if self@.clients > 0 {
                3
            } else {
                2
            };
            assert(shown[k + 2] is FileChoice);
            assert(rows@[k + 2]@ == shown[k + 2]);
            assert(rows@[k + 2] is FileChoice);
            if self@.clients > 0 {
                assert(rows@[2]@ == shown[2]);
                assert(rows@[2] is GoodNews);
            }
            assert forall|i: int| 0 <= i < rows@.len() implies (#[trigger] rows@[i] matches
                Row::FileChoice { can_clear } ==> can_clear == (self.download_path@.len()
                > 0)) by {
                assert(rows@[i]@ == shown[i]);
                assert(shown[i] is FileChoice <==> i == k + 2);
            }
            if exists|i: int| 0 <= i < rows@.len() && #[trigger] rows@[i] is GoodNews {
                let i = choose|i: int| 0 <= i < rows@.len() && #[trigger] rows@[i] is GoodNews;
                assert(rows@[i]@ == shown[i]);
                assert(shown[i] is GoodNews);
            }
        }
        rows
    }
}

/// The line that tells how many files of a batch there have been.
pub fn count_line(files_uploaded: i64, num_files: &FileCount) -> (res: String)
    ensures
        res@ == signed_decimal(files_uploaded as int) + "/"@ + written(num_files@),
{
    let start = signed_text(files_uploaded).concat("/");
    match num_files {
        FileCount::Whole(n) => start.concat(decimal_text(*n).as_str()),
        FileCount::Other(text) => start.concat(text.as_str()),
    }
}

/// The text of the window that reports a crash.
pub open spec fn crash_report(info: Seq<char>, backtrace: Seq<char>) -> Seq<char> {
    info + "zstd"@ + backtrace
}

/// The text of the window that reports a crash.
pub fn crash_text(info: &str, backtrace: &str) -> (res: String)
    ensures
        res@ == crash_report(info@, backtrace@),
        res@ == info@ + "zstd"@ + backtrace@,
{
    info.to_owned().concat("zstd").concat(backtrace)
}

/// A row that shows how far transfers have come.
pub open spec fn is_progress(r: RowView) -> bool {
    r is Line || r is FileBar || r is ByteBar
}

proof fn file_rows_by_key(files: Map<usize, FileView>, keys: Seq<usize>)
    ensures
        file_rows(files, keys).len() == 2 * keys.len(),
        forall|i: int|
            #![trigger keys[i]]
            0 <= i < keys.len() ==> {
                &&& file_rows(files, keys)[2 * i] == RowView::Line(files[keys[i]].name)
                &&& file_rows(files, keys)[2 * i + 1] == (RowView::ByteBar {
                    num_bytes: files[keys[i]].num_bytes,
                    bytes: files[keys[i]].bytes_uploaded,
                })
            },
        forall|i: int|
            0 <= i < file_rows(files, keys).len() ==> is_progress(
                #[trigger] file_rows(files, keys)[i],
            ),
    decreases keys.len(),
{
    if keys.len() > 0 {
        let fewer = keys.drop_last();
        file_rows_by_key(files, fewer);
        assert forall|i: int|
            #![trigger keys[i]]
            0 <= i < keys.len() implies {
            &&& file_rows(files, keys)[2 * i] == RowView::Line(files[keys[i]].name)
            &&& file_rows(files, keys)[2 * i + 1] == (RowView::ByteBar {
                num_bytes: files[keys[i]].num_bytes,
                bytes: files[keys[i]].bytes_uploaded,
            })
        } by {
            if i < fewer.len() {
                assert(fewer[i] == keys[i]);
            }
        }
        assert forall|i: int| 0 <= i < file_rows(files, keys).len() implies is_progress(
            #[trigger] file_rows(files, keys)[i],
        ) by {
            if i < file_rows(files, fewer).len() {
                assert(is_progress(file_rows(files, fewer)[i]));
            }
        }
    }
}

/// The rows of a batch: first how many of its files there have been, and how many
/// there are, as text and as a bar; then two for each file under way, its name and
/// a bar of how many of its bytes there have been, and how many there are, by
/// ascending key.
pub proof fn batch_is_shown(b: BatchView)
    requires
        b.files.dom().finite(),
    ensures
        ({
            let rows = batch_rows(b);
            let keys = ascending(b.files.dom());
            &&& lists_ascending(keys, b.files.dom())
            &&& rows.len() == 2 + 2 * keys.len()
            &&& rows[0] == RowView::Line(
                signed_decimal(b.files_uploaded) + seq!['/'] + written(b.num_files),
            )
            &&& rows[1] == (RowView::FileBar { num_files: b.num_files, files: b.files_uploaded })
            &&& forall|i: int|
                #![trigger keys[i]]
                0 <= i < keys.len() ==> {
                    &&& rows[2 + 2 * i] == RowView::Line(b.files[keys[i]].name)
                    &&& rows[3 + 2 * i] == (RowView::ByteBar {
                        num_bytes: b.files[keys[i]].num_bytes,
                        bytes: b.files[keys[i]].bytes_uploaded,
                    })
                }
        }),
{
    let keys = ascending(b.files.dom());
    ascending_exists(b.files.dom());
    file_rows_by_key(b.files, keys);
    reveal_strlit("/");
    assert("/"@ =~= seq!['/']);
}

/// A finite set of keys can be listed in ascending order.
proof fn ascending_exists(s: Set<usize>)
    requires
        s.finite(),
    ensures
        lists_ascending(ascending(s), s),
    decreases s.len(),
{
    if s.len() == 0 {
        assert(s =~= Set::empty());
        let none = Seq::<usize>::empty();
        assert(lists_ascending(none, s));
    } else {
        let top = greatest(s);
        let rest = s.remove(top);
        ascending_exists(rest);
        let keys = ascending(rest);
        let all = keys.push(top);
        assert forall|k: usize| #[trigger] s.contains(k) <==> all.contains(k) by {
            if s.contains(k) {
                if k == top {
                    assert(all[keys.len() as int] == k);
                } else {
                    assert(rest.contains(k));
                    let i = choose|i: int| 0 <= i < keys.len() && keys[i] == k;
                    assert(all[i] == k);
                }
            }
            if all.contains(k) {
                let i = choose|i: int| 0 <= i < all.len() && all[i] == k;
                if i < keys.len() {
                    assert(keys.contains(k));
                    assert(rest.contains(k));
                }
            }
        }
        assert forall|i: int, j: int| 0 <= i < j < all.len() implies all[i] < all[j] by {
            if j == keys.len() {
                assert(keys.contains(keys[i]));
                assert(rest.contains(keys[i]));
            }
        }
        assert(lists_ascending(all, s));
    }
}

proof fn greatest(s: Set<usize>) -> (top: usize)
    requires
        s.finite(),
        s.len() > 0,
    ensures
        s.contains(top),
        forall|k: usize| #[trigger] s.contains(k) ==> k <= top,
    decreases s.len(),
{
    let k = s.choose();
    let rest = s.remove(k);
    if rest.len() == 0 {
        assert(rest =~= Set::empty());
        assert forall|j: usize| #[trigger] s.contains(j) implies j <= k by {
            assert(j != k ==> rest.contains(j));
        }
        k
    } else {
        let other = greatest(rest);
        let top = if k < other {
            other
        } else {
            k
        };
        assert forall|j: usize| #[trigger] s.contains(j) implies j <= top by {
            assert(j != k ==> rest.contains(j));
        }
        top
    }
}

/// The rows of batches: those of each, one batch behind the other.
pub proof fn batches_are_shown_in_turn(t: TransfersView, a: Seq<usize>, b: Seq<usize>, k: usize)
    ensures
        rows_of_batches(t, a + b) == rows_of_batches(t, a) + rows_of_batches(t, b),
        rows_of_batches(t, seq![k]) == batch_rows(t.batches[t.listed[k]]),
        rows_of_batches(t, Seq::<usize>::empty()).len() == 0,
    decreases b.len(),
{
    assert(seq![k].drop_last() =~= Seq::<usize>::empty());
    assert(rows_of_batches(t, seq![k].drop_last()) =~= Seq::<RowView>::empty());
    assert(rows_of_batches(t, seq![k]) =~= batch_rows(t.batches[t.listed[k]]));
    if b.len() == 0 {
        assert(a + b =~= a);
        assert(rows_of_batches(t, a + b) =~= rows_of_batches(t, a) + rows_of_batches(t, b));
    } else {
        batches_are_shown_in_turn(t, a, b.drop_last(), k);
        assert((a + b).drop_last() =~= a + b.drop_last());
        assert(rows_of_batches(t, a + b) =~= rows_of_batches(t, a) + rows_of_batches(t, b));
    }
}

/// Every batch in progress is shown, by ascending key.
pub proof fn every_batch_is_shown(t: TransfersView)
    requires
        t.listed.dom().finite(),
    ensures
        exists|keys: Seq<usize>|
            lists_ascending(keys, t.listed.dom()) && progress_rows(t) == #[trigger] rows_of_batches(
                t,
                keys,
            ),
{
    ascending_exists(t.listed.dom());
    assert(progress_rows(t) == rows_of_batches(t, ascending(t.listed.dom())));
}

proof fn progress_is_progress(t: TransfersView, keys: Seq<usize>)
    ensures
        forall|i: int|
            0 <= i < rows_of_batches(t, keys).len() ==> is_progress(
                #[trigger] rows_of_batches(t, keys)[i],
            ),
    decreases keys.len(),
{
    if keys.len() > 0 {
        let fewer = keys.drop_last();
        progress_is_progress(t, fewer);
        let batch = t.batches[t.listed[keys.last()]];
        let front = rows_of_batches(t, fewer);
        let files = ascending(batch.files.dom());
        file_rows_by_key(batch.files, files);
        assert forall|i: int| 0 <= i < rows_of_batches(t, keys).len() implies is_progress(
            #[trigger] rows_of_batches(t, keys)[i],
        ) by {
            if i < front.len() {
                assert(is_progress(front[i]));
            } else if i - front.len() >= 2 {
                let j = i - front.len() - 2;
                assert(batch_rows(batch)[i - front.len()] == file_rows(batch.files, files)[j]);
                assert(is_progress(file_rows(batch.files, files)[j]));
            }
        }
    }
}

/// The window shows the state of the desktop, row by row: the name of the program,
/// how it can be reached, how many browsers are connected if any are, where
/// uploads go, the folders, the one chosen and the name typed, the files on offer,
/// and then the transfers in progress. What is on offer can be cleared exactly
/// when there is something to clear, that is when the browsers would be told.
pub proof fn window_shows_the_state(u: UploaderView, t: TransfersView)
    ensures
        ({
            let rows = screen(u, t);
            let k: int = if u.clients > 0 {
                3
            } else {
                2
            };
            &&& rows.len() == k + 3 + progress_rows(t).len()
            &&& rows[0] == RowView::Heading("LocaDrive"@)
            &&& rows[1] == RowView::Line(u.instructions)
            &&& u.clients > 0 ==> rows[2] == RowView::GoodNews(
                "Clients connected: "@ + decimal(u.clients as nat),
            )
            &&& rows[k] == RowView::Line("Output to:"@)
            &&& rows[k + 1] == (RowView::FolderChoice {
                folders: u.folders,
                chosen: u.output,
                new_folder: u.new_dir,
            })
            &&& rows[k + 2] is FileChoice
            &&& forall|i: int|
                0 <= i < rows.len() ==> (#[trigger] rows[i] matches RowView::FileChoice { can_clear }
                    ==> {
                    &&& i == k + 2
                    &&& can_clear <==> u.downloads.len() > 0
                    &&& can_clear <==> told(u, MessageView::ClearDownloadPath).len() > 0
                })
            &&& forall|i: int|
                0 <= i < rows.len() && #[trigger] rows[i] is GoodNews ==> i == 2 && u.clients > 0
            &&& rows.skip(k + 3) == progress_rows(t)
        }),
{
    let rows = screen(u, t);
    let k: int = if u.clients > 0 {
        3
    } else {
        2
    };
    progress_is_progress(t, ascending(t.listed.dom()));
    assert(rows.skip(k + 3) =~= progress_rows(t));
    assert forall|i: int| k + 3 <= i < rows.len() implies is_progress(#[trigger] rows[i]) by {
        assert(progress_rows(t)[i - k - 3] == rows[i]);
        assert(is_progress(progress_rows(t)[i - k - 3]));
    }
}

/// A whole number of files is written in decimal, another as it was given.
pub proof fn counts_are_written(n: nat, text: Seq<char>)
    ensures
        written(FileCountView::Whole(n)) == decimal(n),
        written(FileCountView::Other(text)) == text,
{
}

/// The report of a crash begins with what is known of it and ends with the
/// backtrace, both unchanged, with one word between.
pub proof fn crash_report_holds_both(info: Seq<char>, backtrace: Seq<char>)
    ensures
        ({
            let report = crash_report(info, backtrace);
            &&& report.len() == info.len() + 4 + backtrace.len()
            &&& report.take(info.len() as int) == info
            &&& report.skip((info.len() + 4) as int) == backtrace
            &&& report.subrange(info.len() as int, (info.len() + 4) as int) == "zstd"@
        }),
{
    reveal_strlit("zstd");
    let report = crash_report(info, backtrace);
    assert(report.take(info.len() as int) =~= info);
    assert(report.skip((info.len() + 4) as int) =~= backtrace);
    assert(report.subrange(info.len() as int, (info.len() + 4) as int) =~= "zstd"@);
}

} // verus!
