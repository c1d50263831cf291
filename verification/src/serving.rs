//! How the desktop answers the browsers.

use axum::headers::{ContentEncoding, Header};
use axum::http::HeaderValue;
use vstd::prelude::*;
use vstd::string::*;
use vstd::utf8::encode_utf8;

use crate::links::{
    archive_name, file_name_of, is_archive_name, is_hash_of, lead_to, links_to_archive, LinksView,
};
use crate::message::{Message, MessageView};
use crate::numbers::{decimal, decimal_text, parse_number, parsed, written_number_parses};
use crate::text::{contains_text, occurs_in};
use crate::transfers::{
    closing_undoes_opening, fresh_batch, fresh_file, FileCount, FileCountView, Ticket, Transfers,
    TransfersView,
};
use crate::uploader::text_of;

verus! {

/// The values of a `Content-Encoding` header, as the crate `headers` reads them,
/// name a coding. There is no answer for values that no header can have.
pub uninterp spec fn names_coding(values: Seq<Seq<u8>>, coding: Seq<char>) -> Option<bool>;

/// A byte that the value of a header can have.
pub open spec fn is_header_byte(b: u8) -> bool {
    b == 0x9 || (b >= 0x20 && b != 0x7f)
}

/// A value that a header can have.
pub open spec fn is_header_value(value: Seq<u8>) -> bool {
    forall|i: int| 0 <= i < value.len() ==> is_header_byte(#[trigger] value[i])
}

/// The values of the `Content-Encoding` header of a file that is sent with
/// compression, or without.
pub open spec fn codings_sent(compress: bool) -> Seq<Seq<u8>> {
    if compress {
        seq![encode_utf8("zstd"@)]
    } else {
        Seq::empty()
    }
}

/// A word of letters, digits and hyphens, as codings are named by.
pub open spec fn is_token(word: Seq<char>) -> bool {
    &&& word.len() > 0
    &&& forall|i: int|
        0 <= i < word.len() ==> {
            ||| 'a' <= #[trigger] word[i] <= 'z'
            ||| 'A' <= word[i] <= 'Z'
            ||| '0' <= word[i] <= '9'
            ||| word[i] == '-'
        }
}

/// Calls `axum::headers::ContentEncoding::contains` on the header that
/// `axum::headers::Header::decode` makes of values, each a valid
/// `axum::http::HeaderValue`. One value that is a single word names that word
/// and no other coding, and no values do not name `zstd`.
#[verifier::external_body]
fn content_encoding_names(values: &Vec<Vec<u8>>, coding: &str) -> (res: Option<bool>)
    ensures
        res == names_coding(values.deep_view(), coding@),
        res is Some <==> (forall|i: int|
            0 <= i < values@.len() ==> is_header_value(#[trigger] values@[i]@)),
        forall|word: Seq<char>|
            is_token(word) && values.deep_view() == seq![#[trigger] encode_utf8(word)] ==> res
                == Some(word == coding@),
        coding@ == "zstd"@ && values@.len() == 0 ==> res == Some(false),
{
    let values: Result<Vec<HeaderValue>, _> =
        values.iter().map(|v| HeaderValue::from_bytes(v.as_slice())).collect();
    match values {
        Ok(values) => match ContentEncoding::decode(&mut values.iter()) {
            Ok(encoding) => Some(encoding.contains(coding)),
            Err(_) => None,
        },
        Err(_) => None,
    }
}

/// An upload that has been accepted: the right to report on it, the folder and
/// the name under which it is stored, and whether it is decompressed before.
pub struct Upload {
    pub ticket: Ticket,
    pub folder: String,
    pub file_name: String,
    pub decompress: bool,
}

/// The folder that uploads go to.
pub open spec fn folder_of(output: Option<Seq<char>>) -> Seq<char> {
    match output {
        Some(p) => p,
        None => "out"@,
    }
}

/// The batch that a text refers to: the text reads as a key in use.
pub open spec fn batch_of(t: TransfersView, key: Seq<char>) -> Option<usize> {
    match parsed(key, usize::MAX as nat) {
        Some(k) => if t.listed.contains_key(k as usize) {
            Some(k as usize)
        } else {
            None
        },
        None => None,
    }
}

/// A batch that has been announced: its key in decimal, and what the window is
/// told.
pub struct Announced {
    pub key: String,
    pub notice: Message,
}

/// The most files that are counted as a whole number. Up to it, every whole
/// number is also one in floating point of single precision.
pub const MOST_WHOLE: u64 = 16_777_216;

/// The number of files that `text` announces, where `float` is what it reads as
/// in floating point of single precision, written out, if it does: a whole
/// number as such, another number as it is written out.
pub open spec fn count_announced(text: Seq<char>, float: Option<Seq<char>>) -> Option<
    FileCountView,
> {
    match parsed(text, 16_777_216) {
        Some(n) => Some(FileCountView::Whole(n)),
        None => match float {
            Some(float) => Some(FileCountView::Other(float)),
            None => None,
        },
    }
}

/// Announces a batch whose number of files is written in `num_files`, where
/// `float` is what that reads as in floating point of single precision, written
/// out. Returns nothing, and changes nothing, if it is not a number.
pub fn announce(transfers: &mut Transfers, num_files: &str, float: Option<String>) -> (res: Option<
    Announced,
>)
    requires
        old(transfers).well_formed(),
        old(transfers)@.issued < u64::MAX,
    ensures
        final(transfers).well_formed(),
        match count_announced(num_files@, text_of(float)) {
            Some(count) => {
                &&& res is Some
                &&& res->0.key@ == decimal(old(transfers)@.vacant as nat)
                &&& res->0.notice@ == MessageView::Refresh
                &&& final(transfers)@ == old(transfers)@.opened(fresh_batch(count, 0))
            },
            None => res is None && final(transfers)@ == old(transfers)@,
        },
        res is Some ==> {
            let opened = final(transfers)@.listed[old(transfers)@.vacant];
            &&& !old(transfers)@.batches.contains_key(opened)
            &&& final(transfers)@.batches.contains_key(opened)
            &&& final(transfers)@.batches[opened].files_uploaded == 0
            &&& final(transfers)@.batches[opened].files.dom().len() == 0
            &&& final(transfers)@.batches.remove(opened) == old(transfers)@.batches
        },
{
    proof {
        transfers.well_formed_is_coherent();
        assert(!transfers@.batches.contains_key(transfers@.issued as u64));
        assert(Map::<usize, crate::transfers::FileView>::empty().dom() =~= Set::empty());
    }
    let count = match parse_number(num_files, MOST_WHOLE) {
        Some(n) => FileCount::Whole(n),
        None => match float {
            Some(float) => FileCount::Other(float),
            None => {
                return None;
            },
        },
    };
    let key = transfers.open_batch(count, 0);
    Some(Announced { key: decimal_text(key as u64), notice: Message::Refresh })
}

/// Reads the key of a batch.
fn read_key(key: &str) -> (res: Option<usize>)
    ensures
        match res {
            Some(k) => parsed(key@, usize::MAX as nat) == Some(k as nat),
            None => parsed(key@, usize::MAX as nat) is None,
        },
{
    match parse_number(key, usize::MAX as u64) {
        Some(k) => Some(k as usize),
        None => None,
    }
}

/// The transfers after a batch has been ended by its key.
pub open spec fn after_end(t: TransfersView, key: Seq<char>) -> TransfersView {
    match batch_of(t, key) {
        Some(k) => t.closed(k),
        None => t,
    }
}

/// Ends a batch. Returns what the window is told, or nothing if there was none
/// to end.
pub fn end_batch(transfers: &mut Transfers, key: &str) -> (res: Option<Message>)
    requires
        old(transfers).well_formed(),
    ensures
        final(transfers).well_formed(),
        res is Some == batch_of(old(transfers)@, key@) is Some,
        res is Some ==> res->0@ == MessageView::Refresh,
        final(transfers)@ == after_end(old(transfers)@, key@),
        final(transfers)@ == (match batch_of(old(transfers)@, key@) {
            Some(k) => old(transfers)@.closed(k),
            None => old(transfers)@,
        }),
{
    match read_key(key) {
        Some(k) => if transfers.batch_at(k).is_some() {
            transfers.close_batch(k);
            Some(Message::Refresh)
        } else {
            None
        },
        None => None,
    }
}

/// An upload has been stored: it is counted, and the window is told.
pub fn end_upload(transfers: &mut Transfers, ticket: Ticket) -> (res: Message)
    requires
        old(transfers).well_formed(),
    ensures
        final(transfers).well_formed(),
        final(transfers)@ == old(transfers)@.finished(ticket),
        res@ == MessageView::Refresh,
{
    transfers.finish_file(ticket);
    Message::Refresh
}

/// Whether an upload with these values of its `Content-Encoding` header is to
/// be decompressed; nothing if no header can have such values.
pub fn decompresses(encodings: &Vec<Vec<u8>>) -> (res: Option<bool>)
    ensures
        res == names_coding(encodings.deep_view(), "zstd"@),
        res is Some <==> (forall|i: int|
            0 <= i < encodings@.len() ==> is_header_value(#[trigger] encodings@[i]@)),
        forall|word: Seq<char>|
            is_token(word) && encodings.deep_view() == seq![#[trigger] encode_utf8(word)] ==> res
                == Some(word == "zstd"@),
        forall|compress: bool|
            encodings.deep_view() == #[trigger] codings_sent(compress) ==> res == Some(compress),
{
    proof {
        reveal_strlit("zstd");
        assert(is_token("zstd"@));
        assert(codings_sent(false).len() == 0);
    }
    content_encoding_names(encodings, "zstd")
}

/// What comes of an upload of a file: it is accepted if `key` refers to a batch,
/// and entered there; else nothing changes.
pub open spec fn takes_upload(
    before: TransfersView,
    output: Option<Seq<char>>,
    key: Seq<char>,
    file_name: Seq<char>,
    content_length: nat,
    decompress: bool,
    res: Option<Upload>,
    after: TransfersView,
) -> bool {
    match batch_of(before, key) {
        Some(k) => {
            &&& res is Some
            &&& res->0.ticket.batch == before.listed[k]
            &&& res->0.ticket.file == before.batches[res->0.ticket.batch].vacant
            &&& res->0.folder@ == folder_of(output)
            &&& res->0.file_name@ == file_name
            &&& res->0.decompress == decompress
            &&& after == before.begun(
                k,
                fresh_file("Upload: "@ + file_name, content_length),
            )
        },
        None => res is None && after == before,
    }
}

/// Accepts an upload of a file to a batch, or does not if `key` does not refer
/// to one.
pub fn accept_upload(
    transfers: &mut Transfers,
    output: &Option<String>,
    key: &str,
    file_name: &str,
    content_length: u64,
    decompress: bool,
) -> (res: Option<Upload>)
    requires
        old(transfers).well_formed(),
        old(transfers)@.issued < u64::MAX,
    ensures
        final(transfers).well_formed(),
        takes_upload(
            old(transfers)@,
            text_of(*output),
            key@,
            file_name@,
            content_length as nat,
            decompress,
            res,
            final(transfers)@,
        ),
        res is Some ==> {
            &&& res->0.decompress == decompress
            &&& res->0.file_name@ == file_name@
            &&& output matches Some(p) ==> res->0.folder@ == p@
            &&& output is None ==> res->0.folder@ == "out"@
            &&& final(transfers)@.under_way(res->0.ticket)
            &&& !old(transfers)@.under_way(res->0.ticket)
        },
        res is None ==> final(transfers)@ == old(transfers)@,
{
    let k: usize = match read_key(key) {
        Some(k) => k,
        None => {
            return None;
        },
    };
    let name = "Upload: ".to_owned().concat(file_name);
    match transfers.begin_file(k, name, content_length) {
        Some(ticket) => {
            let folder = match output {
                Some(p) => p.clone(),
                None => "out".to_owned(),
            };
            Some(Upload { ticket, folder, file_name: file_name.to_owned(), decompress })
        },
        None => None,
    }
}

/// Takes in an upload of a file with the given values of its `Content-Encoding`
/// header. It is decompressed exactly when the browser compressed it.
pub fn receive_upload(
    transfers: &mut Transfers,
    output: &Option<String>,
    key: &str,
    file_name: &str,
    content_length: u64,
    encodings: &Vec<Vec<u8>>,
) -> (res: Option<Upload>)
    requires
        old(transfers).well_formed(),
        old(transfers)@.issued < u64::MAX,
    ensures
        final(transfers).well_formed(),
        match names_coding(encodings.deep_view(), "zstd"@) {
            Some(decompress) => takes_upload(
                old(transfers)@,
                text_of(*output),
                key@,
                file_name@,
                content_length as nat,
                decompress,
                res,
                final(transfers)@,
            ),
            None => res is None && final(transfers)@ == old(transfers)@,
        },
        forall|compress: bool|
            encodings.deep_view() == #[trigger] codings_sent(compress) ==> takes_upload(
                old(transfers)@,
                text_of(*output),
                key@,
                file_name@,
                content_length as nat,
                compress,
                res,
                final(transfers)@,
            ),
        res is Some ==> {
            &&& names_coding(encodings.deep_view(), "zstd"@) == Some(res->0.decompress)
            &&& res->0.file_name@ == file_name@
            &&& output matches Some(p) ==> res->0.folder@ == p@
            &&& output is None ==> res->0.folder@ == "out"@
            &&& final(transfers)@.under_way(res->0.ticket)
            &&& !old(transfers)@.under_way(res->0.ticket)
        },
        res is Some && encodings@.len() == 0 ==> !res->0.decompress,
        forall|word: Seq<char>|
            res is Some && is_token(word) && encodings.deep_view() == seq![
                #[trigger] encode_utf8(word),
            ] ==> res->0.decompress == (word == "zstd"@),
        res is None ==> final(transfers)@ == old(transfers)@,
{
    assert(encodings@.len() == 0 ==> encodings.deep_view() =~= codings_sent(false));
    match decompresses(encodings) {
        Some(decompress) => accept_upload(
            transfers,
            output,
            key,
            file_name,
            content_length,
            decompress,
        ),
        None => None,
    }
}

/// How an archive is compressed.
#[derive(Debug, Clone, Copy, PartialEq, Eq, Structural)]
pub enum Compression {
    Zstd,
    Gzip,
    Uncompressed,
}

/// What is sent for a download.
#[derive(Debug, PartialEq, Eq)]
pub enum Reply {
    /// Nothing.
    Empty,
    /// The file at this path.
    File(String),
    /// An archive of all files on offer.
    Archive(Compression),
}

/// A reply with its text as a character sequence.
pub enum ReplyView {
    Empty,
    File(Seq<char>),
    Archive(Compression),
}

impl View for Reply {
    type V = ReplyView;

    open spec fn view(&self) -> ReplyView {
        match self {
            Reply::Empty => ReplyView::Empty,
            Reply::File(p) => ReplyView::File(p@),
            Reply::Archive(c) => ReplyView::Archive(*c),
        }
    }
}

/// The compression that a browser gets which accepts these encodings.
pub open spec fn compression_for(accepted: Option<Seq<char>>) -> Compression {
    match accepted {
        Some(a) => if occurs_in("zstd"@, a) {
            Compression::Zstd
        } else if occurs_in("gzip"@, a) {
            Compression::Gzip
        } else {
            Compression::Uncompressed
        },
        None => Compression::Uncompressed,
    }
}

/// What is sent for a download of the files on offer.
pub open spec fn reply_for(paths: Seq<Seq<char>>, accepted: Option<Seq<char>>) -> ReplyView {
    if paths.len() == 0 {
        ReplyView::Empty
    } else if paths.len() == 1 {
        ReplyView::File(paths[0])
    } else {
        ReplyView::Archive(compression_for(accepted))
    }
}

/// The characters of an optional text.
pub open spec fn str_of(t: Option<&str>) -> Option<Seq<char>> {
    match t {
        Some(t) => Some(t@),
        None => None,
    }
}

/// What is sent for a download of the files on offer.
pub fn download(paths: &Vec<String>, accepted: Option<&str>) -> (res: Reply)
    ensures
        res@ == reply_for(paths.deep_view(), str_of(accepted)),
        paths@.len() == 0 ==> res is Empty,
        paths@.len() == 1 ==> (res matches Reply::File(path) && path@ == paths@[0]@),
        paths@.len() >= 2 ==> res is Archive,
        paths@.len() >= 2 ==> (res->Archive_0 is Zstd <==> accepted is Some && occurs_in(
            "zstd"@,
            accepted->0@,
        )),
        paths@.len() >= 2 ==> (res->Archive_0 is Gzip <==> accepted is Some && occurs_in(
            "gzip"@,
            accepted->0@,
        ) && !occurs_in("zstd"@, accepted->0@)),
{
    if paths.len() == 0 {
        Reply::Empty
    } else if paths.len() == 1 {
        Reply::File(paths[0].clone())
    } else {
        let compression = match accepted {
            Some(a) => if contains_text(a, "zstd") {
                Compression::Zstd
            } else if contains_text(a, "gzip") {
                Compression::Gzip
            } else {
                Compression::Uncompressed
            },
            None => Compression::Uncompressed,
        };
        Reply::Archive(compression)
    }
}

/// What a reply says of its encoding.
pub open spec fn coding_named(c: Compression) -> Option<Seq<char>> {
    match c {
        Compression::Zstd => Some("zstd"@),
        Compression::Gzip => Some("gzip"@),
        Compression::Uncompressed => None,
    }
}

impl Compression {
    /// What the reply says of its encoding.
    pub fn content_encoding(self) -> (res: Option<&'static str>)
        ensures
            str_of(res) == coding_named(self),
            str_of(res) == (match self {
                Compression::Zstd => Some("zstd"@),
                Compression::Gzip => Some("gzip"@),
                Compression::Uncompressed => None,
            }),
    {
        match self {
            Compression::Zstd => Some("zstd"),
            Compression::Gzip => Some("gzip"),
            Compression::Uncompressed => None,
        }
    }
}

/// The addresses under which the files on offer are sent as an archive in one
/// compression, whatever the browser accepts.
#[derive(Debug, Clone, Copy, PartialEq, Eq, Structural)]
pub enum ArchiveRoute {
    Zst,
    Gz,
}

impl ArchiveRoute {
    /// What the addresses begin with.
    pub open spec fn prefix(self) -> Seq<char> {
        match self {
            ArchiveRoute::Zst => "/dl/zstd/"@,
            ArchiveRoute::Gz => "/dl/gz/"@,
        }
    }

    /// How the archive is compressed.
    pub open spec fn compresses_by(self) -> Compression {
        match self {
            ArchiveRoute::Zst => Compression::Zstd,
            ArchiveRoute::Gz => Compression::Gzip,
        }
    }

    /// The pattern of the addresses: one part follows what they begin with.
    pub fn pattern(self) -> (res: &'static str)
        ensures
            res@ == self.prefix() + ":file_id"@,
    {
        proof {
            reveal_strlit(":file_id");
            reveal_strlit("/dl/zstd/");
            reveal_strlit("/dl/gz/");
            reveal_strlit("/dl/zstd/:file_id");
            reveal_strlit("/dl/gz/:file_id");
            assert("/dl/zstd/:file_id"@ =~= "/dl/zstd/"@ + ":file_id"@);
            assert("/dl/gz/:file_id"@ =~= "/dl/gz/"@ + ":file_id"@);
        }
        match self {
            ArchiveRoute::Zst => "/dl/zstd/:file_id",
            ArchiveRoute::Gz => "/dl/gz/:file_id",
        }
    }

    /// How the archive is compressed.
    pub fn compression(self) -> (res: Compression)
        ensures
            res == self.compresses_by(),
    {
        match self {
            ArchiveRoute::Zst => Compression::Zstd,
            ArchiveRoute::Gz => Compression::Gzip,
        }
    }
}

/// The links to the files on offer say what the browser gets there. The first
/// leads to the file itself under its name if there is one, and to an archive
/// with a name that ends in `.tar` if there are more. The others lead, under the
/// same name, to an archive that is compressed as the ends of their names say.
pub proof fn link_says_what_is_sent(
    paths: Seq<Seq<char>>,
    links: LinksView,
    accepted: Option<Seq<char>>,
)
    requires
        paths.len() > 0,
        lead_to(links, paths),
    ensures
        paths.len() == 1 ==> reply_for(paths, accepted) == ReplyView::File(paths[0]),
        paths.len() > 1 ==> reply_for(paths, accepted) is Archive,
        exists|name: Seq<char>|
            {
                &&& links.uncompressed == #[trigger] ("/dl/"@ + name) + (if paths.len() == 1 {
                    Seq::empty()
                } else {
                    ".tar"@
                })
                &&& links.zst == ArchiveRoute::Zst.prefix() + name + ".tar.zst"@
                &&& links.gz == ArchiveRoute::Gz.prefix() + name + ".tar.gz"@
                &&& if paths.len() == 1 {
                    name == file_name_of(paths[0])
                } else {
                    is_archive_name(name)
                }
            },
        ArchiveRoute::Zst.compresses_by() == Compression::Zstd,
        ArchiveRoute::Gz.compresses_by() == Compression::Gzip,
{
    if paths.len() > 1 {
        let hash = choose|hash: Seq<u8>|
            {
                &&& is_hash_of(hash, paths)
                &&& is_archive_name(archive_name(hash))
                &&& links == links_to_archive(#[trigger] archive_name(hash))
            };
        assert(links.uncompressed == ("/dl/"@ + archive_name(hash)) + ".tar"@);
    } else {
        let link = "/dl/"@ + file_name_of(paths[0]);
        assert(links.uncompressed =~= link + Seq::empty());
    }
}

/// The key that an announcement is answered with refers to the batch that it
/// opened.
pub proof fn answer_refers_to_its_batch(t: TransfersView, num_files: FileCountView)
    ensures
        batch_of(t.opened(fresh_batch(num_files, 0)), decimal(t.vacant as nat)) == Some(t.vacant),
{
    written_number_parses(t.vacant as nat, usize::MAX as nat);
}

/// Ending a batch by the key that its announcement was answered with undoes the
/// announcement: the batches and their keys are what they were before.
pub proof fn ending_undoes_announcing(t: TransfersView, num_files: FileCountView)
    requires
        t.coherent(),
        t.issued < u64::MAX,
    ensures
        ({
            let announced = t.opened(fresh_batch(num_files, 0));
            let key = batch_of(announced, decimal(t.vacant as nat));
            &&& key is Some
            &&& announced.closed(key->0).batches == t.batches
            &&& announced.closed(key->0).listed == t.listed
            &&& announced.closed(key->0).vacant == t.vacant
        }),
{
    answer_refers_to_its_batch(t, num_files);
    closing_undoes_opening(t, fresh_batch(num_files, 0));
}

/// An archive is compressed in a way that the browser accepts. For two or more
/// files it is `zstd` exactly if the text `zstd` occurs in what the browser says
/// it accepts, `gzip` exactly if `gzip` does and `zstd` does not, and else there
/// is no compression. The coding that the reply names occurs in what the browser
/// says, and one is named exactly if the archive is compressed.
pub proof fn archive_is_in_an_accepted_coding(
    paths: Seq<Seq<char>>,
    accepted: Option<Seq<char>>,
)
    requires
        paths.len() >= 2,
    ensures
        ({
            let reply = reply_for(paths, accepted);
            let says_zstd = accepted is Some && occurs_in("zstd"@, accepted->0);
            let says_gzip = accepted is Some && occurs_in("gzip"@, accepted->0);
            &&& reply is Archive
            &&& reply->Archive_0 is Zstd <==> says_zstd
            &&& reply->Archive_0 is Gzip <==> says_gzip && !says_zstd
            &&& reply->Archive_0 is Uncompressed <==> !says_zstd && !says_gzip
            &&& coding_named(reply->Archive_0) is Some ==> accepted is Some && occurs_in(
                coding_named(reply->Archive_0)->0,
                accepted->0,
            )
            &&& coding_named(reply->Archive_0) is None <==> reply->Archive_0 is Uncompressed
        }),
{
}

/// What the browser accepts decides nothing about a single file, which is sent as
/// it is, nor about no file; and which files there are decides nothing about the
/// compression of an archive.
pub proof fn only_an_archive_is_compressed(
    paths: Seq<Seq<char>>,
    others: Seq<Seq<char>>,
    accepted: Option<Seq<char>>,
    else_accepted: Option<Seq<char>>,
)
    ensures
        paths.len() == 0 ==> reply_for(paths, accepted) is Empty,
        paths.len() == 1 ==> reply_for(paths, accepted) == ReplyView::File(paths[0]),
        paths.len() <= 1 ==> reply_for(paths, accepted) == reply_for(paths, else_accepted),
        paths.len() >= 2 && others.len() >= 2 ==> reply_for(paths, accepted) == reply_for(
            others,
            accepted,
        ),
{
}

/// An upload that is taken in is decompressed exactly when it was said to be
/// compressed, is stored under the name that was sent, in the output folder, or
/// in `out` if there is none; and whether it is taken in depends on its key alone.
/// It is entered in the batch under that key, under a name that tells what it is,
/// with its size and with no bytes counted; nothing else changes.
pub proof fn upload_is_what_was_sent(
    before: TransfersView,
    output: Option<Seq<char>>,
    key: Seq<char>,
    file_name: Seq<char>,
    content_length: nat,
    decompress: bool,
    res: Option<Upload>,
    after: TransfersView,
)
    requires
        takes_upload(
            before,
            output,
            key,
            file_name,
            content_length,
            decompress,
            res,
            after,
        ),
        before.coherent(),
    ensures
        res is Some <==> (exists|k: usize|
            before.listed.contains_key(k) && #[trigger] parsed(key, usize::MAX as nat) == Some(
                k as nat,
            )),
        res is None ==> after == before,
        res is Some ==> {
            let upload = res->0;
            let id = upload.ticket.batch;
            &&& upload.decompress == decompress
            &&& upload.file_name@ == file_name
            &&& output is Some ==> upload.folder@ == output->0
            &&& output is None ==> upload.folder@ == "out"@
            &&& before.batches.contains_key(id)
            &&& parsed(key, usize::MAX as nat) is Some
            &&& before.listed[parsed(key, usize::MAX as nat)->0 as usize] == id
            &&& !before.under_way(upload.ticket)
            &&& after.under_way(upload.ticket)
            &&& after.batches[id].files[upload.ticket.file].name.skip(8) == file_name
            &&& after.batches[id].files[upload.ticket.file].name.take(8) == seq![
                'U', 'p', 'l', 'o', 'a', 'd', ':', ' ',
            ]
            &&& after.batches[id].files[upload.ticket.file].num_bytes == content_length
            &&& after.batches[id].files[upload.ticket.file].bytes_uploaded == 0
            &&& after.batches[id].files.remove(upload.ticket.file) == before.batches[id].files
            &&& after.batches[id].files_uploaded == before.batches[id].files_uploaded
            &&& after.batches[id].num_files == before.batches[id].num_files
            &&& after.batches.remove(id) == before.batches.remove(id)
            &&& after.listed == before.listed
        },
{
    let k = parsed(key, usize::MAX as nat);
    if k is Some && before.listed.contains_key(k->0 as usize) {
        let id = before.listed[k->0 as usize];
        let batch = before.batches[id];
        assert(batch.coherent());
        crate::keys::vacant_is_not_used(batch.files.dom(), batch.freed, batch.vacant);
        assert(after.batches[id].files.remove(batch.vacant) =~= batch.files);
        assert(after.batches.remove(id) =~= before.batches.remove(id));
        reveal_strlit("Upload: ");
        let name = after.batches[id].files[batch.vacant].name;
        assert(name.skip(8) =~= file_name);
        assert(name.take(8) =~= seq!['U', 'p', 'l', 'o', 'a', 'd', ':', ' ']);
        assert(parsed(key, usize::MAX as nat) == Some((k->0 as usize) as nat));
    }
}

/// A key that is written in decimal refers to a batch exactly if it is in use;
/// and what refers to a batch reads as its key.
pub proof fn keys_refer_to_batches(t: TransfersView, k: usize, key: Seq<char>)
    ensures
        batch_of(t, decimal(k as nat)) == (if t.listed.contains_key(k) {
            Some(k)
        } else {
            None
        }),
        batch_of(t, key) is Some ==> t.listed.contains_key(batch_of(t, key)->0) && parsed(
            key,
            usize::MAX as nat,
        ) == Some(batch_of(t, key)->0 as nat),
        parsed(key, usize::MAX as nat) is None ==> batch_of(t, key) is None,
{
    written_number_parses(k as nat, usize::MAX as nat);
}

/// A whole number that is announced is the number of files, whatever it reads as
/// in floating point; another number is taken as it is written out; and what is
/// no number is not taken.
pub proof fn announced_number_is_taken(n: nat, text: Seq<char>, float: Option<Seq<char>>)
    ensures
        n <= 16_777_216 ==> count_announced(decimal(n), float) == Some(FileCountView::Whole(n)),
        parsed(text, 16_777_216) is None && float is Some ==> count_announced(text, float) == Some(
            FileCountView::Other(float->0),
        ),
        count_announced(text, float) is None <==> parsed(text, 16_777_216) is None && float is None,
{
    if n <= 16_777_216 {
        written_number_parses(n, 16_777_216);
    }
}

/// Ending a batch by its key takes that batch away and leaves the others under
/// their keys and as they are; a text that refers to no batch changes nothing.
pub proof fn end_takes_one_batch(t: TransfersView, k: usize, key: Seq<char>)
    requires
        t.coherent(),
    ensures
        t.listed.contains_key(k) ==> {
            let after = after_end(t, decimal(k as nat));
            &&& !after.listed.contains_key(k)
            &&& !after.batches.contains_key(t.listed[k])
            &&& forall|j: usize| #[trigger]
                t.listed.contains_key(j) && j != k ==> {
                    &&& after.listed.contains_key(j)
                    &&& after.listed[j] == t.listed[j]
                    &&& after.batches[after.listed[j]] == t.batches[t.listed[j]]
                }
        },
        !t.listed.contains_key(k) ==> after_end(t, decimal(k as nat)) == t,
        parsed(key, usize::MAX as nat) is None ==> after_end(t, key) == t,
{
    keys_refer_to_batches(t, k, key);
    if t.listed.contains_key(k) {
        crate::transfers::closing_keeps_others(t, k);
    }
}

} // verus!
