//! How a browser sends files to the desktop: it announces a batch, sends each
//! file under the key of the batch, and ends the batch.

use vstd::prelude::*;
use vstd::string::*;

use crate::numbers::{decimal, decimal_text, parse_number, parsed, written_number_parses};
use crate::text::{begins_with, same_text};

verus! {

/// What `deunicode::deunicode` makes of a text.
pub uninterp spec fn transliterated(text: Seq<char>) -> Seq<char>;

/// Every character of `text` comes before DEL in ASCII.
pub open spec fn is_plain_ascii(text: Seq<char>) -> bool {
    forall|i: int| 0 <= i < text.len() ==> (#[trigger] text[i] as int) < 0x7f
}

/// Calls `deunicode::deunicode`, which writes a text in ASCII. A text of ASCII
/// characters before DEL stays as it is.
#[verifier::external_body]
fn transliterate(text: &str) -> (res: String)
    ensures
        res@ == transliterated(text@),
        forall|i: int| 0 <= i < res@.len() ==> (#[trigger] res@[i] as int) < 0x80,
        is_plain_ascii(text@) ==> res@ == text@,
{
    deunicode::deunicode(text)
}

/// A type of file that is compressed already.
pub open spec fn is_compressed_type(file_type: Seq<char>) -> bool {
    ||| "image"@.is_prefix_of(file_type)
    ||| "video"@.is_prefix_of(file_type)
    ||| "audio"@.is_prefix_of(file_type) && file_type != "audio/wav"@
}

/// The address for the uploads of a batch, or for the announcement of one.
pub open spec fn upload_url(n: nat) -> Seq<char> {
    "/upload/"@ + decimal(n)
}

/// The last part of an address for uploads.
pub open spec fn url_tail(url: Seq<char>) -> Seq<char> {
    url.skip("/upload/"@.len() as int)
}

/// How a file is sent.
#[derive(Debug, PartialEq, Eq)]
pub struct FileUpload {
    /// The name to send along, in ASCII.
    pub file_name: String,
    /// Whether the file is compressed on the way.
    pub compress: bool,
    /// Where it is sent.
    pub url: String,
}

/// Whether files of a type are compressed already.
pub fn compressed_type(file_type: &str) -> (res: bool)
    ensures
        res == is_compressed_type(file_type@),
{
    begins_with(file_type, "image") || begins_with(file_type, "video") || (begins_with(
        file_type,
        "audio",
    ) && !same_text(file_type, "audio/wav"))
}

/// The address at which a batch of files is announced.
pub fn announcement_url(num_files: u32) -> (res: String)
    ensures
        res@ == upload_url(num_files as nat),
{
    "/upload/".to_owned().concat(decimal_text(num_files as u64).as_str())
}

/// Reads the key that the desktop gave to an announced batch.
pub fn read_batch_key(text: &str) -> (res: Option<u64>)
    ensures
        match res {
            Some(key) => parsed(text@, u64::MAX as nat) == Some(key as nat),
            None => parsed(text@, u64::MAX as nat) is None,
        },
{
    parse_number(text, u64::MAX)
}

/// The address at which the files of a batch are sent, and at which it is ended.
pub fn batch_url(key: u64) -> (res: String)
    ensures
        res@ == upload_url(key as nat),
{
    "/upload/".to_owned().concat(decimal_text(key).as_str())
}

/// Whether a file is compressed on the way, by its name and type.
pub open spec fn is_sent_compressed(name: Seq<char>, file_type: Seq<char>) -> bool {
    !is_compressed_type(file_type)
}

/// How a file of a batch is sent.
pub fn file_upload(key: u64, name: &str, file_type: &str) -> (res: FileUpload)
    ensures
        res.file_name@ == transliterated(name@),
        forall|i: int| 0 <= i < res.file_name@.len() ==> (#[trigger] res.file_name@[i] as int) < 0x80,
        is_plain_ascii(name@) ==> res.file_name@ == name@,
        res.compress == !is_compressed_type(file_type@),
        res.compress == is_sent_compressed(name@, file_type@),
        res.url@ == upload_url(key as nat),
{
    FileUpload {
        file_name: transliterate(name),
        compress: !compressed_type(file_type),
        url: batch_url(key),
    }
}

/// What is sent to the address of a batch reaches that batch: the last part of
/// the address reads as its key.
pub proof fn batch_url_reads_as_its_key(key: nat, max: nat)
    requires
        key <= max,
    ensures
        parsed(url_tail(upload_url(key)), max) == Some(key),
{
    assert(url_tail(upload_url(key)) =~= decimal(key));
    written_number_parses(key, max);
}

/// Images and videos, and sounds but for `audio/wav`, are taken to be compressed,
/// whatever kind of image, video or sound they are; nothing else is.
pub proof fn media_are_compressed(file_type: Seq<char>, rest: Seq<char>)
    ensures
        is_compressed_type("image"@ + rest),
        is_compressed_type("video"@ + rest),
        is_compressed_type("audio"@ + rest) <==> rest != "/wav"@,
        is_compressed_type(file_type) ==> file_type.len() >= 5 && (file_type.take(5) == "image"@
            || file_type.take(5) == "video"@ || file_type.take(5) == "audio"@),
{
    reveal_strlit("image");
    reveal_strlit("video");
    reveal_strlit("audio");
    reveal_strlit("/wav");
    reveal_strlit("audio/wav");
    assert(("image"@ + rest).subrange(0, 5) =~= "image"@);
    assert(("video"@ + rest).subrange(0, 5) =~= "video"@);
    assert(("audio"@ + rest).subrange(0, 5) =~= "audio"@);
    assert("audio/wav"@ =~= "audio"@ + "/wav"@);
    assert(("audio"@ + rest).skip(5) =~= rest);
    assert(("audio"@ + "/wav"@).skip(5) =~= "/wav"@);
    let sound = "audio"@ + rest;
    assert(sound[0] == 'a');
    if file_type.len() >= 5 {
        assert(file_type.take(5) =~= file_type.subrange(0, 5));
    }
    assert(!("image"@ =~= sound.subrange(0, 5))) by {
        assert(sound.subrange(0, 5)[0] == 'a');
    }
    assert(!("video"@ =~= sound.subrange(0, 5))) by {
        assert(sound.subrange(0, 5)[0] == 'a');
    }
}

/// Batches have different addresses, each of which begins with `/upload/` and has
/// one more part.
pub proof fn addresses_tell_batches_apart(m: nat, n: nat)
    ensures
        upload_url(m) == upload_url(n) ==> m == n,
        upload_url(n).len() > 8,
        upload_url(n).take(8) == "/upload/"@,
        !upload_url(n).skip(8).contains('/'),
{
    reveal_strlit("/upload/");
    assert(upload_url(n).take(8) =~= "/upload/"@);
    assert(upload_url(n).skip(8) =~= decimal(n));
    assert(upload_url(m).skip(8) =~= decimal(m));
    crate::numbers::decimal_reads_back(m);
    crate::numbers::decimal_reads_back(n);
    assert forall|i: int| 0 <= i < decimal(n).len() implies decimal(n)[i] != '/' by {
        assert(crate::numbers::is_digit(decimal(n)[i]));
    }
}

/// Every file is compressed on the way but for images, videos and sounds other
/// than `audio/wav`, whatever it is called.
pub proof fn type_decides_on_compression(
    name: Seq<char>,
    other: Seq<char>,
    file_type: Seq<char>,
    rest: Seq<char>,
)
    ensures
        is_sent_compressed(name, file_type) == is_sent_compressed(other, file_type),
        !is_sent_compressed(name, "image"@ + rest),
        !is_sent_compressed(name, "video"@ + rest),
        is_sent_compressed(name, "audio"@ + rest) <==> rest == "/wav"@,
        file_type.len() < 5 || (file_type.take(5) != "image"@ && file_type.take(5) != "video"@
            && file_type.take(5) != "audio"@) ==> is_sent_compressed(name, file_type),
{
    media_are_compressed(file_type, rest);
}

} // verus!
