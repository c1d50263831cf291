//! The links under which the files on offer can be downloaded.

use std::collections::hash_map::DefaultHasher;
use std::hash::{Hash, Hasher};

use base64::alphabet::URL_SAFE;
use base64::engine::{GeneralPurpose, GeneralPurposeConfig};
use base64::Engine;
use vstd::bytes::spec_u64_to_le_bytes;
use vstd::prelude::*;
use vstd::std_specs::hash::DefaultHasherAdditionalSpecFns;
use vstd::string::*;
use vstd::utf8::*;

use crate::encoding::{ascii, boundary_behind_ascii, byte_of, character_at};
use crate::text::chars_of;

verus! {

/// The byte of `/`.
const SLASH: u8 = 0x2f;

/// The byte of `\`.
const BACKSLASH: u8 = 0x5c;

/// The byte of `=`.
const EQUALS: u8 = 0x3d;

/// `memchr::memchr` finds the first place of a byte, if there is one.
pub assume_specification[ memchr::memchr ](needle: u8, haystack: &[u8]) -> (res: Option<usize>)
    ensures
        match res {
            Some(i) => {
                &&& i < haystack@.len()
                &&& haystack@[i as int] == needle
                &&& forall|k: int| 0 <= k < i ==> haystack@[k] != needle
            },
            None => forall|k: int| 0 <= k < haystack@.len() ==> haystack@[k] != needle,
        },
;

/// `memchr::memrchr` finds the last place of a byte, if there is one.
pub assume_specification[ memchr::memrchr ](needle: u8, haystack: &[u8]) -> (res: Option<usize>)
    ensures
        match res {
            Some(i) => {
                &&& i < haystack@.len()
                &&& haystack@[i as int] == needle
                &&& forall|k: int| i < k < haystack@.len() ==> haystack@[k] != needle
            },
            None => forall|k: int| 0 <= k < haystack@.len() ==> haystack@[k] != needle,
        },
;

/// The byte at a place, or 0 behind the last.
pub open spec fn byte_or_zero(bytes: Seq<u8>, i: int) -> int {
    if i < bytes.len() {
        bytes[i] as int
    } else {
        0
    }
}

/// The number that the six bits make from `6 * i` on, of bytes one behind the
/// other with the highest bit of each first.
pub open spec fn sextet(bytes: Seq<u8>, i: int) -> int {
    let first = byte_or_zero(bytes, i / 4 * 3);
    let second = byte_or_zero(bytes, i / 4 * 3 + 1);
    let third = byte_or_zero(bytes, i / 4 * 3 + 2);
    if i % 4 == 0 {
        first / 4
    } else if i % 4 == 1 {
        first % 4 * 16 + second / 16
    } else if i % 4 == 2 {
        second % 16 * 4 + third / 64
    } else {
        third % 64
    }
}

/// The character for six bits: capital letters, small letters, digits, `-` and
/// `_`, in this order.
pub open spec fn url_char(n: int) -> char {
    if n < 26 {
        ('A' as int + n) as char
    } else if n < 52 {
        ('a' as int + n - 26) as char
    } else if n < 62 {
        ('0' as int + n - 52) as char
    } else if n == 62 {
        '-'
    } else {
        '_'
    }
}

/// How many characters bytes are encoded as, without the padding.
pub open spec fn unpadded_len(len: nat) -> nat {
    (len * 4 + 2) / 3
}

/// Bytes in padded, URL-safe Base64: a character for each six bits, and `=` up to
/// a multiple of four characters.
pub open spec fn base64_url(bytes: Seq<u8>) -> Seq<char> {
    Seq::new(
        (bytes.len() + 2) / 3 * 4,
        |i: int|
            if i < unpadded_len(bytes.len()) {
                url_char(sextet(bytes, i))
            } else {
                '='
            },
    )
}

/// `c` is a letter, a digit, `-` or `_`.
pub open spec fn is_url_safe(c: char) -> bool {
    ||| 'A' <= c <= 'Z'
    ||| 'a' <= c <= 'z'
    ||| '0' <= c <= '9'
    ||| c == '-'
    ||| c == '_'
}

/// Calls `base64::Engine::encode` of a `GeneralPurpose` engine with the alphabet
/// `URL_SAFE` and the default configuration, which pads. It panics where the
/// result would be too long to be held.
#[verifier::external_body]
pub(crate) fn encode_base64_url(bytes: &[u8]) -> (res: String)
    requires
        (bytes@.len() + 2) / 3 * 4 <= isize::MAX,
    ensures
        res@ == base64_url(bytes@),
{
    GeneralPurpose::new(&URL_SAFE, GeneralPurposeConfig::new()).encode(bytes)
}

/// Six bits make a number below 64, whose character is safe in addresses.
proof fn sextet_is_url_safe(bytes: Seq<u8>, i: int)
    requires
        0 <= i,
    ensures
        0 <= sextet(bytes, i) < 64,
        is_url_safe(url_char(sextet(bytes, i))),
{
}

/// What is fed to a hasher for a list of names, by a machine whose words have so
/// many bits and begin with the highest byte, or with the lowest.
pub uninterp spec fn names_fed(names: Seq<Seq<char>>, bits: nat, highest_first: bool) -> Seq<
    Seq<u8>,
>;

/// Calls `std::hash::Hash::hash` of a list of names, which feeds it to a hasher.
/// What is fed depends on the names and, because the length of the list is fed
/// as a word, on the words of the machine; nothing is said of it beyond that.
#[verifier::external_body]
fn feed_names(names: &Vec<String>, hasher: &mut DefaultHasher)
    ensures
        exists|highest_first: bool|
            final(hasher)@ == old(hasher)@ + #[trigger] names_fed(
                names.deep_view(),
                usize::BITS as nat,
                highest_first,
            ),
{
    names.hash(hasher)
}

/// Calls `u64::to_ne_bytes`, which gives the eight bytes of a number in the
/// order of the machine: the lowest first, or the highest first.
#[verifier::external_body]
fn native_bytes(n: u64) -> (res: Vec<u8>)
    ensures
        res@ == spec_u64_to_le_bytes(n) || res@ == spec_u64_to_le_bytes(n).reverse(),
{
    n.to_ne_bytes().to_vec()
}

/// The characters of `s` before the first `c`.
pub open spec fn before_first(s: Seq<char>, c: char) -> Seq<char>
    decreases s.len(),
{
    if s.len() == 0 || s[0] == c {
        Seq::empty()
    } else {
        seq![s[0]] + before_first(s.drop_first(), c)
    }
}

/// The characters of `s` behind the last `c`.
pub open spec fn after_last(s: Seq<char>, c: char) -> Seq<char>
    decreases s.len(),
{
    if s.len() == 0 || s.last() == c {
        Seq::empty()
    } else {
        after_last(s.drop_last(), c).push(s.last())
    }
}

/// A path on a drive of Windows, such as `C:\file`.
pub open spec fn on_drive(path: Seq<char>) -> bool {
    path.len() >= 3 && path[1] == ':' && path[2] == '\\'
}

/// What the parts of a path are separated by.
pub open spec fn separator(path: Seq<char>) -> char {
    if on_drive(path) {
        '\\'
    } else {
        '/'
    }
}

/// A path from which the name of its file can be told: its second and third
/// byte make up characters, and it has a separator.
pub open spec fn has_file_name(path: Seq<char>) -> bool {
    &&& is_char_boundary(encode_utf8(path), 1)
    &&& is_char_boundary(encode_utf8(path), 3)
    &&& path.contains(separator(path))
}

/// The name of the file at a path.
pub open spec fn file_name_of(path: Seq<char>) -> Seq<char> {
    after_last(path, separator(path))
}

/// The links under which the files on offer can be downloaded: as they are, and
/// as archives in two compressions.
pub struct Links {
    pub uncompressed: String,
    pub zst: String,
    pub gz: String,
}

/// Links as character sequences.
pub struct LinksView {
    pub uncompressed: Seq<char>,
    pub zst: Seq<char>,
    pub gz: Seq<char>,
}

impl View for Links {
    type V = LinksView;

    open spec fn view(&self) -> LinksView {
        LinksView {
            uncompressed: self.uncompressed@,
            zst: self.zst@,
            gz: self.gz@,
        }
    }
}

/// The links to one file of the given name.
pub open spec fn links_to_file(name: Seq<char>) -> LinksView {
    LinksView {
        uncompressed: "/dl/"@ + name,
        zst: "/dl/zstd/"@ + name + ".tar.zst"@,
        gz: "/dl/gz/"@ + name + ".tar.gz"@,
    }
}

/// The links to an archive of the given name.
pub open spec fn links_to_archive(name: Seq<char>) -> LinksView {
    LinksView {
        uncompressed: "/dl/"@ + name + ".tar"@,
        zst: "/dl/zstd/"@ + name + ".tar.zst"@,
        gz: "/dl/gz/"@ + name + ".tar.gz"@,
    }
}

/// A hash of paths in bytes, the lowest first, by a machine whose words begin
/// with the highest byte, or with the lowest.
pub open spec fn hash_bytes(paths: Seq<Seq<char>>, highest_first: bool) -> Seq<u8> {
    spec_u64_to_le_bytes(
        DefaultHasher::spec_finish(names_fed(paths, usize::BITS as nat, highest_first)),
    )
}

/// `hash` is the hash of paths, with its bytes in either order.
pub open spec fn is_hash_of(hash: Seq<u8>, paths: Seq<Seq<char>>) -> bool {
    exists|highest_first: bool|
        hash == #[trigger] hash_bytes(paths, highest_first) || hash == hash_bytes(
            paths,
            highest_first,
        ).reverse()
}

/// The name of an archive of files, from a hash of their paths.
pub open spec fn archive_name(hash: Seq<u8>) -> Seq<char> {
    before_first(base64_url(hash), '=')
}

/// A name as archives have it: eleven letters, digits, `-` and `_`.
pub open spec fn is_archive_name(name: Seq<char>) -> bool {
    &&& name.len() == 11
    &&& forall|i: int| 0 <= i < name.len() ==> is_url_safe(#[trigger] name[i])
}

/// Links that lead to the files at `paths`: to the file itself if there is one,
/// else to an archive that is named after a hash of the paths.
pub open spec fn lead_to(links: LinksView, paths: Seq<Seq<char>>) -> bool {
    if paths.len() == 1 {
        links == links_to_file(file_name_of(paths[0]))
    } else {
        exists|hash: Seq<u8>|
            {
                &&& is_hash_of(hash, paths)
                &&& is_archive_name(archive_name(hash))
                &&& links == links_to_archive(#[trigger] archive_name(hash))
            }
    }
}

/// Whether a path is on a drive of Windows.
fn drive_path(path: &str) -> (res: bool)
    ensures
        res == on_drive(path@),
{
    let t = chars_of(path);
    t.len() >= 3 && t[1] == ':' && t[2] == '\\'
}

/// What comes behind the last `c` in bytes comes behind it in characters.
proof fn behind_last_byte(s: Seq<char>, b: u8, i: int)
    requires
        b < 0x80,
        0 <= i < encode_utf8(s).len(),
        encode_utf8(s)[i] == b,
        forall|k: int| i < k < encode_utf8(s).len() ==> encode_utf8(s)[k] != b,
    ensures
        is_char_boundary(encode_utf8(s), i + 1),
        encode_utf8(after_last(s, ascii(b))) == encode_utf8(s).skip(i + 1),
{
    let bytes = encode_utf8(s);
    let j = character_at(s, i);
    let rest = s.skip(j + 1);
    assert forall|k: int| 0 <= k < rest.len() implies rest[k] != ascii(b) by {
        if rest[k] == ascii(b) {
            let p = byte_of(rest, k, b);
            assert(bytes.skip(i + 1)[p] == b);
        }
    }
    assert forall|k: int| j < k < s.len() implies s[k] != ascii(b) by {
        assert(rest[k - j - 1] == s[k]);
    }
    behind_last(s, ascii(b), j);
}

proof fn behind_last(s: Seq<char>, c: char, j: int)
    requires
        0 <= j < s.len(),
        s[j] == c,
        forall|k: int| j < k < s.len() ==> s[k] != c,
    ensures
        after_last(s, c) == s.skip(j + 1),
    decreases s.len(),
{
    if j == s.len() - 1 {
        assert(s.skip(j + 1) =~= Seq::empty());
    } else {
        assert(s.skip(j + 1).last() == s.last());
        assert(s.drop_last().skip(j + 1) =~= s.skip(j + 1).drop_last());
        behind_last(s.drop_last(), c, j);
        assert(s.skip(j + 1) =~= s.drop_last().skip(j + 1).push(s.last()));
    }
}

/// Whether the name of its file can be told from a path.
pub fn can_name_file(path: &str) -> (res: bool)
    ensures
        res == has_file_name(path@),
        res ==> is_char_boundary(encode_utf8(path@), 1) && is_char_boundary(encode_utf8(path@), 3),
        path@.len() >= 3 && path@[1] == ':' && path@[2] == '\\' ==> (res <==> is_char_boundary(
            encode_utf8(path@),
            1,
        ) && is_char_boundary(encode_utf8(path@), 3)),
        !(path@.len() >= 3 && path@[1] == ':' && path@[2] == '\\') ==> (res <==> is_char_boundary(
            encode_utf8(path@),
            1,
        ) && is_char_boundary(encode_utf8(path@), 3) && path@.contains('/')),
{
    assert(path@.len() >= 3 && path@[2] == '\\' ==> path@.contains('\\'));
    if !path.is_char_boundary(1) || !path.is_char_boundary(3) {
        return false;
    }
    let separator: u8 = if drive_path(path) {
        BACKSLASH
    } else {
        SLASH
    };
    assert(ascii(separator) == self::separator(path@));
    match memchr::memrchr(separator, path.as_bytes()) {
        Some(i) => {
            proof {
                let j = character_at(path@, i as int);
            }
            true
        },
        None => {
            proof {
                if path@.contains(self::separator(path@)) {
                    let j = choose|j: int|
                        0 <= j < path@.len() && path@[j] == self::separator(path@);
                    let i = byte_of(path@, j, separator);
                }
            }
            false
        },
    }
}

/// The name of the file at a path.
pub fn name_of_file(path: &str) -> (res: String)
    requires
        has_file_name(path@),
    ensures
        res@ == file_name_of(path@),
{
    let separator: u8 = if drive_path(path) {
        BACKSLASH
    } else {
        SLASH
    };
    assert(ascii(separator) == self::separator(path@));
    let bytes = path.as_bytes();
    match memchr::memrchr(separator, bytes) {
        Some(i) => {
            proof {
                behind_last_byte(path@, separator, i as int);
                assert(i < bytes.len());
            }
            let res = path.split_at(i + 1).1;
            proof {
                assert(path.spec_bytes().subrange(i + 1, path.spec_bytes().len() as int)
                    =~= path.spec_bytes().skip(i + 1));
                encode_utf8_decode_utf8(res@);
                encode_utf8_decode_utf8(file_name_of(path@));
            }
            res.to_owned()
        },
        None => {
            proof {
                let j = choose|j: int|
                    0 <= j < path@.len() && path@[j] == self::separator(path@);
                let i = byte_of(path@, j, separator);
            }
            String::new()
        },
    }
}

/// What comes before the first `c` is a stretch of characters other than `c`.
proof fn up_to_first(s: Seq<char>, c: char, n: int)
    requires
        0 <= n <= s.len(),
        n < s.len() ==> s[n] == c,
        forall|k: int| 0 <= k < n ==> s[k] != c,
    ensures
        before_first(s, c) == s.take(n),
    decreases s.len(),
{
    if n == 0 {
        assert(s.take(0) =~= Seq::empty());
    } else {
        let rest = s.drop_first();
        assert forall|k: int| 0 <= k < n - 1 implies rest[k] != c by {
            assert(rest[k] == s[k + 1]);
        }
        up_to_first(rest, c, n - 1);
        assert(s.take(n) =~= seq![s[0]] + rest.take(n - 1));
    }
}

/// What comes before the first `=` of a text.
pub fn without_padding(encoded: &str) -> (res: String)
    ensures
        res@ == before_first(encoded@, '='),
{
    let bytes = encoded.as_bytes();
    match memchr::memchr(EQUALS, bytes) {
        Some(i) => {
            proof {
                let j = character_at(encoded@, i as int);
                assert(ascii(EQUALS) == '=');
                assert forall|k: int| 0 <= k < j implies encoded@[k] != '=' by {
                    if encoded@[k] == '=' {
                        assert(encoded@.take(j)[k] == '=');
                        let p = byte_of(encoded@.take(j), k, EQUALS);
                        assert(bytes@.take(i as int)[p] == EQUALS);
                    }
                }
                up_to_first(encoded@, '=', j);
            }
            let res = encoded.split_at(i).0;
            proof {
                assert(encoded.spec_bytes().subrange(0, i as int) =~= encoded.spec_bytes().take(
                    i as int,
                ));
                encode_utf8_decode_utf8(res@);
                encode_utf8_decode_utf8(before_first(encoded@, '='));
            }
            res.to_owned()
        },
        None => {
            proof {
                assert forall|k: int| 0 <= k < encoded@.len() implies encoded@[k] != '=' by {
                    if encoded@[k] == '=' {
                        let p = byte_of(encoded@, k, EQUALS);
                    }
                }
                up_to_first(encoded@, '=', encoded@.len() as int);
                assert(encoded@.take(encoded@.len() as int) =~= encoded@);
            }
            encoded.to_owned()
        },
    }
}

/// The name of an archive is what its hash encodes as, without the padding: a
/// character for each six bits.
proof fn name_has_the_sextets(hash: Seq<u8>)
    ensures
        archive_name(hash).len() == unpadded_len(hash.len()),
        forall|i: int|
            0 <= i < archive_name(hash).len() ==> #[trigger] archive_name(hash)[i] == url_char(
                sextet(hash, i),
            ) && is_url_safe(archive_name(hash)[i]),
{
    let encoded = base64_url(hash);
    let n = unpadded_len(hash.len()) as int;
    assert forall|k: int| 0 <= k < n implies encoded[k] != '=' && is_url_safe(
        #[trigger] encoded[k],
    ) by {
        sextet_is_url_safe(hash, k);
    }
    up_to_first(encoded, '=', n);
}

/// The name of an archive of files, from a hash of their paths: what the hash
/// encodes as, without the padding.
pub fn name_of_archive(hash: &Vec<u8>) -> (res: String)
    requires
        (hash@.len() + 2) / 3 * 4 <= isize::MAX,
    ensures
        res@ == archive_name(hash@),
        res@.len() == unpadded_len(hash@.len()),
        forall|i: int| 0 <= i < res@.len() ==> is_url_safe(#[trigger] res@[i]),
{
    proof {
        name_has_the_sextets(hash@);
    }
    without_padding(encode_base64_url(hash.as_slice()).as_str())
}

/// Archives of different hashes have different names.
pub proof fn names_tell_hashes_apart(a: Seq<u8>, b: Seq<u8>)
    requires
        a.len() == b.len(),
        archive_name(a) == archive_name(b),
    ensures
        a == b,
{
    name_has_the_sextets(a);
    name_has_the_sextets(b);
    assert forall|i: int| 0 <= i < unpadded_len(a.len()) implies #[trigger] sextet(a, i) == sextet(
        b,
        i,
    ) by {
        assert(archive_name(a)[i] == url_char(sextet(a, i)));
        assert(archive_name(b)[i] == url_char(sextet(b, i)));
        sextet_is_url_safe(a, i);
        sextet_is_url_safe(b, i);
        url_char_is_injective(sextet(a, i), sextet(b, i));
    }
    assert forall|k: int| 0 <= k < a.len() implies a[k] == b[k] by {
        let g = k / 3;
        assert(4 * g + k % 3 + 1 < unpadded_len(a.len()));
        assert((4 * g + k % 3) / 4 == g);
        assert((4 * g + k % 3 + 1) / 4 == g);
        assert(sextet(a, 4 * g + k % 3) == sextet(b, 4 * g + k % 3));
        assert(sextet(a, 4 * g + k % 3 + 1) == sextet(b, 4 * g + k % 3 + 1));
    }
    assert(a =~= b);
}

proof fn url_char_is_injective(m: int, n: int)
    requires
        0 <= m < 64,
        0 <= n < 64,
        url_char(m) == url_char(n),
    ensures
        m == n,
{
    assert(url_char(m) as int == url_char(n) as int);
}

/// The links to one file at a path.
fn file_links(path: &str) -> (res: Links)
    requires
        has_file_name(path@),
    ensures
        res@ == links_to_file(file_name_of(path@)),
{
    let name = name_of_file(path);
    Links {
        uncompressed: "/dl/".to_owned().concat(name.as_str()),
        zst: "/dl/zstd/".to_owned().concat(name.as_str()).concat(".tar.zst"),
        gz: "/dl/gz/".to_owned().concat(name.as_str()).concat(".tar.gz"),
    }
}

/// The links to an archive of files, from a hash of their paths.
pub fn archive_links(hash: &Vec<u8>) -> (res: Links)
    requires
        (hash@.len() + 2) / 3 * 4 <= isize::MAX,
    ensures
        res@ == links_to_archive(archive_name(hash@)),
        hash@.len() == 8 ==> is_archive_name(archive_name(hash@)),
{
    let name = name_of_archive(hash);
    Links {
        uncompressed: "/dl/".to_owned().concat(name.as_str()).concat(".tar"),
        zst: "/dl/zstd/".to_owned().concat(name.as_str()).concat(".tar.zst"),
        gz: "/dl/gz/".to_owned().concat(name.as_str()).concat(".tar.gz"),
    }
}

/// The bytes of a hash of paths. The hash depends on the machine.
fn hash_of(paths: &Vec<String>) -> (res: Vec<u8>)
    ensures
        res@.len() == 8,
        is_hash_of(res@, paths.deep_view()),
{
    let mut hasher = DefaultHasher::new();
    feed_names(paths, &mut hasher);
    let bytes = native_bytes(hasher.finish());
    proof {
        vstd::bytes::lemma_auto_spec_u64_to_from_le_bytes();
        let all = paths.deep_view();
        let highest_first = choose|h: bool|
            hasher@ == Seq::<Seq<u8>>::empty() + #[trigger] names_fed(all, usize::BITS as nat, h);
        assert(hasher@ =~= names_fed(all, usize::BITS as nat, highest_first));
        assert(bytes@ == hash_bytes(all, highest_first) || bytes@ == hash_bytes(
            all,
            highest_first,
        ).reverse());
    }
    bytes
}

/// Files on offer to which links can be made.
pub open spec fn can_link(paths: Seq<Seq<char>>) -> bool {
    &&& paths.len() > 0
    &&& paths.len() == 1 ==> has_file_name(paths[0])
}

/// Whether links can be made to the files on offer.
pub fn linkable(paths: &Vec<String>) -> (res: bool)
    ensures
        res == can_link(paths.deep_view()),
        paths@.len() == 0 ==> !res,
        paths@.len() == 1 ==> res == has_file_name(paths@[0]@),
        paths@.len() >= 2 ==> res,
{
    paths.len() > 0 && (paths.len() > 1 || can_name_file(paths[0].as_str()))
}

/// The links to the files on offer.
pub fn links_for(paths: &Vec<String>) -> (res: Links)
    requires
        can_link(paths.deep_view()),
    ensures
        lead_to(res@, paths.deep_view()),
{
    if paths.len() > 1 {
        let hash = hash_of(paths);
        let res = archive_links(&hash);
        assert(res@ == links_to_archive(archive_name(hash@)));
        res
    } else {
        file_links(paths[0].as_str())
    }
}

/// The name of a file holds no separator of its path.
pub proof fn file_name_has_no_separator(path: Seq<char>)
    ensures
        !file_name_of(path).contains(separator(path)),
{
    no_last(path, separator(path));
}

proof fn no_last(s: Seq<char>, c: char)
    ensures
        !after_last(s, c).contains(c),
    decreases s.len(),
{
    if s.len() > 0 && s.last() != c {
        no_last(s.drop_last(), c);
        let shorter = after_last(s.drop_last(), c);
        assert forall|k: int| 0 <= k < after_last(s, c).len() implies after_last(s, c)[k] != c by {
            if k < shorter.len() {
                assert(shorter.contains(shorter[k]));
            }
        }
    }
}

/// The name of a file is the end of its path, and a separator stands before it.
pub proof fn path_ends_in_file_name(path: Seq<char>)
    requires
        has_file_name(path),
    ensures
        exists|folder: Seq<char>|
            path == #[trigger] (folder + seq![separator(path)]) + file_name_of(path),
{
    let c = separator(path);
    let j = last_place(path, c);
    behind_last(path, c, j);
    let folder = path.take(j);
    assert(path =~= (folder + seq![c]) + path.skip(j + 1));
}

proof fn last_place(s: Seq<char>, c: char) -> (j: int)
    requires
        s.contains(c),
    ensures
        0 <= j < s.len(),
        s[j] == c,
        forall|k: int| j < k < s.len() ==> s[k] != c,
    decreases s.len(),
{
    if s.last() == c {
        s.len() - 1
    } else {
        let i = choose|i: int| 0 <= i < s.len() && s[i] == c;
        assert(s.drop_last()[i] == c);
        let j = last_place(s.drop_last(), c);
        assert forall|k: int| j < k < s.len() implies s[k] != c by {
            if k < s.len() - 1 {
                assert(s.drop_last()[k] == s[k]);
            }
        }
        j
    }
}

/// What lies behind the last `c` of a text that is put together with `c` in the
/// middle and none behind it.
proof fn last_part(front: Seq<char>, c: char, name: Seq<char>)
    requires
        !name.contains(c),
    ensures
        after_last(front + seq![c] + name, c) == name,
{
    let s = front + seq![c] + name;
    let j = front.len() as int;
    assert(s[j] == c);
    assert forall|k: int| j < k < s.len() implies s[k] != c by {
        assert(name[k - j - 1] == s[k]);
        assert(name.contains(name[k - j - 1]));
    }
    behind_last(s, c, j);
    assert(s.skip(j + 1) =~= name);
}

/// The file at a path on a drive is named by what comes behind the last
/// backslash, on whatever drive, in whatever folder, and though there be slashes
/// in its name.
pub proof fn file_on_a_drive(drive: char, folders: Seq<char>, name: Seq<char>)
    requires
        (drive as u32) < 0x80,
        !name.contains('\\'),
    ensures
        has_file_name(seq![drive, ':', '\\'] + name),
        file_name_of(seq![drive, ':', '\\'] + name) == name,
        has_file_name(seq![drive, ':', '\\'] + folders + seq!['\\'] + name),
        file_name_of(seq![drive, ':', '\\'] + folders + seq!['\\'] + name) == name,
{
    let root = seq![drive, ':', '\\'];
    let short = root + name;
    let long = root + folders + seq!['\\'] + name;
    assert(short =~= seq![drive, ':'] + seq!['\\'] + name);
    last_part(seq![drive, ':'], '\\', name);
    last_part(root + folders, '\\', name);
    boundary_behind_ascii(short, 1);
    boundary_behind_ascii(short, 3);
    boundary_behind_ascii(long, 1);
    boundary_behind_ascii(long, 3);
    assert(short[1] == ':' && short[2] == '\\');
    assert(long[1] == ':' && long[2] == '\\');
    assert(short.contains(short[2]));
    assert(long.contains(long[2]));
}

/// The file at another path is named by what comes behind the last slash, though
/// there be backslashes in its name; a path without a slash names none.
pub proof fn file_in_a_folder(folders: Seq<char>, name: Seq<char>, path: Seq<char>)
    requires
        !name.contains('/'),
    ensures
        ({
            let long = folders + seq!['/'] + name;
            !(long.len() >= 3 && long[1] == ':' && long[2] == '\\') ==> {
                &&& file_name_of(long) == name
                &&& has_file_name(long) <==> is_char_boundary(encode_utf8(long), 1)
                    && is_char_boundary(encode_utf8(long), 3)
                &&& long.len() >= 3 && (long[0] as u32) < 0x80 && (long[1] as u32) < 0x80 && (
                long[2] as u32) < 0x80 ==> has_file_name(long)
            }
        }),
        !path.contains('/') && !(path.len() >= 3 && path[1] == ':' && path[2] == '\\')
            ==> !has_file_name(path),
{
    let long = folders + seq!['/'] + name;
    last_part(folders, '/', name);
    assert(long[folders.len() as int] == '/');
    assert(long.contains('/'));
    if long.len() >= 3 && (long[0] as u32) < 0x80 && (long[1] as u32) < 0x80 && (long[2] as u32)
        < 0x80 {
        boundary_behind_ascii(long, 1);
        boundary_behind_ascii(long, 3);
    }
}

/// What comes before the first `c` holds no `c`, and is all of a text without one.
pub proof fn cut_at_the_first(front: Seq<char>, c: char, rest: Seq<char>)
    requires
        !front.contains(c),
    ensures
        before_first(front + seq![c] + rest, c) == front,
        before_first(front, c) == front,
{
    let s = front + seq![c] + rest;
    assert forall|k: int| 0 <= k < front.len() implies s[k] != c && front[k] != c by {
        assert(front.contains(front[k]));
    }
    up_to_first(s, c, front.len() as int);
    assert(s.take(front.len() as int) =~= front);
    up_to_first(front, c, front.len() as int);
    assert(front.take(front.len() as int) =~= front);
}

/// Links can be made to two or more files, whatever they are called, and to one
/// file that has a name; not to none.
pub proof fn what_can_be_linked(paths: Seq<Seq<char>>)
    ensures
        paths.len() >= 2 ==> can_link(paths),
        paths.len() == 1 ==> (can_link(paths) <==> has_file_name(paths[0])),
        paths.len() == 0 ==> !can_link(paths),
{
}

/// The links to one file are the same whatever folder it lies in, and those to
/// files of different names are different, in each of the three.
pub proof fn links_go_by_the_name(
    one: Seq<char>,
    other: Seq<char>,
    links: LinksView,
    others: LinksView,
)
    requires
        lead_to(links, seq![one]),
        lead_to(others, seq![other]),
    ensures
        file_name_of(one) == file_name_of(other) ==> links == others,
        links.uncompressed == others.uncompressed ==> file_name_of(one) == file_name_of(other),
        links.zst == others.zst ==> file_name_of(one) == file_name_of(other),
        links.gz == others.gz ==> file_name_of(one) == file_name_of(other),
{
    let a = file_name_of(one);
    let b = file_name_of(other);
    assert(seq![one][0] == one);
    assert(seq![other][0] == other);
    same_between("/dl/"@, a, b, Seq::empty());
    assert("/dl/"@ + a + Seq::<char>::empty() =~= "/dl/"@ + a);
    assert("/dl/"@ + b + Seq::<char>::empty() =~= "/dl/"@ + b);
    same_between("/dl/zstd/"@, a, b, ".tar.zst"@);
    same_between("/dl/gz/"@, a, b, ".tar.gz"@);
}

proof fn same_between(front: Seq<char>, a: Seq<char>, b: Seq<char>, back: Seq<char>)
    ensures
        front + a + back == front + b + back ==> a == b,
{
    if front + a + back == front + b + back {
        let s = front + a + back;
        let t = front + b + back;
        assert(s.len() == t.len());
        assert(s.subrange(front.len() as int, (front.len() + a.len()) as int) =~= a);
        assert(t.subrange(front.len() as int, (front.len() + b.len()) as int) =~= b);
    }
}

/// An archive of several files is named after the hash of all their paths, in
/// order, and bears the same name in each of its links.
pub proof fn archive_is_named_after_its_files(links: LinksView, paths: Seq<Seq<char>>)
    requires
        paths.len() >= 2,
        lead_to(links, paths),
    ensures
        exists|highest_first: bool, bytes: Seq<u8>|
            {
                let hash = spec_u64_to_le_bytes(
                    DefaultHasher::spec_finish(
                        #[trigger] names_fed(paths, usize::BITS as nat, highest_first),
                    ),
                );
                let name = before_first(#[trigger] base64_url(bytes), '=');
                &&& bytes == hash || bytes == hash.reverse()
                &&& links.uncompressed == "/dl/"@ + name + ".tar"@
                &&& links.zst == "/dl/zstd/"@ + name + ".tar.zst"@
                &&& links.gz == "/dl/gz/"@ + name + ".tar.gz"@
            },
{
    let bytes = choose|hash: Seq<u8>|
        {
            &&& is_hash_of(hash, paths)
            &&& is_archive_name(archive_name(hash))
            &&& links == links_to_archive(#[trigger] archive_name(hash))
        };
    let highest_first = choose|h: bool|
        bytes == #[trigger] hash_bytes(paths, h) || bytes == hash_bytes(paths, h).reverse();
    let fed = names_fed(paths, usize::BITS as nat, highest_first);
    let encoded = base64_url(bytes);
    assert(links.zst == "/dl/zstd/"@ + before_first(encoded, '=') + ".tar.zst"@);
}

} // verus!
