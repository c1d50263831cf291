//! How the characters of a text lie in its bytes.

use vstd::prelude::*;
use vstd::utf8::*;

verus! {

/// A character with the code of an ASCII byte.
pub open spec fn ascii(b: u8) -> char {
    (b as u32) as char
}

/// The bytes of a text begin with the bytes of its first character, which are
/// either one ASCII byte, equal to the character, or no ASCII bytes.
pub proof fn first_character(chars: Seq<char>)
    requires
        chars.len() > 0,
    ensures
        ({
            let bytes = encode_utf8(chars);
            let n = encode_scalar(chars[0] as u32).len();
            &&& 1 <= n <= bytes.len()
            &&& n == length_of_first_scalar(bytes)
            &&& valid_utf8(bytes)
            &&& bytes.skip(n as int) == encode_utf8(chars.drop_first())
            &&& pop_first_scalar(bytes) == encode_utf8(chars.drop_first())
            &&& bytes[0] < 0x80 <==> n == 1
            &&& n == 1 ==> chars[0] == ascii(bytes[0])
            &&& n > 1 ==> forall|i: int| 0 <= i < n ==> #[trigger] bytes[i] >= 0x80
        }),
{
    let bytes = encode_utf8(chars);
    let head = encode_scalar(chars[0] as u32);
    encode_utf8_first_scalar(chars);
    encode_utf8_valid_utf8(chars);
    assert(bytes =~= head + encode_utf8(chars.drop_first()));
    assert(bytes.skip(head.len() as int) =~= encode_utf8(chars.drop_first()));
    assert(pop_first_scalar(bytes) =~= encode_utf8(chars.drop_first()));
    if bytes[0] < 0x80 {
        let b = bytes[0];
        assert(b < 0x80u8 ==> b & 0x7fu8 == b) by (bit_vector);
        char_u32_cast(chars[0], b as u32);
    }
}

/// The character at which an ASCII byte of a text lies. The text falls apart
/// there into what comes before and what comes after, in characters as in bytes.
pub proof fn character_at(chars: Seq<char>, i: int) -> (j: int)
    requires
        0 <= i < encode_utf8(chars).len(),
        encode_utf8(chars)[i] < 0x80,
    ensures
        0 <= j < chars.len(),
        chars[j] == ascii(encode_utf8(chars)[i]),
        encode_utf8(chars.take(j)) == encode_utf8(chars).take(i),
        encode_utf8(chars.skip(j + 1)) == encode_utf8(chars).skip(i + 1),
        is_char_boundary(encode_utf8(chars), i),
        is_char_boundary(encode_utf8(chars), i + 1),
    decreases chars.len(),
{
    let bytes = encode_utf8(chars);
    first_character(chars);
    let n = encode_scalar(chars[0] as u32).len();
    let rest = chars.drop_first();
    if i < n {
        assert(bytes[i] < 0x80);
        assert(n == 1);
        assert(chars.skip(1) =~= rest);
        assert(chars.take(0) =~= Seq::empty());
        assert(encode_utf8(chars.take(0)) =~= bytes.take(0));
        reveal_with_fuel(is_char_boundary, 2);
        encode_utf8_valid_utf8(rest);
        0
    } else {
        assert(encode_utf8(rest)[i - n] == bytes[i]);
        let j = character_at(rest, i - n);
        assert(rest.skip(j + 1) =~= chars.skip(j + 2));
        assert(encode_utf8(rest).skip(i - n + 1) =~= bytes.skip(i + 1));
        assert(chars.take(j + 1).drop_first() =~= rest.take(j));
        first_character(chars.take(j + 1));
        assert(encode_utf8(chars.take(j + 1)) =~= bytes.take(i)) by {
            let front = encode_utf8(chars.take(j + 1));
            assert(front =~= encode_scalar(chars[0] as u32) + encode_utf8(rest.take(j)));
            assert(bytes =~= encode_scalar(chars[0] as u32) + encode_utf8(rest));
        }
        j + 1
    }
}

/// The bytes of a text with an ASCII character in it hold that character.
pub proof fn byte_of(chars: Seq<char>, j: int, b: u8) -> (i: int)
    requires
        0 <= j < chars.len(),
        b < 0x80,
        chars[j] == ascii(b),
    ensures
        0 <= i < encode_utf8(chars).len(),
        encode_utf8(chars)[i] == b,
    decreases chars.len(),
{
    let bytes = encode_utf8(chars);
    first_character(chars);
    let n = encode_scalar(chars[0] as u32).len();
    if j == 0 {
        assert(chars[0] as u32 == b as u32);
        assert(has_width_1_encoding(chars[0] as u32));
        let c = b as u32;
        assert(leading_byte_width_1(c) == b) by {
            assert(b < 0x80u8 ==> ((b as u32) & 0x7fu32) as u8 == b) by (bit_vector);
        }
        0
    } else {
        let rest = chars.drop_first();
        let i = byte_of(rest, j - 1, b);
        assert(bytes.skip(n as int)[i] == b);
        i + n as int
    }
}

/// Where a text begins with ASCII characters, its bytes fall apart behind each of
/// them.
pub proof fn boundary_behind_ascii(chars: Seq<char>, n: int)
    requires
        0 <= n <= chars.len(),
        forall|i: int| 0 <= i < n ==> (#[trigger] chars[i] as u32) < 0x80,
    ensures
        is_char_boundary(encode_utf8(chars), n),
    decreases n,
{
    encode_utf8_valid_utf8(chars);
    if n > 0 {
        first_character(chars);
        let rest = chars.drop_first();
        assert forall|i: int| 0 <= i < n - 1 implies (#[trigger] rest[i] as u32) < 0x80 by {
            assert(rest[i] == chars[i + 1]);
        }
        boundary_behind_ascii(rest, n - 1);
        assert((chars[0] as u32) < 0x80);
        assert(has_width_1_encoding(chars[0] as u32));
        assert(encode_scalar(chars[0] as u32).len() == 1);
        assert(encode_utf8(chars).len() == 1 + encode_utf8(rest).len());
        boundary_is_inside(rest, n - 1);
    }
}

proof fn boundary_is_inside(chars: Seq<char>, i: int)
    requires
        is_char_boundary(encode_utf8(chars), i),
    ensures
        0 <= i <= encode_utf8(chars).len(),
{
    encode_utf8_valid_utf8(chars);
}

} // verus!
