//! Text as sequences of characters: searching, trimming and ordering.

use vstd::prelude::*;
use vstd::string::*;

verus! {

/// `pattern` stands in `text` at position `i`.
pub open spec fn stands_at(pattern: Seq<char>, text: Seq<char>, i: int) -> bool {
    &&& 0 <= i
    &&& i + pattern.len() <= text.len()
    &&& text.subrange(i, i + pattern.len()) == pattern
}

/// `pattern` stands somewhere in `text`.
pub open spec fn occurs_in(pattern: Seq<char>, text: Seq<char>) -> bool {
    exists|i: int| stands_at(pattern, text, i)
}

/// The characters with the Unicode property `White_Space`.
pub open spec fn is_white_space(c: char) -> bool {
    let u = c as int;
    ||| 0x9 <= u <= 0xd
    ||| u == 0x20
    ||| u == 0x85
    ||| u == 0xa0
    ||| u == 0x1680
    ||| 0x2000 <= u <= 0x200a
    ||| u == 0x2028
    ||| u == 0x2029
    ||| u == 0x202f
    ||| u == 0x205f
    ||| u == 0x3000
}

/// `s` without the white space at either end.
pub open spec fn trimmed(s: Seq<char>) -> Seq<char>
    decreases s.len(),
{
    if s.len() == 0 {
        s
    } else if is_white_space(s[0]) {
        trimmed(s.drop_first())
    } else if is_white_space(s.last()) {
        trimmed(s.drop_last())
    } else {
        s
    }
}

/// The order of texts by code points, a prefix before what it begins.
pub open spec fn text_le(a: Seq<char>, b: Seq<char>) -> bool
    decreases a.len(),
{
    if a.len() == 0 {
        true
    } else if b.len() == 0 {
        false
    } else if a[0] == b[0] {
        text_le(a.drop_first(), b.drop_first())
    } else {
        (a[0] as int) < (b[0] as int)
    }
}

/// `names` in ascending order.
pub open spec fn in_order(names: Seq<Seq<char>>) -> Seq<Seq<char>> {
    names.sort_by(|a: Seq<char>, b: Seq<char>| text_le(a, b))
}

/// `names` is in ascending order.
pub open spec fn is_sorted(names: Seq<Seq<char>>) -> bool {
    forall|i: int, j: int|
        0 <= i <= j < names.len() ==> text_le(#[trigger] names[i], #[trigger] names[j])
}

/// The characters of a text, in order.
pub fn chars_of(text: &str) -> (res: Vec<char>)
    ensures
        res@ == text@,
{
    let mut res: Vec<char> = Vec::new();
    for c in it: text.chars()
        invariant
            it.seq() == text@,
            res@ == text@.take(it.index() as int),
    {
        res.push(c);
    }
    res
}

/// Whether two texts are the same.
pub fn same_text(a: &str, b: &str) -> (res: bool)
    ensures
        res == (a@ == b@),
{
    let x = chars_of(a);
    let y = chars_of(b);
    if x.len() != y.len() {
        return false;
    }
    for i in 0..x.len()
        invariant
            x@ == a@,
            y@ == b@,
            x.len() == y.len(),
            forall|k: int| 0 <= k < i ==> x@[k] == y@[k],
    {
        if x[i] != y[i] {
            return false;
        }
    }
    assert(x@ =~= y@);
    true
}

/// Whether `text` begins with `prefix`.
pub fn begins_with(text: &str, prefix: &str) -> (res: bool)
    ensures
        res == prefix@.is_prefix_of(text@),
{
    let t = chars_of(text);
    let p = chars_of(prefix);
    if p.len() > t.len() {
        return false;
    }
    for i in 0..p.len()
        invariant
            t@ == text@,
            p@ == prefix@,
            p.len() <= t.len(),
            forall|k: int| 0 <= k < i ==> p@[k] == t@[k],
    {
        if p[i] != t[i] {
            assert(!(p@ =~= t@.subrange(0, p@.len() as int))) by {
                assert(t@.subrange(0, p@.len() as int)[i as int] == t@[i as int]);
            }
            return false;
        }
    }
    assert(p@ =~= t@.subrange(0, p@.len() as int));
    true
}

/// Whether `pattern` stands in the characters `text` at position `at`.
fn found_at(text: &Vec<char>, pattern: &Vec<char>, at: usize) -> (res: bool)
    requires
        at + pattern.len() <= text.len(),
    ensures
        res == stands_at(pattern@, text@, at as int),
{
    for i in 0..pattern.len()
        invariant
            at + pattern.len() <= text.len(),
            forall|k: int| 0 <= k < i ==> pattern@[k] == text@[at + k],
    {
        if text[at + i] != pattern[i] {
            assert(text@.subrange(at as int, at + pattern@.len())[i as int] == text@[at + i]);
            return false;
        }
    }
    assert(text@.subrange(at as int, at + pattern@.len()) =~= pattern@);
    true
}

/// Whether `pattern` stands somewhere in `text`.
pub fn contains_text(text: &str, pattern: &str) -> (res: bool)
    ensures
        res == occurs_in(pattern@, text@),
{
    let t = chars_of(text);
    let p = chars_of(pattern);
    if p.len() > t.len() {
        return false;
    }
    let last: usize = t.len() - p.len();
    let mut at: usize = 0;
    while at < last
        invariant
            t@ == text@,
            p@ == pattern@,
            at <= last,
            last + p.len() == t.len(),
            forall|k: int| 0 <= k < at ==> !stands_at(p@, t@, k),
        decreases last - at,
    {
        if found_at(&t, &p, at) {
            return true;
        }
        at = at + 1;
    }
    found_at(&t, &p, last)
}

/// Whether a character is white space.
pub fn white_space(c: char) -> (res: bool)
    ensures
        res == is_white_space(c),
{
    ('\u{9}' <= c && c <= '\u{d}') || c == ' ' || c == '\u{85}' || c == '\u{a0}' || c
        == '\u{1680}' || ('\u{2000}' <= c && c <= '\u{200a}') || c == '\u{2028}' || c == '\u{2029}'
        || c == '\u{202f}' || c == '\u{205f}' || c == '\u{3000}'
}

/// A text without the white space at either end.
pub fn trim(text: &str) -> (res: String)
    ensures
        res@ == trimmed(text@),
{
    let t = chars_of(text);
    let mut from: usize = 0;
    let mut to: usize = t.len();
    assert(text@.subrange(0, text@.len() as int) =~= text@);
    while from < to && white_space(t[from])
        invariant
            t@ == text@,
            from <= to == t.len(),
            trimmed(text@) == trimmed(text@.subrange(from as int, to as int)),
        decreases to - from,
    {
        assert(text@.subrange(from as int, to as int).drop_first() =~= text@.subrange(
            from + 1,
            to as int,
        ));
        from = from + 1;
    }
    while from < to && white_space(t[to - 1])
        invariant
            t@ == text@,
            from <= to <= t.len(),
            from < to ==> !is_white_space(text@[from as int]),
            trimmed(text@) == trimmed(text@.subrange(from as int, to as int)),
        decreases to - from,
    {
        assert(text@.subrange(from as int, to as int).drop_last() =~= text@.subrange(
            from as int,
            to - 1,
        ));
        to = to - 1;
    }
    text.substring_char(from, to).to_owned()
}

/// Whether `a` comes before `b` or is the same text.
pub fn not_after(a: &str, b: &str) -> (res: bool)
    ensures
        res == text_le(a@, b@),
{
    let x = chars_of(a);
    let y = chars_of(b);
    let mut i: usize = 0;
    assert(a@.skip(0) =~= a@);
    assert(b@.skip(0) =~= b@);
    while i < x.len() && i < y.len() && x[i] == y[i]
        invariant
            x@ == a@,
            y@ == b@,
            i <= x.len(),
            i <= y.len(),
            text_le(a@, b@) == text_le(a@.skip(i as int), b@.skip(i as int)),
        decreases x.len() - i,
    {
        assert(a@.skip(i as int).drop_first() =~= a@.skip(i + 1));
        assert(b@.skip(i as int).drop_first() =~= b@.skip(i + 1));
        i = i + 1;
    }
    if i == x.len() {
        true
    } else if i == y.len() {
        false
    } else {
        let p: char = x[i];
        let q: char = y[i];
        p < q
    }
}

/// `text_le` is a total order.
pub proof fn text_le_total_order(a: Seq<char>, b: Seq<char>, c: Seq<char>)
    ensures
        text_le(a, a),
        text_le(a, b) || text_le(b, a),
        text_le(a, b) && text_le(b, a) ==> a == b,
        text_le(a, b) && text_le(b, c) ==> text_le(a, c),
    decreases a.len() + b.len() + c.len(),
{
    if a.len() > 0 {
        let b1 = if b.len() > 0 {
            b.drop_first()
        } else {
            b
        };
        let c1 = if c.len() > 0 {
            c.drop_first()
        } else {
            c
        };
        text_le_total_order(a.drop_first(), b1, c1);
        if text_le(a, b) && text_le(b, a) {
            assert(a =~= seq![a[0]] + a.drop_first());
            assert(b =~= seq![b[0]] + b.drop_first());
        }
    } else if text_le(b, a) {
        assert(a =~= b);
    }
}

/// Sorting gives a sorted sequence of the same names.
pub proof fn in_order_sorts(names: Seq<Seq<char>>)
    ensures
        is_sorted(in_order(names)),
        in_order(names).to_multiset() == names.to_multiset(),
        in_order(names).len() == names.len(),
{
    let le = |a: Seq<char>, b: Seq<char>| text_le(a, b);
    total_order_of(le);
    names.lemma_sort_by_ensures(le);
    in_order(names).to_multiset_ensures();
    names.to_multiset_ensures();
    let sorted = in_order(names);
    assert forall|i: int, j: int| 0 <= i <= j < sorted.len() implies text_le(
        #[trigger] sorted[i],
        #[trigger] sorted[j],
    ) by {
        text_le_total_order(sorted[i], sorted[i], sorted[i]);
        assert(i < j ==> le(sorted[i], sorted[j]));
    }
}

proof fn total_order_of(le: spec_fn(Seq<char>, Seq<char>) -> bool)
    requires
        le == (|a: Seq<char>, b: Seq<char>| text_le(a, b)),
    ensures
        vstd::relations::total_ordering(le),
{
    assert forall|a: Seq<char>| #[trigger] le(a, a) by {
        text_le_total_order(a, a, a);
    }
    assert forall|a: Seq<char>, b: Seq<char>| #[trigger] le(a, b) && #[trigger] le(b, a) implies a == b by {
        text_le_total_order(a, b, a);
    }
    assert forall|a: Seq<char>, b: Seq<char>, c: Seq<char>|
        #[trigger] le(a, b) && #[trigger] le(b, c) implies le(a, c) by {
        text_le_total_order(a, b, c);
    }
    assert forall|a: Seq<char>, b: Seq<char>| #[trigger] le(a, b) || #[trigger] le(b, a) by {
        text_le_total_order(a, b, a);
    }
}

/// A sorted sequence is the only sorted sequence of its names.
pub proof fn sorted_is_in_order(names: Seq<Seq<char>>, sorted: Seq<Seq<char>>)
    requires
        is_sorted(sorted),
        sorted.to_multiset() == names.to_multiset(),
    ensures
        sorted == in_order(names),
{
    let le = |a: Seq<char>, b: Seq<char>| text_le(a, b);
    total_order_of(le);
    names.lemma_sort_by_ensures(le);
    vstd::seq_lib::lemma_sorted_unique(sorted, in_order(names), le);
}

/// Puts `name` into a sorted list, behind the names that it does not precede.
fn insert_sorted(names: &mut Vec<String>, name: String)
    requires
        is_sorted(old(names).deep_view()),
    ensures
        is_sorted(final(names).deep_view()),
        final(names).deep_view().to_multiset() == old(names).deep_view().to_multiset().insert(
            name@,
        ),
{
    let ghost before = names.deep_view();
    let mut at: usize = 0;
    while at < names.len() && not_after(names[at].as_str(), name.as_str())
        invariant
            at <= names.len(),
            names.deep_view() == before,
            forall|k: int| 0 <= k < at ==> text_le(before[k], name@),
        decreases names.len() - at,
    {
        at = at + 1;
    }
    let ghost x = name@;
    names.insert(at, name);
    proof {
        let after = names.deep_view();
        assert(after =~= before.insert(at as int, x));
        before.to_multiset_ensures();
        before.insert_ensures(at as int, x);
        vstd::seq_lib::to_multiset_insert(before, at as int, x);
        assert forall|i: int, j: int| 0 <= i <= j < after.len() implies text_le(
            #[trigger] after[i],
            #[trigger] after[j],
        ) by {
            text_le_total_order(x, x, x);
            if at < before.len() {
                text_le_total_order(x, before[at as int], x);
                if j > at {
                    text_le_total_order(x, before[at as int], before[j - 1]);
                }
            }
        }
    }
}

/// Sorts names in ascending order.
pub fn sort_names(names: Vec<String>) -> (res: Vec<String>)
    ensures
        res.deep_view() == in_order(names.deep_view()),
        is_sorted(res.deep_view()),
        res.deep_view().to_multiset() == names.deep_view().to_multiset(),
        res@.len() == names@.len(),
{
    let mut res: Vec<String> = Vec::new();
    let ghost all = names.deep_view();
    assert(res.deep_view() =~= all.take(0));
    for i in 0..names.len()
        invariant
            all == names.deep_view(),
            is_sorted(res.deep_view()),
            res.deep_view().to_multiset() == all.take(i as int).to_multiset(),
    {
        insert_sorted(&mut res, names[i].clone());
        proof {
            assert(all.take(i + 1) =~= all.take(i as int).push(all[i as int]));
            all.take(i as int).to_multiset_ensures();
        }
    }
    proof {
        assert(all.take(all.len() as int) =~= all);
        sorted_is_in_order(all, res.deep_view());
        in_order_sorts(all);
    }
    res
}

/// A pattern stands in every text that is made by putting something before and
/// behind it; and a text in which it stands is made that way.
pub proof fn found_between(before: Seq<char>, pattern: Seq<char>, after: Seq<char>)
    ensures
        occurs_in(pattern, before + pattern + after),
{
    let text = before + pattern + after;
    assert(text.subrange(before.len() as int, (before.len() + pattern.len()) as int) =~= pattern);
    assert(stands_at(pattern, text, before.len() as int));
}

/// What stands in a text parts it into what comes before and what comes behind.
pub proof fn found_parts_the_text(pattern: Seq<char>, text: Seq<char>) -> (parts: (
    Seq<char>,
    Seq<char>,
))
    requires
        occurs_in(pattern, text),
    ensures
        text == parts.0 + pattern + parts.1,
{
    let i = choose|i: int| stands_at(pattern, text, i);
    let parts = (text.take(i), text.skip(i + pattern.len()));
    assert(text =~= parts.0 + text.subrange(i, i + pattern.len()) + parts.1);
    parts
}

/// Trimming takes white space from the ends of a text, all of it, and nothing
/// else: what is left begins and ends with other characters, and white space
/// before and behind a text does not matter.
pub proof fn trimming_takes_white_space_only(s: Seq<char>) -> (parts: (Seq<char>, Seq<char>))
    ensures
        s == parts.0 + trimmed(s) + parts.1,
        forall|i: int| 0 <= i < parts.0.len() ==> is_white_space(#[trigger] parts.0[i]),
        forall|i: int| 0 <= i < parts.1.len() ==> is_white_space(#[trigger] parts.1[i]),
        trimmed(s).len() > 0 ==> !is_white_space(trimmed(s)[0]) && !is_white_space(
            trimmed(s).last(),
        ),
    decreases s.len(),
{
    if s.len() == 0 {
        let parts = (Seq::<char>::empty(), Seq::<char>::empty());
        assert(s =~= parts.0 + trimmed(s) + parts.1);
        parts
    } else if is_white_space(s[0]) {
        let (a, b) = trimming_takes_white_space_only(s.drop_first());
        let parts = (seq![s[0]] + a, b);
        assert(s =~= seq![s[0]] + s.drop_first());
        assert(s =~= parts.0 + trimmed(s) + parts.1);
        assert forall|i: int| 0 <= i < parts.0.len() implies is_white_space(
            #[trigger] parts.0[i],
        ) by {
            assert(i > 0 ==> parts.0[i] == a[i - 1]);
        }
        parts
    } else if is_white_space(s.last()) {
        let (a, b) = trimming_takes_white_space_only(s.drop_last());
        let parts = (a, b.push(s.last()));
        assert(s =~= s.drop_last().push(s.last()));
        assert(s =~= parts.0 + trimmed(s) + parts.1);
        assert forall|i: int| 0 <= i < parts.1.len() implies is_white_space(
            #[trigger] parts.1[i],
        ) by {
            assert(i < b.len() ==> parts.1[i] == b[i]);
        }
        parts
    } else {
        let parts = (Seq::<char>::empty(), Seq::<char>::empty());
        assert(s =~= parts.0 + trimmed(s) + parts.1);
        parts
    }
}

/// White space is exactly these characters.
pub proof fn white_space_is(c: char)
    ensures
        is_white_space(c) <==> seq![
            '\u{9}', '\u{a}', '\u{b}', '\u{c}', '\u{d}', ' ', '\u{85}', '\u{a0}', '\u{1680}',
            '\u{2000}', '\u{2001}', '\u{2002}', '\u{2003}', '\u{2004}', '\u{2005}', '\u{2006}',
            '\u{2007}', '\u{2008}', '\u{2009}', '\u{200a}', '\u{2028}', '\u{2029}', '\u{202f}',
            '\u{205f}', '\u{3000}',
        ].contains(c),
{
    let all = seq![
        '\u{9}', '\u{a}', '\u{b}', '\u{c}', '\u{d}', ' ', '\u{85}', '\u{a0}', '\u{1680}',
        '\u{2000}', '\u{2001}', '\u{2002}', '\u{2003}', '\u{2004}', '\u{2005}', '\u{2006}',
        '\u{2007}', '\u{2008}', '\u{2009}', '\u{200a}', '\u{2028}', '\u{2029}', '\u{202f}',
        '\u{205f}', '\u{3000}',
    ];
    if is_white_space(c) {
        let u = c as int;
        let i: int = if 0x9 <= u <= 0xd {
            u - 0x9
        } else if u == 0x20 {
            5
        } else if u == 0x85 {
            6
        } else if u == 0xa0 {
            7
        } else if u == 0x1680 {
            8
        } else if 0x2000 <= u <= 0x200a {
            9 + u - 0x2000
        } else if u == 0x2028 {
            20
        } else if u == 0x2029 {
            21
        } else if u == 0x202f {
            22
        } else if u == 0x205f {
            23
        } else {
            24
        };
        assert(all[i] as int == u);
        assert(all[i] == c);
    }
}

/// A text comes before every text that it begins; and of two texts that differ
/// after a common start, the one with the lower character there comes first.
pub proof fn first_difference_decides(
    start: Seq<char>,
    c: char,
    d: char,
    x: Seq<char>,
    y: Seq<char>,
)
    ensures
        text_le(start, start + x),
        c != d ==> text_le(start + seq![c] + x, start + seq![d] + y) == ((c as int) < (d as int)),
        x.len() > 0 ==> !text_le(start + x, start),
    decreases start.len(),
{
    let a = start + seq![c] + x;
    let b = start + seq![d] + y;
    if start.len() > 0 {
        let rest = start.drop_first();
        first_difference_decides(rest, c, d, x, y);
        assert((start + x).drop_first() =~= rest + x);
        assert(a.drop_first() =~= rest + seq![c] + x);
        assert(b.drop_first() =~= rest + seq![d] + y);
    } else {
        assert(a[0] == c);
        assert(b[0] == d);
    }
}

/// Sorting puts names in ascending order, keeps each as often as it was there,
/// and depends on nothing but how often each was there.
pub proof fn sorted_names_ascend(names: Seq<Seq<char>>, others: Seq<Seq<char>>, i: int, j: int)
    ensures
        0 <= i <= j < names.len() ==> text_le(in_order(names)[i], in_order(names)[j]),
        in_order(names).len() == names.len(),
        in_order(names).to_multiset() == names.to_multiset(),
        names.to_multiset() == others.to_multiset() ==> in_order(names) == in_order(others),
{
    in_order_sorts(names);
    in_order_sorts(others);
    if names.to_multiset() == others.to_multiset() {
        sorted_is_in_order(others, in_order(names));
    }
}

} // verus!
