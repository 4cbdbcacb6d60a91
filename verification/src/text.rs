//! Character-level helpers shared by the text-processing parts of the
//! library: the library's notion of blank characters, ASCII case folding,
//! and the two conversions between `String`/`&str` and `Vec<char>` on which
//! every verified scanner here works.

use vstd::prelude::*;

verus! {

/// Whitespace as this library defines it: the ASCII blank characters
/// (space, tab, line feed, carriage return, vertical tab, form feed).
pub open spec fn is_space_char(c: char) -> bool {
    c == ' ' || c == '\t' || c == '\n' || c == '\r' || c == '\u{b}' || c == '\u{c}'
}

/// ASCII case folding: an upper-case ASCII letter becomes the corresponding
/// lower-case letter, every other character is unchanged.
pub open spec fn lower_char(c: char) -> char {
    if 65 <= (c as u32) && (c as u32) <= 90 {
        (((c as u32) + 32) as u8) as char
    } else {
        c
    }
}

/// A sequence made entirely of blank characters (an empty one included).
pub open spec fn all_space(s: Seq<char>) -> bool {
    forall|i: int| 0 <= i < s.len() ==> is_space_char(s[i])
}

/// The non-blank characters of a sequence, in order.
pub open spec fn visible_chars(s: Seq<char>) -> Seq<char> {
    s.filter(|c: char| !is_space_char(c))
}

pub fn is_space(c: char) -> (r: bool)
    ensures
        r == is_space_char(c),
{
    c == ' ' || c == '\t' || c == '\n' || c == '\r' || c == '\u{b}' || c == '\u{c}'
}

pub fn to_lower(c: char) -> (r: char)
    ensures
        r == lower_char(c),
{
    let u = c as u32;
    if 65 <= u && u <= 90 {
        ((u as u8) + 32) as char
    } else {
        c
    }
}

/// Relies on `str::chars`: iterating a string slice yields exactly the
/// characters of its view, in order.
#[verifier::external_body]
pub fn string_to_chars(s: &str) -> (r: Vec<char>)
    ensures
        r@ == s@,
{
    s.chars().collect()
}

/// Relies on `FromIterator<char> for String`: collecting characters yields
/// the string whose view is exactly that character sequence.
#[verifier::external_body]
pub fn chars_to_string(v: &Vec<char>) -> (r: String)
    ensures
        r@ == v@,
{
    v.iter().collect()
}

/// Relies on `str::len`: the length of a string slice in UTF-8 bytes.  A
/// slice never exceeds `usize::MAX` bytes, so the count is exact.
#[verifier::external_body]
pub fn byte_len(s: &str) -> (r: usize)
    ensures
        r as int == vstd::utf8::encode_utf8(s@).len() as int,
{
    s.len()
}

/// Copies the characters of `v` between `from` (inclusive) and `to`
/// (exclusive) into a fresh vector.
pub fn subvec_chars(v: &Vec<char>, from: usize, to: usize) -> (r: Vec<char>)
    requires
        from <= to <= v@.len(),
    ensures
        r@ == v@.subrange(from as int, to as int),
{
    let mut r: Vec<char> = Vec::new();
    let mut i: usize = from;
    while i < to
        invariant
            from <= i <= to <= v@.len(),
            r@ == v@.subrange(from as int, i as int),
        decreases to - i,
    {
        r.push(v[i]);
        proof {
            assert(v@.subrange(from as int, i + 1 as int)
                =~= v@.subrange(from as int, i as int).push(v@[i as int]));
        }
        i = i + 1;
    }
    r
}

/// Appends all of `src` to `dst`.
pub fn extend_chars(dst: &mut Vec<char>, src: &Vec<char>)
    ensures
        final(dst)@ == old(dst)@ + src@,
{
    let mut i: usize = 0;
    proof {
        assert(old(dst)@ + src@.take(0) =~= old(dst)@);
    }
    while i < src.len()
        invariant
            0 <= i <= src@.len(),
            dst@ == old(dst)@ + src@.take(i as int),
        decreases src@.len() - i,
    {
        dst.push(src[i]);
        proof {
            assert(src@.take(i + 1 as int) =~= src@.take(i as int).push(src@[i as int]));
            assert((old(dst)@ + src@.take(i as int)).push(src@[i as int]) =~= old(dst)@
                + src@.take(i + 1 as int));
        }
        i = i + 1;
    }
    proof {
        assert(src@.take(src@.len() as int) =~= src@);
    }
}

pub fn chars_eq(a: &Vec<char>, b: &Vec<char>) -> (r: bool)
    ensures
        r == (a@ == b@),
{
    if a.len() != b.len() {
        return false;
    }
    let mut i: usize = 0;
    while i < a.len()
        invariant
            0 <= i <= a@.len(),
            a@.len() == b@.len(),
            forall|k: int| 0 <= k < i ==> a@[k] == b@[k],
        decreases a@.len() - i,
    {
        if a[i] != b[i] {
            return false;
        }
        i = i + 1;
    }
    proof {
        assert(a@ =~= b@);
    }
    true
}

/// String equality over views, decided character by character.
pub fn str_eq(a: &str, b: &str) -> (r: bool)
    ensures
        r == (a@ == b@),
{
    let va = string_to_chars(a);
    let vb = string_to_chars(b);
    chars_eq(&va, &vb)
}

pub fn all_space_chars(v: &Vec<char>, from: usize, to: usize) -> (r: bool)
    requires
        from <= to <= v@.len(),
    ensures
        r == all_space(v@.subrange(from as int, to as int)),
{
    let mut i: usize = from;
    while i < to
        invariant
            from <= i <= to <= v@.len(),
            forall|k: int| from <= k < i ==> is_space_char(v@[k]),
        decreases to - i,
    {
        if !is_space(v[i]) {
            assert(v@.subrange(from as int, to as int)[i - from] == v@[i as int]);
            return false;
        }
        i = i + 1;
    }
    assert forall|k: int| 0 <= k < to - from implies is_space_char(
        v@.subrange(from as int, to as int)[k],
    ) by {
        assert(v@.subrange(from as int, to as int)[k] == v@[from + k]);
    }
    true
}

/// The text with leading blanks removed.
pub open spec fn trim_front(t: Seq<char>) -> Seq<char>
    decreases t.len(),
{
    if t.len() > 0 && is_space_char(t.first()) {
        trim_front(t.drop_first())
    } else {
        t
    }
}

/// The text with trailing blanks removed.
pub open spec fn trim_back(t: Seq<char>) -> Seq<char>
    decreases t.len(),
{
    if t.len() > 0 && is_space_char(t.last()) {
        trim_back(t.drop_last())
    } else {
        t
    }
}

/// The text with leading and trailing blanks removed.
pub open spec fn spec_trim(t: Seq<char>) -> Seq<char> {
    trim_back(trim_front(t))
}

/// Removes leading blanks, exactly per [`trim_front`].
pub fn trim_front_chars(t: &Vec<char>) -> (r: Vec<char>)
    ensures
        r@ == trim_front(t@),
{
    let mut a: usize = 0;
    proof {
        assert(t@.skip(0) =~= t@);
    }
    while a < t.len() && is_space(t[a])
        invariant
            0 <= a <= t@.len(),
            trim_front(t@) == trim_front(t@.skip(a as int)),
        decreases t@.len() - a,
    {
        proof {
            assert(t@.skip(a as int).drop_first() =~= t@.skip(a + 1 as int));
        }
        a = a + 1;
    }
    proof {
        assert(trim_front(t@) =~= t@.skip(a as int));
        assert(t@.skip(a as int) =~= t@.subrange(a as int, t@.len() as int));
    }
    subvec_chars(t, a, t.len())
}


/// Removes leading and trailing blanks, exactly per [`spec_trim`].
pub fn trim_chars(t: &Vec<char>) -> (r: Vec<char>)
    ensures
        r@ == spec_trim(t@),
{
    let mut a: usize = 0;
    proof {
        assert(t@.skip(0) =~= t@);
    }
    while a < t.len() && is_space(t[a])
        invariant
            0 <= a <= t@.len(),
            trim_front(t@) == trim_front(t@.skip(a as int)),
            forall|k: int| 0 <= k < a ==> is_space_char(t@[k]),
        decreases t@.len() - a,
    {
        proof {
            assert(t@.skip(a as int).drop_first() =~= t@.skip(a + 1 as int));
        }
        a = a + 1;
    }
    proof {
        assert(trim_front(t@) =~= t@.skip(a as int));
    }
    let mut b: usize = t.len();
    proof {
        assert(t@.skip(a as int) =~= t@.subrange(a as int, t@.len() as int));
    }
    while b > a && is_space(t[b - 1])
        invariant
            a <= b <= t@.len(),
            trim_back(t@.skip(a as int)) == trim_back(t@.subrange(a as int, b as int)),
        decreases b,
    {
        proof {
            assert(t@.subrange(a as int, b as int).drop_last() =~= t@.subrange(
                a as int,
                b - 1 as int,
            ));
            assert(t@.subrange(a as int, b as int).last() == t@[b - 1]);
        }
        b = b - 1;
    }
    proof {
        if b > a {
            assert(t@.subrange(a as int, b as int).last() == t@[b - 1]);
        }
        assert(trim_back(t@.subrange(a as int, b as int)) =~= t@.subrange(a as int, b as int));
        assert(t@.skip(a as int) =~= t@.subrange(a as int, t@.len() as int));
    }
    subvec_chars(t, a, b)
}

} // verus!
