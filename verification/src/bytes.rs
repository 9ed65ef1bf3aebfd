//! Byte strings: the small vocabulary that names and paths are described in.
use vstd::prelude::*;
use vstd::slice::{slice_subrange, slice_to_vec};
use vstd::string::{is_ascii, is_ascii_spec_bytes};
use vstd::utf8::is_ascii_chars;

verus! {

/// The byte that separates the components of a normalised path.
pub const BACKSLASH: u8 = 0x5c;

/// The other byte that separates the components of a raw path.
pub const SLASH: u8 = 0x2f;

/// The byte that starts a file name's extension.
pub const DOT: u8 = 0x2e;

/// The byte `_`.
pub const UNDERSCORE: u8 = 0x5f;

/// The bytes of an ASCII text.
pub open spec fn ascii(text: Seq<char>) -> Seq<u8> {
    text.map_values(|c: char| c as u8)
}

/// What the vectors of a sequence hold.
pub open spec fn views(v: Seq<Vec<u8>>) -> Seq<Seq<u8>> {
    v.map_values(|x: Vec<u8>| x@)
}

/// `b`, with an ASCII capital turned into the small letter.
pub open spec fn lower(b: u8) -> u8 {
    if 0x41 <= b <= 0x5a {
        (b + 0x20) as u8
    } else {
        b
    }
}

/// `s`, with every ASCII capital turned into the small letter.
pub open spec fn lowercase(s: Seq<u8>) -> Seq<u8> {
    s.map_values(|b: u8| lower(b))
}

/// Whether two byte strings are the same but for the case of ASCII letters.
pub open spec fn same_but_case(a: Seq<u8>, b: Seq<u8>) -> bool {
    lowercase(a) == lowercase(b)
}

/// Whether `s` ends with `suffix`, but for the case of ASCII letters.
pub open spec fn ends_with_but_case(s: Seq<u8>, suffix: Seq<u8>) -> bool {
    &&& suffix.len() <= s.len()
    &&& same_but_case(s.skip(s.len() - suffix.len()), suffix)
}

/// Whether `b` is an ASCII letter or digit.
pub open spec fn is_alphanumeric(b: u8) -> bool {
    ||| 0x30 <= b <= 0x39
    ||| 0x41 <= b <= 0x5a
    ||| 0x61 <= b <= 0x7a
}

/// The position of the last `b` in `s`, or -1 where there is none.
pub open spec fn last_position(s: Seq<u8>, b: u8) -> int
    decreases s.len(),
{
    if s.len() == 0 {
        -1
    } else if s.last() == b {
        s.len() - 1
    } else {
        last_position(s.drop_last(), b)
    }
}

/// What follows the last `b` in `s`: all of `s` where there is none.
pub open spec fn after_last(s: Seq<u8>, b: u8) -> Seq<u8> {
    s.skip(last_position(s, b) + 1)
}

/// The last position of a byte is the one that holds it and has none behind it.
pub proof fn lemma_last_position(s: Seq<u8>, b: u8)
    ensures
        -1 <= last_position(s, b) < s.len(),
        last_position(s, b) >= 0 ==> s[last_position(s, b)] == b,
        forall|i: int| last_position(s, b) < i < s.len() ==> s[i] != b,
    decreases s.len(),
{
    if s.len() > 0 && s.last() != b {
        lemma_last_position(s.drop_last(), b);
        assert forall|i: int| last_position(s, b) < i < s.len() implies s[i] != b by {
            if i < s.len() - 1 {
                assert(s.drop_last()[i] == s[i]);
            }
        }
    }
}

/// Returns the bytes of an ASCII text.
pub fn text_bytes(text: &str) -> (r: &[u8])
    requires
        is_ascii_chars(text@),
    ensures
        r@ == ascii(text@),
{
    broadcast use is_ascii_spec_bytes;

    assert(is_ascii(text));
    let r = text.as_bytes();
    assert(r@ =~= ascii(text@));
    r
}

/// Turns an ASCII capital into the small letter.
pub fn to_lower(b: u8) -> (r: u8)
    ensures
        r == lower(b),
{
    if 0x41 <= b && b <= 0x5a {
        b + 0x20
    } else {
        b
    }
}

/// Tells whether `b` is an ASCII letter or digit.
pub fn alphanumeric(b: u8) -> (r: bool)
    ensures
        r == is_alphanumeric(b),
{
    (0x30 <= b && b <= 0x39) || (0x41 <= b && b <= 0x5a) || (0x61 <= b && b <= 0x7a)
}

/// Turns every ASCII capital of `s` into the small letter.
pub fn to_lowercase(s: &[u8]) -> (r: Vec<u8>)
    ensures
        r@ == lowercase(s@),
{
    let mut r: Vec<u8> = Vec::with_capacity(s.len());
    let mut i: usize = 0;
    while i < s.len()
        invariant
            i <= s@.len(),
            r@ == lowercase(s@.take(i as int)),
        decreases s@.len() - i,
    {
        r.push(to_lower(s[i]));
        i = i + 1;
        assert(r@ =~= lowercase(s@.take(i as int)));
    }
    assert(s@.take(i as int) =~= s@);
    r
}

/// Compares two byte strings.
pub fn same_bytes(a: &[u8], b: &[u8]) -> (r: bool)
    ensures
        r == (a@ == b@),
{
    if a.len() != b.len() {
        return false;
    }
    let mut i: usize = 0;
    while i < a.len()
        invariant
            i <= a@.len(),
            a@.len() == b@.len(),
            forall|j: int| 0 <= j < i ==> a@[j] == b@[j],
        decreases a@.len() - i,
    {
        if a[i] != b[i] {
            return false;
        }
        i = i + 1;
    }
    assert(a@ =~= b@);
    true
}

/// Compares two byte strings without regard to the case of ASCII letters.
pub fn same_ignoring_case(a: &[u8], b: &[u8]) -> (r: bool)
    ensures
        r == same_but_case(a@, b@),
{
    if a.len() != b.len() {
        assert(lowercase(a@).len() != lowercase(b@).len());
        return false;
    }
    let mut i: usize = 0;
    while i < a.len()
        invariant
            i <= a@.len(),
            a@.len() == b@.len(),
            forall|j: int| 0 <= j < i ==> lower(a@[j]) == lower(b@[j]),
        decreases a@.len() - i,
    {
        if to_lower(a[i]) != to_lower(b[i]) {
            assert(lowercase(a@)[i as int] != lowercase(b@)[i as int]);
            return false;
        }
        i = i + 1;
    }
    assert(lowercase(a@) =~= lowercase(b@));
    true
}

/// Tells whether `s` starts with `prefix`.
pub fn starts_with(s: &[u8], prefix: &[u8]) -> (r: bool)
    ensures
        r == prefix@.is_prefix_of(s@),
{
    if s.len() < prefix.len() {
        return false;
    }
    same_bytes(prefix, slice_subrange(s, 0, prefix.len()))
}

/// Tells whether `s` ends with `suffix`, without regard to the case of ASCII letters.
pub fn ends_with_ignoring_case(s: &[u8], suffix: &[u8]) -> (r: bool)
    ensures
        r == ends_with_but_case(s@, suffix@),
{
    if s.len() < suffix.len() {
        return false;
    }
    let tail = slice_subrange(s, s.len() - suffix.len(), s.len());
    assert(tail@ =~= s@.skip(s@.len() - suffix@.len()));
    same_ignoring_case(tail, suffix)
}

/// Finds the last `b` in `s`.
pub fn find_last(s: &[u8], b: u8) -> (r: Option<usize>)
    ensures
        match r {
            Some(p) => p == last_position(s@, b),
            None => last_position(s@, b) == -1,
        },
        r matches Some(p) ==> p < s@.len(),
{
    let mut i: usize = s.len();
    assert(s@.take(i as int) =~= s@);
    while i > 0
        invariant
            i <= s@.len(),
            last_position(s@, b) == last_position(s@.take(i as int), b),
        decreases i,
    {
        assert(s@.take(i as int).drop_last() =~= s@.take(i - 1));
        i = i - 1;
        if s[i] == b {
            return Some(i);
        }
    }
    None
}

/// Returns what follows the last `b` in `s`.
pub fn tail_after_last(s: &[u8], b: u8) -> (r: &[u8])
    ensures
        r@ == after_last(s@, b),
{
    let n: usize = s.len();
    let start: usize = match find_last(s, b) {
        Some(p) => p + 1,
        None => 0,
    };
    let r = slice_subrange(s, start, n);
    assert(r@ =~= s@.skip(start as int));
    r
}

/// Returns `a` followed by `b`.
pub fn join(a: &[u8], b: &[u8]) -> (r: Vec<u8>)
    ensures
        r@ == a@ + b@,
{
    let mut r: Vec<u8> = slice_to_vec(a);
    r.extend_from_slice(b);
    assert(r@ =~= a@ + b@);
    r
}

} // verus!
