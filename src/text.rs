//! Byte helpers: copying, comparison, ASCII case folding and trimming.

use vstd::prelude::*;

verus! {

/// The bytes of an ASCII text.
pub open spec fn ascii_bytes(s: Seq<char>) -> Seq<u8> {
    s.map_values(|c: char| c as u8)
}

pub open spec fn ascii_lower(c: u8) -> u8 {
    if 65 <= c && c <= 90 {
        (c + 32) as u8
    } else {
        c
    }
}

pub open spec fn lower_text(s: Seq<u8>) -> Seq<u8> {
    s.map_values(|c: u8| ascii_lower(c))
}

/// A one-byte white-space character: tab, line feed, vertical tab, form
/// feed, carriage return, space.
pub open spec fn space1(a: u8) -> bool {
    a == 32 || (9 <= a && a <= 13)
}

/// The UTF-8 forms of U+0085 and U+00A0.
pub open spec fn space2(a: u8, b: u8) -> bool {
    a == 0xC2 && (b == 0x85 || b == 0xA0)
}

/// The UTF-8 forms of U+1680, U+2000 to U+200A, U+2028, U+2029, U+202F,
/// U+205F and U+3000.
pub open spec fn space3(a: u8, b: u8, c: u8) -> bool {
    (a == 0xE1 && b == 0x9A && c == 0x80) || (a == 0xE2 && b == 0x80 && ((0x80 <= c && c <= 0x8A)
        || c == 0xA8 || c == 0xA9 || c == 0xAF)) || (a == 0xE2 && b == 0x81 && c == 0x9F) || (a
        == 0xE3 && b == 0x80 && c == 0x80)
}

/// The length of the white-space character, as `char::is_whitespace`
/// defines it, that `s` starts with, or 0.
pub open spec fn lead_space(s: Seq<u8>) -> int {
    if s.len() >= 1 && space1(s[0]) {
        1
    } else if s.len() >= 2 && space2(s[0], s[1]) {
        2
    } else if s.len() >= 3 && space3(s[0], s[1], s[2]) {
        3
    } else {
        0
    }
}

/// The length of the white-space character that `s` ends with, or 0.
pub open spec fn trail_space(s: Seq<u8>) -> int {
    let n = s.len() as int;
    if n >= 1 && space1(s[n - 1]) {
        1
    } else if n >= 2 && space2(s[n - 2], s[n - 1]) {
        2
    } else if n >= 3 && space3(s[n - 3], s[n - 2], s[n - 1]) {
        3
    } else {
        0
    }
}

pub open spec fn trim_start(s: Seq<u8>) -> Seq<u8>
    decreases s.len(),
{
    if lead_space(s) > 0 && lead_space(s) <= s.len() {
        trim_start(s.subrange(lead_space(s), s.len() as int))
    } else {
        s
    }
}

pub open spec fn trim_end(s: Seq<u8>) -> Seq<u8>
    decreases s.len(),
{
    if trail_space(s) > 0 && trail_space(s) <= s.len() {
        trim_end(s.subrange(0, s.len() - trail_space(s)))
    } else {
        s
    }
}

/// Whether `s` holds a white-space character anywhere.
pub open spec fn has_space(s: Seq<u8>) -> bool {
    exists|i: int| 0 <= i < s.len() && #[trigger] lead_space(s.subrange(i, s.len() as int)) > 0
}

/// `s` without leading and trailing white space, as `str::trim` leaves it
/// for UTF-8 text.
pub open spec fn trimmed(s: Seq<u8>) -> Seq<u8> {
    trim_end(trim_start(s))
}

/// Appends every byte of `src` to `out`.
pub fn push_all(out: &mut Vec<u8>, src: &[u8])
    ensures
        final(out)@ == old(out)@ + src@,
{
    let mut i: usize = 0;
    while i < src.len()
        invariant
            i <= src@.len(),
            out@ == old(out)@ + src@.subrange(0, i as int),
        decreases src@.len() - i,
    {
        out.push(src[i]);
        i = i + 1;
        assert(src@.subrange(0, i as int) == src@.subrange(0, i - 1 as int).push(src@[i - 1]));
    }
    assert(src@.subrange(0, i as int) == src@);
}

/// A copy of `b[from..to]`.
pub fn copy_range(b: &[u8], from: usize, to: usize) -> (r: Vec<u8>)
    requires
        from <= to <= b@.len(),
    ensures
        r@ == b@.subrange(from as int, to as int),
{
    let mut out: Vec<u8> = Vec::new();
    push_all(&mut out, &b[from..to]);
    out
}

/// A copy of `b`.
pub fn copy_bytes(b: &[u8]) -> (r: Vec<u8>)
    ensures
        r@ == b@,
{
    copy_range(b, 0, b.len())
}

pub fn bytes_eq(a: &[u8], b: &[u8]) -> (r: bool)
    ensures
        r == (a@ == b@),
{
    if a.len() != b.len() {
        return false;
    }
    let mut i: usize = 0;
    while i < a.len()
        invariant
            a@.len() == b@.len(),
            i <= a@.len(),
            forall|j: int| 0 <= j < i ==> a@[j] == b@[j],
        decreases a@.len() - i,
    {
        if a[i] != b[i] {
            return false;
        }
        i = i + 1;
    }
    assert(a@ =~= b@);
    true
}

pub fn lower_byte(c: u8) -> (r: u8)
    ensures
        r == ascii_lower(c),
{
    if 65 <= c && c <= 90 {
        c + 32
    } else {
        c
    }
}

/// The bytes of `b` with ASCII capitals made small.
pub fn to_lower(b: &[u8]) -> (r: Vec<u8>)
    ensures
        r@ == lower_text(b@),
{
    let mut out: Vec<u8> = Vec::new();
    let mut i: usize = 0;
    while i < b.len()
        invariant
            i <= b@.len(),
            out@ == lower_text(b@.subrange(0, i as int)),
        decreases b@.len() - i,
    {
        out.push(lower_byte(b[i]));
        i = i + 1;
        assert(lower_text(b@.subrange(0, i as int)) =~= lower_text(b@.subrange(0, i - 1 as int)).push(
            ascii_lower(b@[i - 1]),
        ));
    }
    assert(b@.subrange(0, i as int) =~= b@);
    out
}

/// Whether `a` and `b` are equal up to ASCII case.
pub fn eq_ignore_case(a: &[u8], b: &[u8]) -> (r: bool)
    ensures
        r == (lower_text(a@) == lower_text(b@)),
{
    let la = to_lower(a);
    let lb = to_lower(b);
    bytes_eq(la.as_slice(), lb.as_slice())
}

/// The length of the white-space character at the start of `b`, or 0.
pub fn space_at_start(b: &[u8]) -> (r: usize)
    ensures
        r == lead_space(b@),
{
    let n = b.len();
    if n >= 1 && (b[0] == 32 || (9 <= b[0] && b[0] <= 13)) {
        1
    } else if n >= 2 && b[0] == 0xC2 && (b[1] == 0x85 || b[1] == 0xA0) {
        2
    } else if n >= 3 && ((b[0] == 0xE1 && b[1] == 0x9A && b[2] == 0x80) || (b[0] == 0xE2 && b[1]
        == 0x80 && ((0x80 <= b[2] && b[2] <= 0x8A) || b[2] == 0xA8 || b[2] == 0xA9 || b[2] == 0xAF))
        || (b[0] == 0xE2 && b[1] == 0x81 && b[2] == 0x9F) || (b[0] == 0xE3 && b[1] == 0x80 && b[2]
        == 0x80)) {
        3
    } else {
        0
    }
}

/// The length of the white-space character at the end of `b`, or 0.
pub fn space_at_end(b: &[u8]) -> (r: usize)
    ensures
        r == trail_space(b@),
{
    let n = b.len();
    if n >= 1 && (b[n - 1] == 32 || (9 <= b[n - 1] && b[n - 1] <= 13)) {
        1
    } else if n >= 2 && b[n - 2] == 0xC2 && (b[n - 1] == 0x85 || b[n - 1] == 0xA0) {
        2
    } else if n >= 3 && ((b[n - 3] == 0xE1 && b[n - 2] == 0x9A && b[n - 1] == 0x80) || (b[n - 3]
        == 0xE2 && b[n - 2] == 0x80 && ((0x80 <= b[n - 1] && b[n - 1] <= 0x8A) || b[n - 1] == 0xA8
        || b[n - 1] == 0xA9 || b[n - 1] == 0xAF)) || (b[n - 3] == 0xE2 && b[n - 2] == 0x81 && b[n
        - 1] == 0x9F) || (b[n - 3] == 0xE3 && b[n - 2] == 0x80 && b[n - 1] == 0x80)) {
        3
    } else {
        0
    }
}

/// Whether `b` holds a white-space character anywhere.
pub fn contains_space(b: &[u8]) -> (r: bool)
    ensures
        r == has_space(b@),
{
    let n = b.len();
    let mut i: usize = 0;
    while i < n
        invariant
            n == b@.len(),
            i <= n,
            forall|j: int| 0 <= j < i ==> #[trigger] lead_space(b@.subrange(j, n as int)) == 0,
        decreases n - i,
    {
        let w = space_at_start(&b[i..n]);
        if w > 0 {
            return true;
        }
        i = i + 1;
    }
    false
}

/// `b` without leading and trailing white space.
pub fn trim(b: &[u8]) -> (r: &[u8])
    ensures
        r@ == trimmed(b@),
{
    let n = b.len();
    let mut i: usize = 0;
    assert(b@.subrange(0, n as int) =~= b@);
    loop
        invariant
            n == b@.len(),
            i <= n,
            trim_start(b@) == trim_start(b@.subrange(i as int, n as int)),
        ensures
            i <= n,
            trim_start(b@) == b@.subrange(i as int, n as int),
        decreases n - i,
    {
        let w = space_at_start(&b[i..n]);
        if w == 0 || w > n - i {
            break;
        }
        assert(b@.subrange(i as int, n as int).subrange(w as int, (n - i) as int) =~= b@.subrange(
            i + w,
            n as int,
        ));
        i = i + w;
    }
    let ghost rest = b@.subrange(i as int, n as int);
    let mut k: usize = n;
    loop
        invariant
            n == b@.len(),
            i <= k <= n,
            rest == b@.subrange(i as int, n as int),
            trim_end(rest) == trim_end(b@.subrange(i as int, k as int)),
        ensures
            i <= k <= n,
            trim_end(rest) == b@.subrange(i as int, k as int),
        decreases k,
    {
        let w = space_at_end(&b[i..k]);
        if w == 0 || w > k - i {
            break;
        }
        assert(b@.subrange(i as int, k as int).subrange(0, (k - i - w) as int) =~= b@.subrange(
            i as int,
            (k - w) as int,
        ));
        k = k - w;
    }
    &b[i..k]
}

} // verus!
