use vstd::prelude::*;

verus! {

/// The Unicode `White_Space` property, as `char::is_whitespace` reports it.
pub uninterp spec fn white_space(c: char) -> bool;

/// The Unicode `Alphabetic` property, as `char::is_alphabetic` reports it.
pub uninterp spec fn alphabetic(c: char) -> bool;

/// Whitespace: among ASCII characters the space and `'\t'` through `'\r'`
/// (which includes the newline); elsewhere the Unicode `White_Space` property.
pub open spec fn is_space(c: char) -> bool {
    if (c as u32) < 128 {
        c == ' ' || ('\t' <= c && c <= '\r')
    } else {
        white_space(c)
    }
}

/// A letter: among ASCII characters `a`..`z` and `A`..`Z`; elsewhere the
/// Unicode `Alphabetic` property.
pub open spec fn is_letter(c: char) -> bool {
    if (c as u32) < 128 {
        ('a' <= c && c <= 'z') || ('A' <= c && c <= 'Z')
    } else {
        alphabetic(c)
    }
}

pub open spec fn is_digit(c: char) -> bool {
    '0' <= c && c <= '9'
}

pub open spec fn is_ascii_alnum(c: char) -> bool {
    is_digit(c) || ('a' <= c && c <= 'z') || ('A' <= c && c <= 'Z')
}

/// Relies on `char::is_whitespace`: true for characters with the Unicode
/// `White_Space` property, which among ASCII characters are the space and
/// `'\t'` through `'\r'`.
#[verifier::external_body]
fn std_is_whitespace(c: char) -> (r: bool)
    ensures
        r == white_space(c),
        (c as u32) < 128 ==> (r <==> (c == ' ' || ('\t' <= c && c <= '\r'))),
{
    c.is_whitespace()
}

/// Relies on `char::is_alphabetic`: true for characters with the Unicode
/// `Alphabetic` property, which among ASCII characters are the letters.
#[verifier::external_body]
fn std_is_alphabetic(c: char) -> (r: bool)
    ensures
        r == alphabetic(c),
        (c as u32) < 128 ==> (r <==> (('a' <= c && c <= 'z') || ('A' <= c && c <= 'Z'))),
{
    c.is_alphabetic()
}

/// Relies on `String::push`: appends one character at the end.
#[verifier::external_body]
pub(crate) fn push_char(s: &mut String, c: char)
    ensures
        final(s)@ == old(s)@.push(c),
{
    s.push(c)
}

pub fn space(c: char) -> (r: bool)
    ensures
        r == is_space(c),
{
    std_is_whitespace(c)
}

pub fn letter(c: char) -> (r: bool)
    ensures
        r == is_letter(c),
{
    std_is_alphabetic(c)
}

/// The characters of `s`, in order.
pub fn chars_of(s: &String) -> (r: Vec<char>)
    ensures
        r@ == s@,
{
    let mut v: Vec<char> = Vec::new();
    for c in it: s.as_str().chars()
        invariant
            v@ == it.seq().take(it.index() as int),
    {
        v.push(c);
    }
    v
}

/// A string holding the characters `v[start..end]`.
pub fn string_of(v: &Vec<char>, start: usize, end: usize) -> (r: String)
    requires
        start <= end <= v@.len(),
    ensures
        r@ == v@.subrange(start as int, end as int),
{
    let mut s = String::new();
    let mut i: usize = start;
    while i < end
        invariant
            start <= i <= end <= v@.len(),
            s@ == v@.subrange(start as int, i as int),
        decreases end - i,
    {
        push_char(&mut s, v[i]);
        assert(v@.subrange(start as int, i + 1) =~= v@.subrange(start as int, i as int).push(v@[i as int]));
        i += 1;
    }
    s
}

/// Whether `a` and `b` hold the same characters.
pub fn same_text(a: &str, b: &str) -> (r: bool)
    ensures
        r == (a@ == b@),
{
    let n = a.unicode_len();
    if n != b.unicode_len() {
        return false;
    }
    let mut k: usize = 0;
    while k < n
        invariant
            n == a@.len() == b@.len(),
            k <= n,
            forall|j: int| 0 <= j < k ==> a@[j] == b@[j],
        decreases n - k,
    {
        if a.get_char(k) != b.get_char(k) {
            return false;
        }
        k += 1;
    }
    assert(a@ =~= b@);
    true
}

/// Appends the characters of `w` to `s`.
pub fn append_str(s: &mut String, w: &str)
    ensures
        final(s)@ == old(s)@ + w@,
{
    let n = w.unicode_len();
    let mut k: usize = 0;
    while k < n
        invariant
            n == w@.len(),
            k <= n,
            s@ == old(s)@ + w@.subrange(0, k as int),
        decreases n - k,
    {
        push_char(s, w.get_char(k));
        assert(w@.subrange(0, k + 1) =~= w@.subrange(0, k as int).push(w@[k as int]));
        k += 1;
    }
    assert(w@.subrange(0, n as int) =~= w@);
}

} // verus!
