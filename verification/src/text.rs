//! Character-level helpers: the handful of `str`/`String`/`char` operations the
//! parser needs, over the `Seq<char>` views of strings.

use std::str::Chars;
use vstd::prelude::*;
use vstd::std_specs::iter::IteratorSpec;

verus! {

/// Whether `c` has the Unicode `White_Space` property (what
/// `char::is_whitespace` decides): the controls U+0009 to U+000D, the space,
/// U+0085, U+00A0, U+1680, U+2000 to U+200A, U+2028, U+2029, U+202F, U+205F
/// and U+3000.
pub open spec fn is_white_space(c: char) -> bool {
    let n = c as u32;
    ||| 0x09 <= n <= 0x0d
    ||| n == 0x20
    ||| n == 0x85
    ||| n == 0xa0
    ||| n == 0x1680
    ||| 0x2000 <= n <= 0x200a
    ||| n == 0x2028
    ||| n == 0x2029
    ||| n == 0x202f
    ||| n == 0x205f
    ||| n == 0x3000
}

/// Whether `c` has the Unicode `White_Space` property.
pub fn char_is_whitespace(c: char) -> (r: bool)
    ensures
        r == is_white_space(c),
{
    let n = c as u32;
    (0x09 <= n && n <= 0x0d) || n == 0x20 || n == 0x85 || n == 0xa0 || n == 0x1680 || (0x2000 <= n && n
        <= 0x200a) || n == 0x2028 || n == 0x2029 || n == 0x202f || n == 0x205f || n == 0x3000
}

/// The Unicode lowercase mapping of `s`, as `str::to_lowercase` computes it.
pub uninterp spec fn lowercase_of(s: Seq<char>) -> Seq<char>;

/// Whether every character of `s` is ASCII.
pub open spec fn is_ascii_text(s: Seq<char>) -> bool {
    forall|i: int| 0 <= i < s.len() ==> (#[trigger] s[i] as u32) < 0x80
}

/// Whether `c` is one of `A` to `Z`.
pub open spec fn is_ascii_upper(c: char) -> bool {
    0x41 <= (c as u32) <= 0x5a
}

/// `c` with `A` to `Z` turned into `a` to `z`.
pub open spec fn ascii_lower_char(c: char) -> char {
    if is_ascii_upper(c) {
        ((c as u32) + 0x20) as char
    } else {
        c
    }
}

/// `s` with `A` to `Z` turned into `a` to `z`, every other character kept.
pub open spec fn ascii_lowercase(s: Seq<char>) -> Seq<char> {
    s.map_values(|c: char| ascii_lower_char(c))
}

/// The lowercase form of `s`: on ASCII text each `A` to `Z` becomes `a` to
/// `z`; beyond it, the Unicode mapping `lowercase_of`.
pub open spec fn lowercased(s: Seq<char>) -> Seq<char> {
    if is_ascii_text(s) {
        ascii_lowercase(s)
    } else {
        lowercase_of(s)
    }
}

/// `str::to_lowercase`: the Unicode lowercase form of `s`. On ASCII text
/// that is `A` to `Z` turned into `a` to `z` and every other character kept;
/// beyond ASCII the mapping tables are not restated here (a name).
#[verifier::external_body]
pub(crate) fn to_lowercase(s: &str) -> (r: String)
    ensures
        r@ == lowercase_of(s@),
        is_ascii_text(s@) ==> r@ == ascii_lowercase(s@),
{
    s.to_lowercase()
}

/// `String::push`: appends one character.
#[verifier::external_body]
pub(crate) fn push_char(s: &mut String, c: char)
    ensures
        final(s)@ == old(s)@.push(c),
{
    s.push(c)
}

/// `str == str`: character-wise equality.
#[verifier::external_body]
pub(crate) fn str_eq(a: &str, b: &str) -> (r: bool)
    ensures
        r == (a@ == b@),
{
    a == b
}

/// `s` without its trailing Unicode white space (what `str::trim_end` keeps).
pub open spec fn trim_end_ws(s: Seq<char>) -> Seq<char>
    decreases s.len(),
{
    if s.len() > 0 && is_white_space(s.last()) {
        trim_end_ws(s.drop_last())
    } else {
        s
    }
}

/// `s` without its leading Unicode white space (what `str::trim_start` keeps).
pub open spec fn trim_start_ws(s: Seq<char>) -> Seq<char>
    decreases s.len(),
{
    if s.len() > 0 && is_white_space(s[0]) {
        trim_start_ws(s.drop_first())
    } else {
        s
    }
}

/// What `str::trim` keeps of `s`.
pub open spec fn trim_ws(s: Seq<char>) -> Seq<char> {
    trim_end_ws(trim_start_ws(s))
}

/// Drains `it` into a vector of its characters.
pub fn drain_chars(it: &mut Chars) -> (v: Vec<char>)
    requires
        (*old(it)).decrease() is Some,
    ensures
        v@ == (*old(it)).remaining(),
        (*final(it)).remaining().len() == 0,
        (*final(it)).decrease() is Some,
{
    let ghost s = (*it).remaining();
    let mut v: Vec<char> = Vec::new();
    loop
        invariant
            s == v@ + (*it).remaining(),
            (*it).decrease() is Some,
        ensures
            s == v@,
            (*it).remaining().len() == 0,
            (*it).decrease() is Some,
        decreases (*it).decrease()->0,
    {
        match it.next() {
            Some(c) => {
                v.push(c);
                assert(s == v@ + (*it).remaining());
            },
            None => {
                break ;
            },
        }
    }
    v
}

/// The characters of `s`.
pub fn chars_of(s: &str) -> (v: Vec<char>)
    ensures
        v@ == s@,
{
    let mut it = s.chars();
    drain_chars(&mut it)
}

/// The string made of `v[from..to]`.
pub fn string_of_range(v: &Vec<char>, from: usize, to: usize) -> (s: String)
    requires
        from <= to <= v@.len(),
    ensures
        s@ == v@.subrange(from as int, to as int),
{
    let mut s = String::new();
    let mut i = from;
    while i < to
        invariant
            from <= i <= to <= v@.len(),
            s@ == v@.subrange(from as int, i as int),
        decreases to - i,
    {
        push_char(&mut s, v[i]);
        i = i + 1;
        assert(s@ =~= v@.subrange(from as int, i as int));
    }
    s
}

/// The string made of all of `v`.
pub fn string_of(v: &Vec<char>) -> (s: String)
    ensures
        s@ == v@,
{
    let s = string_of_range(v, 0, v.len());
    assert(v@.subrange(0, v@.len() as int) =~= v@);
    s
}

/// The length of `v[..to]` once its trailing white space is dropped.
pub fn trimmed_end(v: &Vec<char>, to: usize) -> (n: usize)
    requires
        to <= v@.len(),
    ensures
        n <= to,
        v@.subrange(0, n as int) == trim_end_ws(v@.subrange(0, to as int)),
{
    let mut n = to;
    while n > 0 && char_is_whitespace(v[n - 1])
        invariant
            n <= to <= v@.len(),
            trim_end_ws(v@.subrange(0, n as int)) == trim_end_ws(v@.subrange(0, to as int)),
        decreases n,
    {
        assert(v@.subrange(0, n as int).drop_last() =~= v@.subrange(0, n - 1));
        n = n - 1;
    }
    n
}

/// The index of the first character of `v[from..]` that is not white space
/// (or `v.len()`).
pub fn trimmed_start(v: &Vec<char>, from: usize) -> (n: usize)
    requires
        from <= v@.len(),
    ensures
        from <= n <= v@.len(),
        v@.subrange(n as int, v@.len() as int) == trim_start_ws(v@.subrange(from as int, v@.len() as int)),
{
    let mut n = from;
    while n < v.len() && char_is_whitespace(v[n])
        invariant
            from <= n <= v@.len(),
            trim_start_ws(v@.subrange(n as int, v@.len() as int)) == trim_start_ws(v@.subrange(from as int, v@.len() as int)),
        decreases v@.len() - n,
    {
        assert(v@.subrange(n as int, v@.len() as int).drop_first() =~= v@.subrange(n + 1, v@.len() as int));
        n = n + 1;
    }
    n
}

/// `str::trim_end`: `s` without its trailing white space.
pub fn trim_end(s: &str) -> (r: String)
    ensures
        r@ == trim_end_ws(s@),
{
    let v = chars_of(s);
    let n = trimmed_end(&v, v.len());
    assert(v@.subrange(0, v@.len() as int) =~= v@);
    string_of_range(&v, 0, n)
}

/// `str::trim`: `s` without its leading and trailing white space.
pub fn trim(s: &str) -> (r: String)
    ensures
        r@ == trim_ws(s@),
{
    let v = chars_of(s);
    let a = trimmed_start(&v, 0);
    assert(v@.subrange(0, v@.len() as int) =~= v@);
    let w = string_of_range(&v, a, v.len());
    let wv = chars_of(w.as_str());
    let n = trimmed_end(&wv, wv.len());
    assert(wv@.subrange(0, wv@.len() as int) =~= wv@);
    string_of_range(&wv, 0, n)
}

/// `s` with every `from` character replaced by `to`.
pub open spec fn replace_char(s: Seq<char>, from: char, to: char) -> Seq<char> {
    s.map_values(|c: char| if c == from { to } else { c })
}

/// `str::replace` of one character by another.
pub fn replace_chars(s: &str, from: char, to: char) -> (r: String)
    ensures
        r@ == replace_char(s@, from, to),
{
    let v = chars_of(s);
    let mut r = String::new();
    let mut i: usize = 0;
    while i < v.len()
        invariant
            i <= v@.len(),
            v@ == s@,
            r@ == replace_char(v@.subrange(0, i as int), from, to),
        decreases v@.len() - i,
    {
        let c = v[i];
        if c == from {
            push_char(&mut r, to);
        } else {
            push_char(&mut r, c);
        }
        i = i + 1;
        assert(r@ =~= replace_char(v@.subrange(0, i as int), from, to));
    }
    assert(v@.subrange(0, v@.len() as int) =~= v@);
    r
}

} // verus!
