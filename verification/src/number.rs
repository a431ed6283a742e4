//! Numbers in LDraw text: unsigned integers (decimal or hexadecimal), the
//! textual form of real numbers, and the decimal/hexadecimal rendering of
//! integers.

use vstd::prelude::*;

verus! {

// ---------------------------------------------------------------------------
// Unsigned integers, as `u32::from_str_radix` / `u8::from_str_radix` read them.
// ---------------------------------------------------------------------------

/// The value of `c` as a digit (letters of either case count from ten);
/// 36 for any other character.
pub open spec fn digit_value(c: char) -> nat {
    if '0' <= c && c <= '9' {
        (c as u32 - '0' as u32) as nat
    } else if 'a' <= c && c <= 'z' {
        (c as u32 - 'a' as u32 + 10) as nat
    } else if 'A' <= c && c <= 'Z' {
        (c as u32 - 'A' as u32 + 10) as nat
    } else {
        36
    }
}

/// Every character of `s` is a digit in `radix`.
pub open spec fn all_radix_digits(s: Seq<char>, radix: nat) -> bool {
    forall|i: int| 0 <= i < s.len() ==> #[trigger] digit_value(s[i]) < radix
}

/// The number that the digits `s` denote in `radix`.
pub open spec fn digits_value(s: Seq<char>, radix: nat) -> nat
    decreases s.len(),
{
    if s.len() == 0 {
        0
    } else {
        digits_value(s.drop_last(), radix) * radix + digit_value(s.last())
    }
}

/// What `from_str_radix` of an unsigned type whose largest value is `max`
/// returns for `s`: an optional `+`, then one or more digits of `radix`,
/// denoting at most `max`.
pub open spec fn spec_parse_unsigned(s: Seq<char>, radix: nat, max: nat) -> Option<nat> {
    let digits = if s.len() > 0 && s[0] == '+' {
        s.drop_first()
    } else {
        s
    };
    if digits.len() > 0 && all_radix_digits(digits, radix) && digits_value(digits, radix) <= max {
        Some(digits_value(digits, radix))
    } else {
        None
    }
}

proof fn lemma_digits_value_grows(s: Seq<char>, k: int, radix: nat)
    requires
        0 <= k <= s.len(),
        radix >= 1,
    ensures
        digits_value(s.subrange(0, k), radix) <= digits_value(s, radix),
    decreases s.len() - k,
{
    if k < s.len() {
        lemma_digits_value_grows(s.drop_last(), k, radix);
        assert(s.drop_last().subrange(0, k) =~= s.subrange(0, k));
        let a = digits_value(s.drop_last(), radix);
        assert(a * radix >= a) by (nonlinear_arith)
            requires
                radix >= 1,
        ;
    } else {
        assert(s.subrange(0, k) =~= s);
    }
}

/// Reads `v[from..to]` as an unsigned number in `radix` (10 or 16) no greater
/// than `max`, as `from_str_radix` of an unsigned integer type does.
pub fn parse_unsigned(v: &Vec<char>, from: usize, to: usize, radix: u32, max: u32) -> (r: Option<u32>)
    requires
        from <= to <= v@.len(),
        radix == 10 || radix == 16,
    ensures
        match r {
            Some(x) => spec_parse_unsigned(v@.subrange(from as int, to as int), radix as nat, max as nat) == Some(x as nat),
            None => spec_parse_unsigned(v@.subrange(from as int, to as int), radix as nat, max as nat) is None,
        },
{
    let ghost s = v@.subrange(from as int, to as int);
    let mut start = from;
    if from < to && v[from] == '+' {
        start = from + 1;
    }
    let ghost digits = v@.subrange(start as int, to as int);
    assert(digits =~= (if s.len() > 0 && s[0] == '+' { s.drop_first() } else { s }));
    if start == to {
        return None;
    }
    let mut acc: u64 = 0;
    let mut i = start;
    while i < to
        invariant
            start <= i <= to <= v@.len(),
            digits == v@.subrange(start as int, to as int),
            s == v@.subrange(from as int, to as int),
            digits == (if s.len() > 0 && s[0] == '+' { s.drop_first() } else { s }),
            digits.len() > 0,
            radix == 10 || radix == 16,
            all_radix_digits(v@.subrange(start as int, i as int), radix as nat),
            acc as nat == digits_value(v@.subrange(start as int, i as int), radix as nat),
            acc <= max,
        decreases to - i,
    {
        let c = v[i];
        let d: u32 = if '0' <= c && c <= '9' {
            (c as u32) - ('0' as u32)
        } else if 'a' <= c && c <= 'z' {
            (c as u32) - ('a' as u32) + 10
        } else if 'A' <= c && c <= 'Z' {
            (c as u32) - ('A' as u32) + 10
        } else {
            36
        };
        assert(d as nat == digit_value(c));
        if d >= radix {
            assert(!all_radix_digits(digits, radix as nat)) by {
                assert(digits[i - start] == c);
                assert(digit_value(digits[i - start]) >= radix as nat);
            }
            return None;
        }
        assert(acc * (radix as u64) <= 0xffff_ffffu64 * 16) by (nonlinear_arith)
            requires
                acc <= 0xffff_ffffu64,
                radix <= 16,
        ;
        let next: u64 = acc * (radix as u64) + (d as u64);
        let ghost prefix = v@.subrange(start as int, i + 1);
        assert(prefix.drop_last() =~= v@.subrange(start as int, i as int));
        assert(prefix.last() == c);
        assert(next as nat == digits_value(prefix, radix as nat));
        if next > max as u64 {
            proof {
                if all_radix_digits(digits, radix as nat) {
                    assert(digits.subrange(0, i + 1 - start) =~= prefix);
                    lemma_digits_value_grows(digits, i + 1 - start, radix as nat);
                }
            }
            return None;
        }
        acc = next;
        i = i + 1;
        assert forall|j: int| 0 <= j < prefix.len() implies #[trigger] digit_value(prefix[j]) < radix as nat by {
            if j < prefix.len() - 1 {
                assert(prefix[j] == v@.subrange(start as int, i - 1)[j]);
            }
        }
    }
    Some(acc as u32)
}

// ---------------------------------------------------------------------------
// The textual form of real numbers, as `f32::from_str` accepts it.
// ---------------------------------------------------------------------------

pub open spec fn is_ascii_digit(c: char) -> bool {
    '0' <= c && c <= '9'
}

pub open spec fn all_ascii_digits(s: Seq<char>) -> bool {
    forall|i: int| 0 <= i < s.len() ==> #[trigger] is_ascii_digit(s[i])
}

/// ASCII letters in lower case; other characters unchanged.
pub open spec fn ascii_lower(c: char) -> char {
    if 'A' <= c && c <= 'Z' {
        ((c as u32) + 32) as char
    } else {
        c
    }
}

/// `s` without one leading `+` or `-`.
pub open spec fn strip_sign(s: Seq<char>) -> Seq<char> {
    if s.len() > 0 && (s[0] == '+' || s[0] == '-') {
        s.drop_first()
    } else {
        s
    }
}

/// The first index at or after `i` holding `a` or `b` (the length if none).
pub open spec fn first_of(s: Seq<char>, a: char, b: char, i: int) -> int
    decreases s.len() - i,
{
    if i < 0 || i >= s.len() {
        s.len() as int
    } else if s[i] == a || s[i] == b {
        i
    } else {
        first_of(s, a, b, i + 1)
    }
}

/// `inf`, `infinity` or `nan`, in any case.
pub open spec fn is_special_number(s: Seq<char>) -> bool {
    let l = s.map_values(|c: char| ascii_lower(c));
    l == seq!['i', 'n', 'f'] || l == seq!['i', 'n', 'f', 'i', 'n', 'i', 't', 'y'] || l == seq![
        'n',
        'a',
        'n',
    ]
}

/// `Digit+ | Digit+ '.' Digit* | Digit* '.' Digit+`
pub open spec fn is_mantissa(m: Seq<char>) -> bool {
    let d = first_of(m, '.', '.', 0);
    if d == m.len() {
        m.len() > 0 && all_ascii_digits(m)
    } else {
        m.len() > 1 && all_ascii_digits(m.subrange(0, d)) && all_ascii_digits(m.skip(d + 1))
    }
}

/// `Sign? Digit+`
pub open spec fn is_exponent(x: Seq<char>) -> bool {
    strip_sign(x).len() > 0 && all_ascii_digits(strip_sign(x))
}

/// `Mantissa (('e' | 'E') Exponent)?`
pub open spec fn is_unsigned_decimal(b: Seq<char>) -> bool {
    let e = first_of(b, 'e', 'E', 0);
    is_mantissa(b.subrange(0, e)) && (e == b.len() || is_exponent(b.skip(e + 1)))
}

/// The grammar that `f32::from_str` documents for the strings it accepts:
/// `Sign? ('inf' | 'infinity' | 'nan' | Number)`, letters in any case.
pub open spec fn is_real_literal(s: Seq<char>) -> bool {
    is_unsigned_decimal(strip_sign(s)) || is_special_number(strip_sign(s))
}

pub(crate) proof fn lemma_first_of(s: Seq<char>, a: char, b: char, i: int)
    requires
        0 <= i <= s.len(),
    ensures
        i <= first_of(s, a, b, i) <= s.len(),
        forall|j: int| i <= j < first_of(s, a, b, i) ==> s[j] != a && s[j] != b,
        first_of(s, a, b, i) < s.len() ==> (s[first_of(s, a, b, i)] == a || s[first_of(s, a, b, i)] == b),
    decreases s.len() - i,
{
    if i < s.len() && !(s[i] == a || s[i] == b) {
        lemma_first_of(s, a, b, i + 1);
    }
}

/// A character that may appear in a real number as written: a digit, a
/// letter, a sign, a point.
pub open spec fn is_literal_char(c: char) -> bool {
    ('0' <= c && c <= '9') || ('a' <= c && c <= 'z') || ('A' <= c && c <= 'Z') || c == '+' || c == '-' || c == '.'
}

proof fn lemma_digits_are_literal_chars(s: Seq<char>)
    requires
        all_ascii_digits(s),
    ensures
        forall|i: int| 0 <= i < s.len() ==> is_literal_char(#[trigger] s[i]),
{
    assert forall|i: int| 0 <= i < s.len() implies is_literal_char(#[trigger] s[i]) by {
        assert(is_ascii_digit(s[i]));
    }
}

/// Every character of a real number as written is a digit, a letter, a sign
/// or a point, and there is at least one.
pub proof fn lemma_real_literal_chars(t: Seq<char>)
    requires
        is_real_literal(t),
    ensures
        t.len() > 0,
        forall|i: int| 0 <= i < t.len() ==> is_literal_char(#[trigger] t[i]),
{
    let signed = t.len() > 0 && (t[0] == '+' || t[0] == '-');
    let b = strip_sign(t);
    let off: int = if signed { 1 } else { 0 };
    assert(forall|i: int| 0 <= i < b.len() ==> b[i] == t[i + off]);
    assert(t.len() == b.len() + off);
    if is_special_number(b) {
        let l = b.map_values(|c: char| ascii_lower(c));
        assert(b.len() > 0) by {
            assert(l.len() == b.len());
        }
        assert forall|i: int| 0 <= i < b.len() implies is_literal_char(#[trigger] b[i]) by {
            assert(l[i] == ascii_lower(b[i]));
            assert('a' <= l[i] && l[i] <= 'z');
        }
    } else {
        let e = first_of(b, 'e', 'E', 0);
        lemma_first_of(b, 'e', 'E', 0);
        let m = b.subrange(0, e);
        let d = first_of(m, '.', '.', 0);
        lemma_first_of(m, '.', '.', 0);
        assert(m.len() > 0);
        if d == m.len() {
            lemma_digits_are_literal_chars(m);
        } else {
            lemma_digits_are_literal_chars(m.subrange(0, d));
            lemma_digits_are_literal_chars(m.skip(d + 1));
            assert forall|i: int| 0 <= i < m.len() implies is_literal_char(#[trigger] m[i]) by {
                if i < d {
                    assert(m[i] == m.subrange(0, d)[i]);
                } else if i > d {
                    assert(m[i] == m.skip(d + 1)[i - d - 1]);
                }
            }
        }
        if e < b.len() {
            let x = b.skip(e + 1);
            let xs = strip_sign(x);
            lemma_digits_are_literal_chars(xs);
            assert forall|i: int| 0 <= i < x.len() implies is_literal_char(#[trigger] x[i]) by {
                if x.len() > 0 && (x[0] == '+' || x[0] == '-') {
                    if i > 0 {
                        assert(x[i] == xs[i - 1]);
                    }
                } else {
                    assert(x[i] == xs[i]);
                }
            }
        }
        assert forall|i: int| 0 <= i < b.len() implies is_literal_char(#[trigger] b[i]) by {
            if i < e {
                assert(b[i] == m[i]);
            } else if i > e {
                assert(b[i] == b.skip(e + 1)[i - e - 1]);
            }
        }
    }
    assert forall|i: int| 0 <= i < t.len() implies is_literal_char(#[trigger] t[i]) by {
        if signed && i == 0 {
        } else {
            assert(t[i] == b[i - off]);
        }
    }
}

fn first_of_in(v: &Vec<char>, from: usize, to: usize, a: char, b: char) -> (r: usize)
    requires
        from <= to <= v@.len(),
    ensures
        from <= r <= to,
        r - from == first_of(v@.subrange(from as int, to as int), a, b, 0),
{
    let ghost s = v@.subrange(from as int, to as int);
    proof {
        lemma_first_of(s, a, b, 0);
    }
    let mut i = from;
    while i < to && v[i] != a && v[i] != b
        invariant
            from <= i <= to <= v@.len(),
            s == v@.subrange(from as int, to as int),
            i - from <= first_of(s, a, b, 0),
            i <= to,
            0 <= first_of(s, a, b, 0) <= s.len(),
            forall|j: int| 0 <= j < first_of(s, a, b, 0) ==> s[j] != a && s[j] != b,
            first_of(s, a, b, 0) < s.len() ==> (s[first_of(s, a, b, 0)] == a || s[first_of(s, a, b, 0)] == b),
        decreases to - i,
    {
        assert(s[i - from] == v[i as int]);
        i = i + 1;
    }
    if i < to {
        assert(s[i - from] == v[i as int]);
    }
    i
}

fn all_digits_in(v: &Vec<char>, from: usize, to: usize) -> (r: bool)
    requires
        from <= to <= v@.len(),
    ensures
        r == all_ascii_digits(v@.subrange(from as int, to as int)),
{
    let mut i = from;
    while i < to
        invariant
            from <= i <= to <= v@.len(),
            all_ascii_digits(v@.subrange(from as int, i as int)),
        decreases to - i,
    {
        if !('0' <= v[i] && v[i] <= '9') {
            assert(v@.subrange(from as int, to as int)[i - from] == v[i as int]);
            assert(!is_ascii_digit(v@.subrange(from as int, to as int)[i - from]));
            return false;
        }
        i = i + 1;
        assert forall|j: int| 0 <= j < i - from implies #[trigger] is_ascii_digit(v@.subrange(from as int, i as int)[j]) by {
            if j < i - 1 - from {
                assert(v@.subrange(from as int, i as int)[j] == v@.subrange(from as int, i - 1)[j]);
            }
        }
    }
    true
}

fn lower(c: char) -> (r: char)
    ensures
        r == ascii_lower(c),
{
    if 'A' <= c && c <= 'Z' {
        ((c as u8) + 32) as char
    } else {
        c
    }
}

fn is_word_in(v: &Vec<char>, from: usize, to: usize, w: &Vec<char>) -> (r: bool)
    requires
        from <= to <= v@.len(),
    ensures
        r == (v@.subrange(from as int, to as int).map_values(|c: char| ascii_lower(c)) == w@),
{
    let ghost l = v@.subrange(from as int, to as int).map_values(|c: char| ascii_lower(c));
    if to - from != w.len() {
        assert(l.len() != w@.len());
        return false;
    }
    let mut i: usize = 0;
    while i < w.len()
        invariant
            i <= w@.len() == to - from,
            from <= to <= v@.len(),
            l == v@.subrange(from as int, to as int).map_values(|c: char| ascii_lower(c)),
            forall|j: int| 0 <= j < i ==> l[j] == w@[j],
        decreases w@.len() - i,
    {
        if lower(v[from + i]) != w[i] {
            assert(l[i as int] != w@[i as int]);
            return false;
        }
        i = i + 1;
    }
    assert(l =~= w@);
    true
}

/// Whether `v[from..to]` is a number as `f32::from_str` accepts it.
pub fn is_real_literal_in(v: &Vec<char>, from: usize, to: usize) -> (r: bool)
    requires
        from <= to <= v@.len(),
    ensures
        r == is_real_literal(v@.subrange(from as int, to as int)),
{
    let ghost s = v@.subrange(from as int, to as int);
    let mut b = from;
    if from < to && (v[from] == '+' || v[from] == '-') {
        b = from + 1;
    }
    let ghost bs = v@.subrange(b as int, to as int);
    assert(bs =~= strip_sign(s));
    let special = is_word_in(v, b, to, &vec!['i', 'n', 'f']) || is_word_in(
        v,
        b,
        to,
        &vec!['i', 'n', 'f', 'i', 'n', 'i', 't', 'y'],
    ) || is_word_in(v, b, to, &vec!['n', 'a', 'n']);
    if special {
        return true;
    }
    // exponent
    let e = first_of_in(v, b, to, 'e', 'E');
    let exp_ok = if e == to {
        true
    } else {
        let mut x = e + 1;
        if x < to && (v[x] == '+' || v[x] == '-') {
            x = x + 1;
        }
        assert(v@.subrange(x as int, to as int) =~= strip_sign(bs.skip(e - b + 1)));
        x < to && all_digits_in(v, x, to)
    };
    // mantissa
    let d = first_of_in(v, b, e, '.', '.');
    assert(v@.subrange(b as int, e as int) =~= bs.subrange(0, e - b));
    let mant_ok = if d == e {
        e > b && all_digits_in(v, b, e)
    } else {
        assert(v@.subrange(b as int, d as int) =~= bs.subrange(0, e - b).subrange(0, d - b));
        assert(v@.subrange(d + 1, e as int) =~= bs.subrange(0, e - b).skip(d - b + 1));
        e - b > 1 && all_digits_in(v, b, d) && all_digits_in(v, d + 1, e)
    };
    mant_ok && exp_ok
}

// ---------------------------------------------------------------------------
// Rendering integers in decimal and lower-case hexadecimal.
// ---------------------------------------------------------------------------

/// The lower-case digit character for `d < 16`.
pub open spec fn digit_char(d: nat) -> char {
    if d < 10 {
        (d + 48) as char
    } else {
        (d + 87) as char
    }
}

/// `n` in decimal, as `{}` formats it.
pub open spec fn decimal(n: nat) -> Seq<char>
    decreases n,
{
    if n < 10 {
        seq![digit_char(n)]
    } else {
        decimal(n / 10).push(digit_char(n % 10))
    }
}

/// The decimal digits of `n` read back as `n`.
pub proof fn lemma_decimal_parses(n: nat)
    ensures
        decimal(n).len() > 0,
        all_radix_digits(decimal(n), 10),
        digits_value(decimal(n), 10) == n,
        '0' <= decimal(n)[0] <= '9',
        n <= 0xffff_ffff ==> spec_parse_unsigned(decimal(n), 10, 0xffff_ffff) == Some(n),
    decreases n,
{
    let d = decimal(n);
    if n < 10 {
        assert(d =~= seq![digit_char(n)]);
        assert(d.drop_last() =~= Seq::<char>::empty());
        assert(digit_value(digit_char(n)) == n);
        assert(d.last() == digit_char(n));
        assert(digits_value(d, 10) == digits_value(d.drop_last(), 10) * 10 + digit_value(d.last()));
        assert(digits_value(Seq::<char>::empty(), 10) == 0);
    } else {
        lemma_decimal_parses(n / 10);
        let p = decimal(n / 10);
        let c = digit_char(n % 10);
        assert(d == p.push(c));
        assert(d.drop_last() =~= p);
        assert(digit_value(c) == n % 10);
        assert forall|i: int| 0 <= i < d.len() implies #[trigger] digit_value(d[i]) < 10 by {
            if i < p.len() {
                assert(d[i] == p[i]);
            }
        }
        assert(d[0] == p[0]);
        assert(d.last() == c);
        assert(digits_value(d, 10) == digits_value(p, 10) * 10 + digit_value(c));
        assert((n / 10) * 10 + n % 10 == n);
    }
    assert(d[0] != '+');
}

/// `n` in lower-case hexadecimal, as `{:x}` formats it.
pub open spec fn hexadecimal(n: nat) -> Seq<char>
    decreases n,
{
    if n < 16 {
        seq![digit_char(n)]
    } else {
        hexadecimal(n / 16).push(digit_char(n % 16))
    }
}

/// `s` padded on the left with `0` to at least `width` characters, as the
/// `0` flag with a width does.
pub open spec fn zero_padded(s: Seq<char>, width: nat) -> Seq<char> {
    if s.len() < width {
        Seq::new((width - s.len()) as nat, |i: int| '0') + s
    } else {
        s
    }
}

fn digit(d: u32) -> (c: char)
    requires
        d < 16,
    ensures
        c == digit_char(d as nat),
{
    if d < 10 {
        ((d as u8) + 48) as char
    } else {
        ((d as u8) + 87) as char
    }
}

/// Appends `n` in decimal.
pub fn push_decimal(s: &mut String, n: u64)
    ensures
        final(s)@ == old(s)@ + decimal(n as nat),
    decreases n,
{
    if n >= 10 {
        push_decimal(s, n / 10);
    }
    crate::text::push_char(s, digit((n % 10) as u32));
}

/// Appends `n` in lower-case hexadecimal.
pub fn push_hexadecimal(s: &mut String, n: u32)
    ensures
        final(s)@ == old(s)@ + hexadecimal(n as nat),
    decreases n,
{
    if n >= 16 {
        push_hexadecimal(s, n / 16);
    }
    crate::text::push_char(s, digit(n % 16));
}

/// Appends `n` in lower-case hexadecimal, zero-padded to `width` digits.
pub fn push_hexadecimal_padded(s: &mut String, n: u32, width: usize)
    ensures
        final(s)@ == old(s)@ + zero_padded(hexadecimal(n as nat), width as nat),
{
    let mut h = String::new();
    push_hexadecimal(&mut h, n);
    let hv = crate::text::chars_of(h.as_str());
    assert(hv@ =~= hexadecimal(n as nat));
    let l = hv.len();
    let ghost before = s@;
    let mut pad = l;
    while pad < width
        invariant
            l <= pad,
            pad <= width || pad == l,
            s@ == before + Seq::new((pad - l) as nat, |i: int| '0'),
        decreases width - pad,
    {
        crate::text::push_char(s, '0');
        pad = pad + 1;
        assert(s@ =~= before + Seq::new((pad - l) as nat, |i: int| '0'));
    }
    let ghost padded = s@;
    let mut i: usize = 0;
    while i < l
        invariant
            i <= l == hv@.len(),
            s@ == padded + hv@.subrange(0, i as int),
        decreases l - i,
    {
        crate::text::push_char(s, hv[i]);
        i = i + 1;
        assert(s@ =~= padded + hv@.subrange(0, i as int));
    }
    assert(hv@.subrange(0, l as int) =~= hv@);
    assert(s@ =~= old(s)@ + zero_padded(hexadecimal(n as nat), width as nat));
}

} // verus!

verus! {

/// A real number as it is written in LDraw text: the token itself, which
/// `f32::from_str` accepts (`wf`). Reading it as a machine number, and
/// printing one, is left to the caller.
#[derive(Debug, PartialEq)]
pub struct Decimal {
    pub text: String,
}

impl View for Decimal {
    type V = Seq<char>;

    open spec fn view(&self) -> Seq<char> {
        self.text@
    }
}

impl Clone for Decimal {
    fn clone(&self) -> (res: Self)
        ensures
            res == *self,
    {
        Decimal { text: self.text.clone() }
    }
}

impl Decimal {
    /// The token is a number that `f32::from_str` accepts.
    pub open spec fn wf(&self) -> bool {
        is_real_literal(self@)
    }

    /// The number zero, written `0`.
    pub fn zero() -> (res: Decimal)
        ensures
            res@ == seq!['0'],
            res.wf(),
    {
        let mut text = String::new();
        crate::text::push_char(&mut text, '0');
        let res = Decimal { text };
        assert(res@ =~= seq!['0']);
        assert(is_unsigned_decimal(strip_sign(res@))) by {
            assert(strip_sign(res@) =~= res@);
            assert(first_of(res@, 'e', 'E', 0) == 1) by {
                assert(first_of(res@, 'e', 'E', 1) == 1);
            }
            assert(res@.subrange(0, 1) =~= res@);
            assert(first_of(res@, '.', '.', 0) == 1) by {
                assert(first_of(res@, '.', '.', 1) == 1);
            }
        }
        res
    }

    /// The number one, written `1`.
    pub fn one() -> (res: Decimal)
        ensures
            res@ == seq!['1'],
            res.wf(),
    {
        let mut text = String::new();
        crate::text::push_char(&mut text, '1');
        let res = Decimal { text };
        assert(res@ =~= seq!['1']);
        assert(is_unsigned_decimal(strip_sign(res@))) by {
            assert(strip_sign(res@) =~= res@);
            assert(first_of(res@, 'e', 'E', 0) == 1) by {
                assert(first_of(res@, 'e', 'E', 1) == 1);
            }
            assert(res@.subrange(0, 1) =~= res@);
            assert(first_of(res@, '.', '.', 0) == 1) by {
                assert(first_of(res@, '.', '.', 1) == 1);
            }
        }
        res
    }
}

} // verus!
