//! Character-level helpers shared by the parsers: whitespace, trimming, ASCII case folding and
//! Rust-style unsigned-integer parsing and printing.

use vstd::prelude::*;

verus! {

/// `String::push`: appends one character.
#[verifier::external_body]
pub(crate) fn push_char(s: &mut String, c: char)
    ensures
        final(s)@ == old(s)@.push(c),
{
    s.push(c);
}

/// The characters of a string slice, in order.
pub fn chars_of(s: &str) -> (r: Vec<char>)
    ensures
        r@ == s@,
{
    let mut out: Vec<char> = Vec::new();
    for c in it: s.chars()
        invariant
            it.seq() == s@,
            out@ == s@.take(it.index() as int),
    {
        out.push(c);
    }
    out
}

/// A `String` holding exactly these characters.
pub fn string_of(cs: &Vec<char>) -> (r: String)
    ensures
        r@ == cs@,
{
    let mut s = String::new();
    let mut i: usize = 0;
    while i < cs.len()
        invariant
            i <= cs.len(),
            s@ == cs@.take(i as int),
        decreases cs.len() - i,
    {
        proof {
            assert(cs@.take(i as int + 1) =~= cs@.take(i as int).push(cs@[i as int]));
        }
        push_char(&mut s, cs[i]);
        i += 1;
    }
    proof {
        assert(cs@.take(cs.len() as int) =~= cs@);
    }
    s
}

/// Rust's `char::is_whitespace`: the Unicode `White_Space` property.
pub open spec fn is_ws(c: char) -> bool {
    let u = c as u32;
    (0x09 <= u <= 0x0d) || u == 0x20 || u == 0x85 || u == 0xa0 || u == 0x1680 || (0x2000 <= u
        <= 0x200a) || u == 0x2028 || u == 0x2029 || u == 0x202f || u == 0x205f || u == 0x3000
}

pub fn is_whitespace(c: char) -> (r: bool)
    ensures
        r == is_ws(c),
{
    let u = c as u32;
    (0x09 <= u && u <= 0x0d) || u == 0x20 || u == 0x85 || u == 0xa0 || u == 0x1680 || (0x2000 <= u
        && u <= 0x200a) || u == 0x2028 || u == 0x2029 || u == 0x202f || u == 0x205f || u == 0x3000
}

/// Index of the first non-whitespace character at or after `i` (or the length).
pub open spec fn skip_ws(s: Seq<char>, i: int) -> int
    decreases s.len() - i,
{
    if 0 <= i < s.len() && is_ws(s[i]) {
        skip_ws(s, i + 1)
    } else {
        i
    }
}

/// End (exclusive) of the text before `j` once trailing whitespace down to `lo` is dropped.
pub open spec fn back_ws(s: Seq<char>, lo: int, j: int) -> int
    decreases j - lo,
{
    if lo < j && j <= s.len() && is_ws(s[j - 1]) {
        back_ws(s, lo, j - 1)
    } else {
        j
    }
}

/// `str::trim`: the text with leading and trailing whitespace removed.
pub open spec fn trim(s: Seq<char>) -> Seq<char> {
    let lo = skip_ws(s, 0);
    s.subrange(lo, back_ws(s, lo, s.len() as int))
}

pub fn trim_chars(s: &Vec<char>) -> (r: Vec<char>)
    ensures
        r@ == trim(s@),
{
    let mut lo: usize = 0;
    while lo < s.len() && is_whitespace(s[lo])
        invariant
            lo <= s.len(),
            skip_ws(s@, lo as int) == skip_ws(s@, 0),
        decreases s.len() - lo,
    {
        lo += 1;
    }
    let mut hi: usize = s.len();
    while hi > lo && is_whitespace(s[hi - 1])
        invariant
            lo <= hi <= s.len(),
            lo as int == skip_ws(s@, 0),
            back_ws(s@, lo as int, hi as int) == back_ws(s@, lo as int, s.len() as int),
        decreases hi - lo,
    {
        hi -= 1;
    }
    let mut out: Vec<char> = Vec::new();
    let mut k: usize = lo;
    while k < hi
        invariant
            lo <= k <= hi <= s.len(),
            out@ == s@.subrange(lo as int, k as int),
        decreases hi - k,
    {
        out.push(s[k]);
        k += 1;
    }
    out
}

/// `char::to_ascii_lowercase`: `A`..`Z` become `a`..`z`, everything else is unchanged.
pub open spec fn ascii_lower(c: char) -> char {
    if 'A' <= c <= 'Z' {
        ((c as u32) + 32) as char
    } else {
        c
    }
}

/// ASCII lowercasing of one character.
fn char_to_ascii_lowercase(c: char) -> (r: char)
    ensures
        r == ascii_lower(c),
{
    if 'A' <= c && c <= 'Z' {
        let b = (c as u8) + 32;
        b as char
    } else {
        c
    }
}

pub open spec fn lower(s: Seq<char>) -> Seq<char> {
    s.map_values(|c: char| ascii_lower(c))
}

pub fn lower_chars(s: &Vec<char>) -> (r: Vec<char>)
    ensures
        r@ == lower(s@),
{
    let mut out: Vec<char> = Vec::new();
    let mut i: usize = 0;
    while i < s.len()
        invariant
            i <= s.len(),
            out@ == lower(s@.take(i as int)),
        decreases s.len() - i,
    {
        out.push(char_to_ascii_lowercase(s[i]));
        i += 1;
        assert(lower(s@.take(i as int)) =~= lower(s@.take(i as int - 1)).push(ascii_lower(s@[i - 1])));
    }
    assert(s@.take(s.len() as int) =~= s@);
    out
}

/// The trimmed, ASCII-lowercased characters of a knob value (how every name-keyed knob is matched).
pub open spec fn normalize(s: Seq<char>) -> Seq<char> {
    lower(trim(s))
}

pub fn normalized(s: &str) -> (r: Vec<char>)
    ensures
        r@ == normalize(s@),
{
    lower_chars(&trim_chars(&chars_of(s)))
}

/// Equality of a character vector with a fixed word.
pub fn chars_eq(a: &Vec<char>, b: &[char]) -> (r: bool)
    ensures
        r == (a@ == b@),
{
    if a.len() != b.len() {
        return false;
    }
    let mut i: usize = 0;
    while i < a.len()
        invariant
            i <= a.len(),
            a.len() == b.len(),
            forall|k: int| 0 <= k < i ==> a@[k] == b@[k],
        decreases a.len() - i,
    {
        if a[i] != b[i] {
            return false;
        }
        i += 1;
    }
    assert(a@ =~= b@);
    true
}

pub open spec fn is_digit(c: char) -> bool {
    '0' <= c <= '9'
}

pub open spec fn digit_value(c: char) -> nat {
    ((c as u32) - ('0' as u32)) as nat
}

pub open spec fn all_digits(d: Seq<char>) -> bool {
    forall|i: int| 0 <= i < d.len() ==> is_digit(#[trigger] d[i])
}

/// The number a run of decimal digits spells.
pub open spec fn digits_value(d: Seq<char>) -> nat
    decreases d.len(),
{
    if d.len() == 0 {
        0
    } else {
        digits_value(d.drop_last()) * 10 + digit_value(d.last())
    }
}

/// Rust's `FromStr` for an unsigned integer type whose largest value is `max`: an optional leading
/// `+`, then at least one ASCII digit and nothing else, and a value no larger than `max`.
pub open spec fn parse_uint_spec(s: Seq<char>, max: nat) -> Option<nat> {
    let d = if s.len() > 0 && s[0] == '+' {
        s.drop_first()
    } else {
        s
    };
    if d.len() > 0 && all_digits(d) && digits_value(d) <= max {
        Some(digits_value(d))
    } else {
        None
    }
}

pub open spec fn capped_value(d: Seq<char>, cap: nat) -> nat {
    if digits_value(d) < cap {
        digits_value(d)
    } else {
        cap
    }
}

proof fn lemma_capped_step(d: Seq<char>, c: char, cap: nat)
    requires
        is_digit(c),
        cap > 0,
    ensures
        capped_value(d.push(c), cap) == (if capped_value(d, cap) * 10 + digit_value(c) < cap {
            capped_value(d, cap) * 10 + digit_value(c)
        } else {
            cap
        }),
{
    let e = d.push(c);
    assert(e.drop_last() =~= d);
    assert(digits_value(e) == digits_value(d) * 10 + digit_value(c));
    if digits_value(d) >= cap {
        assert(digits_value(d) * 10 >= cap) by (nonlinear_arith)
            requires
                digits_value(d) >= cap,
        ;
        assert(cap * 10 >= cap) by (nonlinear_arith);
    }
}

/// Parse an unsigned decimal the way Rust's `str::parse` does for a type bounded by `max`.
fn parse_uint(s: &Vec<char>, max: u64) -> (r: Option<u64>)
    requires
        max < 0xffff_ffff_ffff,
    ensures
        r matches Some(v) ==> parse_uint_spec(s@, max as nat) == Some(v as nat),
        r is None ==> parse_uint_spec(s@, max as nat) is None,
{
    let start: usize = if s.len() > 0 && s[0] == '+' {
        1
    } else {
        0
    };
    let ghost d = if s@.len() > 0 && s@[0] == '+' {
        s@.drop_first()
    } else {
        s@
    };
    assert(d =~= s@.subrange(start as int, s@.len() as int));
    if start >= s.len() {
        return None;
    }
    let cap: u64 = max + 1;
    let mut acc: u64 = 0;
    let mut i: usize = start;
    while i < s.len()
        invariant
            start <= i <= s.len(),
            d =~= s@.subrange(start as int, s@.len() as int),
            d == (if s@.len() > 0 && s@[0] == '+' {
                s@.drop_first()
            } else {
                s@
            }),
            cap == max + 1,
            cap < 0x1_0000_0000_0000,
            all_digits(s@.subrange(start as int, i as int)),
            acc as nat == capped_value(s@.subrange(start as int, i as int), cap as nat),
        decreases s.len() - i,
    {
        let c = s[i];
        if !('0' <= c && c <= '9') {
            assert(!all_digits(d)) by {
                assert(d[i - start] == c);
                assert(!is_digit(d[i - start]));
            }
            assert(parse_uint_spec(s@, max as nat) is None);
            return None;
        }
        proof {
            let p = s@.subrange(start as int, i as int);
            assert(s@.subrange(start as int, i as int + 1) =~= p.push(c));
            lemma_capped_step(p, c, cap as nat);
        }
        let v = acc * 10 + ((c as u32) - ('0' as u32)) as u64;
        acc = if v < cap {
            v
        } else {
            cap
        };
        i += 1;
    }
    if acc < cap {
        Some(acc)
    } else {
        None
    }
}

/// `str::parse::<u32>`.
pub fn parse_u32(s: &Vec<char>) -> (r: Option<u32>)
    ensures
        r matches Some(v) ==> parse_uint_spec(s@, u32::MAX as nat) == Some(v as nat),
        r is None ==> parse_uint_spec(s@, u32::MAX as nat) is None,
{
    match parse_uint(s, u32::MAX as u64) {
        Some(v) => Some(v as u32),
        None => None,
    }
}

/// `str::parse::<u16>`.
pub fn parse_u16(s: &Vec<char>) -> (r: Option<u16>)
    ensures
        r matches Some(v) ==> parse_uint_spec(s@, u16::MAX as nat) == Some(v as nat),
        r is None ==> parse_uint_spec(s@, u16::MAX as nat) is None,
{
    match parse_uint(s, u16::MAX as u64) {
        Some(v) => Some(v as u16),
        None => None,
    }
}

pub open spec fn digit_char(d: nat) -> char {
    (('0' as u32) + d) as char
}

/// The decimal digits of `n` (what `to_string` prints for an unsigned integer).
pub open spec fn decimal(n: nat) -> Seq<char>
    decreases n,
{
    if n < 10 {
        seq![digit_char(n)]
    } else {
        decimal(n / 10).push(digit_char(n % 10))
    }
}

/// Append the decimal digits of `n`.
pub fn push_decimal(s: &mut String, n: u64)
    ensures
        final(s)@ == old(s)@ + decimal(n as nat),
    decreases n,
{
    if n >= 10 {
        push_decimal(s, n / 10);
    }
    let d = (n % 10) as u32;
    let c = char_from_digit(d);
    push_char(s, c);
    proof {
        if n >= 10 {
            assert(old(s)@ + decimal(n as nat) =~= old(s)@ + decimal((n / 10) as nat) + seq![digit_char((n % 10) as nat)]);
        } else {
            assert(old(s)@ + decimal(n as nat) =~= old(s)@.push(digit_char(n as nat)));
        }
    }
}

/// The ASCII character of a decimal digit.
fn char_from_digit(d: u32) -> (c: char)
    requires
        d < 10,
    ensures
        c == digit_char(d as nat),
{
    let b = 48u8 + (d as u8);
    b as char
}

/// `u64::to_string`.
pub fn decimal_string(n: u64) -> (r: String)
    ensures
        r@ == decimal(n as nat),
{
    let mut s = String::new();
    push_decimal(&mut s, n);
    assert(s@ =~= decimal(n as nat));
    s
}

/// The decimal digits of `n` are a non-empty run of digits spelling `n`.
pub proof fn lemma_decimal_digits(n: nat)
    ensures
        decimal(n).len() > 0,
        all_digits(decimal(n)),
        digits_value(decimal(n)) == n,
    decreases n,
{
    if n < 10 {
        let d = decimal(n);
        assert(d.drop_last() =~= Seq::<char>::empty());
        assert(digits_value(d.drop_last()) == 0);
        assert(digit_value(digit_char(n)) == n);
        assert(d.last() == digit_char(n));
        assert(digits_value(d) == digits_value(d.drop_last()) * 10 + digit_value(d.last()));
    } else {
        lemma_decimal_digits(n / 10);
        let d = decimal(n);
        assert(d.drop_last() =~= decimal(n / 10));
        assert(d.last() == digit_char(n % 10));
        assert(digit_value(digit_char(n % 10)) == n % 10);
        assert(digits_value(d) == digits_value(decimal(n / 10)) * 10 + digit_value(d.last()));
        assert((n / 10) * 10 + n % 10 == n);
        assert forall|i: int| 0 <= i < d.len() implies is_digit(#[trigger] d[i]) by {
            if i < d.len() - 1 {
                assert(d[i] == decimal(n / 10)[i]);
            }
        }
    }
}

/// Printing a number in decimal and parsing it back (trimmed, as every knob is read) gives the
/// number again, whenever it fits the target type.
pub proof fn lemma_decimal_parses_back(n: nat, max: nat)
    requires
        n <= max,
    ensures
        trim(decimal(n)) == decimal(n),
        parse_uint_spec(decimal(n), max) == Some(n),
{
    lemma_decimal_digits(n);
    let d = decimal(n);
    assert(is_digit(d[0]));
    assert(!is_ws(d[0]));
    assert(is_digit(d[d.len() - 1]));
    assert(!is_ws(d[d.len() - 1]));
    assert(skip_ws(d, 0) == 0);
    assert(back_ws(d, 0, d.len() as int) == d.len());
    assert(d.subrange(0, d.len() as int) =~= d);
}

} // verus!
