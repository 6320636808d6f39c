//! Decimal text for unsigned numbers and digit scanning over character
//! sequences. This is the numeric groundwork for the configuration codec
//! and for port-string validation.

use vstd::prelude::*;
use vstd::string::StrSliceExecFns;

verus! {

/// Relies on `String::push` from std: appends the given character to the
/// end of the string.
pub assume_specification[ String::push ](s: &mut String, ch: char)
    ensures
        final(s)@ == old(s)@.push(ch),
;

/// Whether `c` is an ASCII decimal digit.
pub open spec fn is_digit(c: char) -> bool {
    48 <= c as u32 <= 57
}

/// The numeric value of a digit character.
pub open spec fn char_digit(c: char) -> int {
    c as u32 - 48
}

/// The digit character for a value in 0..10.
pub open spec fn digit_char(d: int) -> char {
    if d == 0 {
        '0'
    } else if d == 1 {
        '1'
    } else if d == 2 {
        '2'
    } else if d == 3 {
        '3'
    } else if d == 4 {
        '4'
    } else if d == 5 {
        '5'
    } else if d == 6 {
        '6'
    } else if d == 7 {
        '7'
    } else if d == 8 {
        '8'
    } else {
        '9'
    }
}

/// The usual decimal rendering of `n`, most significant digit first, with
/// no leading zeros (except for `n == 0` itself).
pub open spec fn dec_of(n: nat) -> Seq<char>
    decreases n,
{
    if n < 10 {
        seq![digit_char(n as int)]
    } else {
        dec_of(n / 10).push(digit_char((n % 10) as int))
    }
}

/// The value of the digit string `s[i..j]`, read most significant first.
pub open spec fn digits_val(s: Seq<char>, i: int, j: int) -> int
    decreases j - i,
{
    if j <= i {
        0
    } else {
        digits_val(s, i, j - 1) * 10 + char_digit(s[j - 1])
    }
}

/// The first position at or after `i` that is past the end of `s` or does
/// not hold a digit.
pub open spec fn digits_end(s: Seq<char>, i: int) -> int
    decreases s.len() - i,
{
    if !(0 <= i < s.len()) {
        i
    } else if !is_digit(s[i]) {
        i
    } else {
        digits_end(s, i + 1)
    }
}

/// Reading an unsigned decimal number at position `i`: `None` when no digit
/// stands there, otherwise the value of the maximal digit run and the
/// position just past it.
pub open spec fn parse_nat(s: Seq<char>, i: int) -> Option<(nat, int)> {
    let j = digits_end(s, i);
    if j == i {
        None
    } else {
        Some((digits_val(s, i, j) as nat, j))
    }
}

proof fn lemma_digit_char_val(d: int)
    requires
        0 <= d < 10,
    ensures
        is_digit(digit_char(d)),
        char_digit(digit_char(d)) == d,
{
}

/// Every character of a decimal rendering is a digit, and there is at
/// least one.
pub proof fn lemma_dec_of_digits(n: nat)
    ensures
        dec_of(n).len() >= 1,
        forall|k: int| 0 <= k < dec_of(n).len() ==> is_digit(#[trigger] dec_of(n)[k]),
    decreases n,
{
    if n < 10 {
        lemma_digit_char_val(n as int);
    } else {
        lemma_dec_of_digits(n / 10);
        lemma_digit_char_val((n % 10) as int);
        assert(forall|k: int|
            0 <= k < dec_of(n).len() - 1 ==> #[trigger] dec_of(n)[k] == dec_of(n / 10)[k]);
    }
}

/// `digits_val` looks only at the characters in `[i, j)`.
proof fn lemma_digits_val_same(s: Seq<char>, t: Seq<char>, i: int, j: int)
    requires
        forall|k: int| i <= k < j ==> s[k] == t[k],
    ensures
        digits_val(s, i, j) == digits_val(t, i, j),
    decreases j - i,
{
    if j > i {
        lemma_digits_val_same(s, t, i, j - 1);
    }
}

/// The value of a decimal rendering, read back digit by digit, is the
/// number itself.
proof fn lemma_digits_val_dec_of(n: nat)
    ensures
        digits_val(dec_of(n), 0, dec_of(n).len() as int) == n,
    decreases n,
{
    if n < 10 {
        lemma_digit_char_val(n as int);
        let s = dec_of(n);
        assert(s == seq![digit_char(n as int)]);
        assert(digits_val(s, 0, 0) == 0);
        assert(digits_val(s, 0, 1) == digits_val(s, 0, 0) * 10 + char_digit(s[0]));
    } else {
        let s = dec_of(n);
        let p = dec_of(n / 10);
        let l = p.len() as int;
        assert(s == p.push(digit_char((n % 10) as int)));
        assert(s.len() == l + 1);
        assert(forall|k: int| 0 <= k < l ==> s[k] == p[k]);
        lemma_digits_val_dec_of(n / 10);
        lemma_digits_val_same(s, p, 0, l);
        assert(digits_val(s, 0, l) == n / 10);
        lemma_digit_char_val((n % 10) as int);
        assert(s[l] == digit_char((n % 10) as int));
        assert(char_digit(s[l]) == n % 10);
        assert(digits_val(s, 0, l + 1) == digits_val(s, 0, l) * 10 + char_digit(s[l]));
        assert(n / 10 * 10 + n % 10 == n);
    }
}

/// When `[i, j)` holds digits and `j` is past the end or a non-digit, the
/// digit run starting at `i` ends exactly at `j`.
proof fn lemma_digits_end_at(s: Seq<char>, i: int, j: int)
    requires
        0 <= i <= j <= s.len(),
        forall|k: int| i <= k < j ==> is_digit(#[trigger] s[k]),
        j == s.len() || !is_digit(s[j]),
    ensures
        digits_end(s, i) == j,
    decreases j - i,
{
    if i < j {
        lemma_digits_end_at(s, i + 1, j);
    }
}

/// Appending digits never decreases the value of a digit run.
pub proof fn lemma_digits_val_monotone(s: Seq<char>, i: int, j: int, j2: int)
    requires
        i <= j <= j2,
        forall|k: int| i <= k < j2 ==> is_digit(#[trigger] s[k]),
    ensures
        digits_val(s, i, j) <= digits_val(s, i, j2),
        digits_val(s, i, j) >= 0,
    decreases j2 - i + (j2 - j),
{
    if j < j2 {
        lemma_digits_val_monotone(s, i, j, j2 - 1);
        lemma_digits_val_monotone(s, i, j2 - 1, j2 - 1);
    } else if j > i {
        lemma_digits_val_monotone(s, i, j - 1, j - 1);
    }
}

/// Where the characters of `dec_of(n)` stand at position `i` of `s`,
/// followed by the end of `s` or a non-digit, reading a number at `i`
/// yields exactly `n` and stops right after the rendering.
pub proof fn lemma_parse_nat_of_dec(s: Seq<char>, i: int, n: nat)
    requires
        0 <= i,
        i + dec_of(n).len() <= s.len(),
        forall|k: int| 0 <= k < dec_of(n).len() ==> s[i + k] == #[trigger] dec_of(n)[k],
        i + dec_of(n).len() == s.len() || !is_digit(s[i + dec_of(n).len()]),
    ensures
        parse_nat(s, i) == Some((n, i + dec_of(n).len())),
{
    let l = dec_of(n).len() as int;
    lemma_dec_of_digits(n);
    assert(forall|k: int| i <= k < i + l ==> is_digit(#[trigger] s[k])) by {
        assert(forall|k: int|
            i <= k < i + l ==> #[trigger] s[k] == dec_of(n)[k - i] && is_digit(dec_of(n)[k - i]));
    }
    lemma_digits_end_at(s, i, i + l);
    lemma_digits_val_dec_of(n);
    let t = dec_of(n);
    assert(digits_val(s, i, i + l) == digits_val(t, 0, l)) by {
        lemma_digits_val_shift(s, t, i, l, l);
    }
}

/// What `digits_end` promises: everything before it is a digit, and it
/// stops at the end of `s` or at a non-digit.
pub proof fn lemma_digits_end_props(s: Seq<char>, i: int)
    requires
        0 <= i <= s.len(),
    ensures
        i <= digits_end(s, i) <= s.len(),
        forall|k: int| i <= k < digits_end(s, i) ==> is_digit(#[trigger] s[k]),
        digits_end(s, i) == s.len() || !is_digit(s[digits_end(s, i)]),
    decreases s.len() - i,
{
    if i < s.len() && is_digit(s[i]) {
        lemma_digits_end_props(s, i + 1);
    }
}

/// The value of a digit run is unchanged by shifting it to the start of
/// another sequence that holds the same characters.
pub proof fn lemma_digits_val_shift(s: Seq<char>, t: Seq<char>, i: int, l: int, m: int)
    requires
        0 <= i,
        0 <= m <= l,
        forall|k: int| 0 <= k < l ==> s[i + k] == #[trigger] t[k],
    ensures
        digits_val(s, i, i + m) == digits_val(t, 0, m),
    decreases m,
{
    if m > 0 {
        lemma_digits_val_shift(s, t, i, l, m - 1);
        assert(s[i + (m - 1)] == t[m - 1]);
    }
}

/// Whether `c` is an ASCII decimal digit.
pub fn is_digit_char(c: char) -> (b: bool)
    ensures
        b == is_digit(c),
{
    let cu = c as u32;
    48 <= cu && cu <= 57
}

/// The decimal digit character for `d`.
pub fn digit_char_of(d: u8) -> (c: char)
    requires
        d < 10,
    ensures
        c == digit_char(d as int),
{
    match d {
        0 => '0',
        1 => '1',
        2 => '2',
        3 => '3',
        4 => '4',
        5 => '5',
        6 => '6',
        7 => '7',
        8 => '8',
        _ => '9',
    }
}

/// Appends the decimal rendering of `n` to `out`.
pub fn push_dec(out: &mut String, n: u64)
    ensures
        final(out)@ == old(out)@ + dec_of(n as nat),
    decreases n,
{
    if n < 10 {
        out.push(digit_char_of(n as u8));
        assert(out@ =~= old(out)@ + dec_of(n as nat));
    } else {
        push_dec(out, n / 10);
        out.push(digit_char_of((n % 10) as u8));
        assert(out@ =~= old(out)@ + dec_of(n as nat));
    }
}

/// The characters of `s`, in order, as a vector.
pub fn str_to_chars(s: &str) -> (v: Vec<char>)
    ensures
        v@ == s@,
{
    let n = s.unicode_len();
    let mut v: Vec<char> = Vec::new();
    let mut k: usize = 0;
    while k < n
        invariant
            n == s@.len(),
            k <= n,
            v@ == s@.subrange(0, k as int),
        decreases n - k,
    {
        v.push(s.get_char(k));
        k += 1;
        assert(v@ =~= s@.subrange(0, k as int));
    }
    assert(v@ =~= s@);
    v
}

/// Result of scanning for an unsigned decimal number in a character
/// vector: no digit at the start, a value that fits the machine, or a run
/// whose value exceeds `usize::MAX` (reported with the position past it).
pub enum NatScan {
    NoDigits,
    Value(u64, usize),
    Huge(usize),
}

/// Scans the maximal digit run of `s` starting at `i`, mirroring
/// `parse_nat`.
pub fn scan_nat(s: &Vec<char>, i: usize) -> (r: NatScan)
    requires
        i <= s@.len(),
    ensures
        match r {
            NatScan::NoDigits => parse_nat(s@, i as int) is None,
            NatScan::Value(v, j) => {
                &&& parse_nat(s@, i as int) == Some((v as nat, j as int))
                &&& i < j <= s@.len()
                &&& v <= usize::MAX
            },
            NatScan::Huge(j) => {
                &&& parse_nat(s@, i as int) matches Some((n, jj)) && jj == j as int && n
                    > usize::MAX
                &&& i < j <= s@.len()
            },
        },
{
    let ghost sv = s@;
    let lim: u128 = usize::MAX as u128;
    let mut j: usize = i;
    let mut acc: u128 = 0;
    let mut big: bool = false;
    while j < s.len() && is_digit_char(s[j])
        invariant
            i <= j <= sv.len(),
            sv == s@,
            lim == usize::MAX as u128,
            forall|k: int| i <= k < j ==> is_digit(#[trigger] sv[k]),
            big ==> digits_val(sv, i as int, j as int) > usize::MAX,
            !big ==> acc == digits_val(sv, i as int, j as int) && acc <= lim,
        decreases sv.len() - j,
    {
        let c = s[j];
        let cu = c as u32;
        let d: u128 = (cu - 48) as u128;
        proof {
            assert(digits_val(sv, i as int, j + 1) == digits_val(sv, i as int, j as int) * 10
                + char_digit(sv[j as int]));
        }
        if !big {
            acc = acc * 10 + d;
            if acc > lim {
                big = true;
            }
        }
        j += 1;
    }
    proof {
        lemma_digits_end_at(sv, i as int, j as int);
    }
    if j == i {
        NatScan::NoDigits
    } else if big {
        NatScan::Huge(j)
    } else {
        NatScan::Value(acc as u64, j)
    }
}

} // verus!
