//! Character-level building blocks shared by the encoder and the parsers:
//! decimal numerals (with and without zero padding), whitespace skipping,
//! literal matching, and the scan of a plain (escape-free) JSON string body.

use vstd::prelude::*;
use vstd::string::StrSliceExecFns;
use vstd::string::StringExecFns;

verus! {

// ---------------------------------------------------------------------------
// Character classes
// ---------------------------------------------------------------------------

/// JSON inter-token whitespace.
pub open spec fn is_ws_char(c: char) -> bool {
    c == ' ' || c == '\t' || c == '\r' || c == '\n'
}

/// An ASCII decimal digit.
pub open spec fn is_digit_char(c: char) -> bool {
    48 <= c as u32 && c as u32 <= 57
}

/// Numeric value of a digit character.
pub open spec fn digit_val(c: char) -> nat
    recommends
        is_digit_char(c),
{
    (c as u32 - 48) as nat
}

/// The digit character for a value below ten.
pub open spec fn digit_char(d: nat) -> char
    recommends
        d < 10,
{
    if d == 0 {
        '0'
    } else if d == 1 {
        '1'
    } else if d == 2 {
        '2'
    } else if d == 3 {
        '3'
    } else if d == 4 {
        '4'
    } else if d == 5 {
        '5'
    } else if d == 6 {
        '6'
    } else if d == 7 {
        '7'
    } else if d == 8 {
        '8'
    } else {
        '9'
    }
}

/// A character that may stand unescaped inside a JSON string: anything but
/// the quote, the backslash and the control characters.
pub open spec fn json_plain_char(c: char) -> bool {
    c != '"' && c != '\\' && c as u32 >= 32
}

/// A text all of whose characters may stand unescaped inside a JSON string.
pub open spec fn json_plain(s: Seq<char>) -> bool {
    forall|k: int| 0 <= k < s.len() ==> json_plain_char(s[k])
}

// ---------------------------------------------------------------------------
// Decimal numerals, as specifications
// ---------------------------------------------------------------------------

/// The shortest decimal numeral of `n` (no leading zero except for zero
/// itself).
pub open spec fn dec_digits(n: nat) -> Seq<char>
    decreases n,
{
    if n < 10 {
        seq![digit_char(n)]
    } else {
        dec_digits(n / 10).push(digit_char(n % 10))
    }
}

/// The decimal numeral of `n` padded with leading zeros to exactly `w`
/// digits (truncating high digits if `n >= 10^w`).
pub open spec fn pad_digits(n: nat, w: nat) -> Seq<char>
    decreases w,
{
    if w == 0 {
        Seq::empty()
    } else {
        pad_digits(n / 10, (w - 1) as nat).push(digit_char(n % 10))
    }
}

/// Ten to the `w`.
pub open spec fn pow10(w: nat) -> nat
    decreases w,
{
    if w == 0 {
        1
    } else {
        10 * pow10((w - 1) as nat)
    }
}

/// First position at or after `i` that does not hold a digit.
pub open spec fn digits_end(s: Seq<char>, i: int) -> int
    decreases s.len() - i,
    when 0 <= i <= s.len()
{
    if i < s.len() && is_digit_char(s[i]) {
        digits_end(s, i + 1)
    } else {
        i
    }
}

/// Value of the digit run `s[i..j)`, most significant digit first.
pub open spec fn digits_val(s: Seq<char>, i: int, j: int) -> nat
    decreases j - i,
    when i <= j
{
    if i >= j {
        0
    } else {
        digits_val(s, i, j - 1) * 10 + digit_val(s[j - 1])
    }
}

/// First position at or after `i` that does not hold a plain string
/// character.
pub open spec fn plain_end(s: Seq<char>, i: int) -> int
    decreases s.len() - i,
    when 0 <= i <= s.len()
{
    if i < s.len() && json_plain_char(s[i]) {
        plain_end(s, i + 1)
    } else {
        i
    }
}

/// First position at or after `i` that does not hold whitespace.
pub open spec fn spec_skip_ws(s: Seq<char>, i: int) -> int
    decreases s.len() - i,
    when 0 <= i <= s.len()
{
    if i < s.len() && is_ws_char(s[i]) {
        spec_skip_ws(s, i + 1)
    } else {
        i
    }
}

/// Position just past `l` if `s` carries exactly `l` at position `i`.
pub open spec fn spec_parse_lit(s: Seq<char>, i: int, l: Seq<char>) -> Option<int> {
    if 0 <= i && i + l.len() <= s.len() && s.subrange(i, i + l.len() as int) == l {
        Some(i + l.len() as int)
    } else {
        None
    }
}

/// The maximal digit run at `i`, as a machine integer: fails when the run is
/// empty or its value exceeds `u64::MAX`.
pub open spec fn spec_scan_u64(s: Seq<char>, i: int) -> Option<(u64, int)>
    recommends
        0 <= i <= s.len(),
{
    let e = digits_end(s, i);
    if e == i {
        None
    } else if digits_val(s, i, e) > u64::MAX {
        None
    } else {
        Some((digits_val(s, i, e) as u64, e))
    }
}

/// Exactly `w` digits at `i`, as their value.
pub open spec fn spec_scan_fixed(s: Seq<char>, i: int, w: int) -> Option<nat>
    recommends
        0 <= i <= s.len(),
{
    if i + w <= s.len() && (forall|k: int| i <= k < i + w ==> is_digit_char(s[k])) {
        Some(digits_val(s, i, i + w))
    } else {
        None
    }
}

/// A quoted run of plain characters at `i`: its body and the position just
/// past the closing quote.  Any escape or control character fails the scan.
pub open spec fn spec_scan_string(s: Seq<char>, i: int) -> Option<(Seq<char>, int)>
    recommends
        0 <= i <= s.len(),
{
    if i < s.len() && s[i] == '"' {
        let e = plain_end(s, i + 1);
        if e < s.len() && s[e] == '"' {
            Some((s.subrange(i + 1, e), e + 1))
        } else {
            None
        }
    } else {
        None
    }
}

// ---------------------------------------------------------------------------
// Bounds of the scanning specifications
// ---------------------------------------------------------------------------

pub proof fn lemma_digits_end_bounds(s: Seq<char>, i: int)
    requires
        0 <= i <= s.len(),
    ensures
        i <= digits_end(s, i) <= s.len(),
        forall|k: int| i <= k < digits_end(s, i) ==> is_digit_char(s[k]),
        digits_end(s, i) < s.len() ==> !is_digit_char(s[digits_end(s, i)]),
    decreases s.len() - i,
{
    if i < s.len() && is_digit_char(s[i]) {
        lemma_digits_end_bounds(s, i + 1);
    }
}

pub proof fn lemma_plain_end_bounds(s: Seq<char>, i: int)
    requires
        0 <= i <= s.len(),
    ensures
        i <= plain_end(s, i) <= s.len(),
        forall|k: int| i <= k < plain_end(s, i) ==> json_plain_char(s[k]),
        plain_end(s, i) < s.len() ==> !json_plain_char(s[plain_end(s, i)]),
    decreases s.len() - i,
{
    if i < s.len() && json_plain_char(s[i]) {
        lemma_plain_end_bounds(s, i + 1);
    }
}

pub proof fn lemma_skip_ws_bounds(s: Seq<char>, i: int)
    requires
        0 <= i <= s.len(),
    ensures
        i <= spec_skip_ws(s, i) <= s.len(),
        spec_skip_ws(s, i) < s.len() ==> !is_ws_char(s[spec_skip_ws(s, i)]),
    decreases s.len() - i,
{
    if i < s.len() && is_ws_char(s[i]) {
        lemma_skip_ws_bounds(s, i + 1);
    }
}

/// Powers of ten multiply by adding exponents.
pub proof fn lemma_pow10_add(a: nat, b: nat)
    ensures
        pow10(a + b) == pow10(a) * pow10(b),
    decreases a,
{
    if a == 0 {
        assert(pow10(b) == 1 * pow10(b)) by (nonlinear_arith);
    } else {
        lemma_pow10_add((a - 1) as nat, b);
        assert((a - 1) as nat + b == (a + b - 1) as nat);
        assert(10 * (pow10((a - 1) as nat) * pow10(b)) == (10 * pow10((a - 1) as nat)) * pow10(b))
            by (nonlinear_arith);
    }
}

// ---------------------------------------------------------------------------
// Numerals scan back to their value
// ---------------------------------------------------------------------------

pub proof fn lemma_dec_digits_shape(n: nat)
    ensures
        dec_digits(n).len() >= 1,
        forall|k: int| 0 <= k < dec_digits(n).len() ==> is_digit_char(#[trigger] dec_digits(n)[k]),
    decreases n,
{
    if n >= 10 {
        lemma_dec_digits_shape(n / 10);
    }
}

pub proof fn lemma_pad_digits_shape(n: nat, w: nat)
    ensures
        pad_digits(n, w).len() == w,
        forall|k: int| 0 <= k < w ==> is_digit_char(#[trigger] pad_digits(n, w)[k]),
    decreases w,
{
    if w > 0 {
        lemma_pad_digits_shape(n / 10, (w - 1) as nat);
    }
}

/// A digit run bounded on the right scans exactly to its right end.
pub proof fn lemma_digits_end_at(s: Seq<char>, i: int, j: int)
    requires
        0 <= i <= j <= s.len(),
        forall|k: int| i <= k < j ==> is_digit_char(s[k]),
        j < s.len() ==> !is_digit_char(s[j]),
    ensures
        digits_end(s, i) == j,
    decreases j - i,
{
    if i < j {
        lemma_digits_end_at(s, i + 1, j);
    }
}

/// A plain run bounded on the right scans exactly to its right end.
pub proof fn lemma_plain_end_at(s: Seq<char>, i: int, j: int)
    requires
        0 <= i <= j <= s.len(),
        forall|k: int| i <= k < j ==> json_plain_char(s[k]),
        j < s.len() ==> !json_plain_char(s[j]),
    ensures
        plain_end(s, i) == j,
    decreases j - i,
{
    if i < j {
        lemma_plain_end_at(s, i + 1, j);
    }
}

pub proof fn lemma_digit_roundtrip(d: nat)
    requires
        d < 10,
    ensures
        is_digit_char(digit_char(d)),
        digit_val(digit_char(d)) == d,
{
}

/// The shortest numeral of `n`, read back as a digit run, has value `n`.
pub proof fn lemma_digits_val_of_dec(s: Seq<char>, i: int, j: int, n: nat)
    requires
        0 <= i <= j <= s.len(),
        s.subrange(i, j) == dec_digits(n),
    ensures
        digits_val(s, i, j) == n,
        forall|k: int| i <= k < j ==> is_digit_char(s[k]),
        j - i == dec_digits(n).len(),
    decreases n,
{
    lemma_dec_digits_shape(n);
    assert forall|k: int| i <= k < j implies is_digit_char(s[k]) by {
        assert(s[k] == s.subrange(i, j)[k - i]);
    }
    if n < 10 {
        assert(s[j - 1] == s.subrange(i, j)[0]);
        lemma_digit_roundtrip(n);
        assert(digits_val(s, i, j - 1) == 0);
    } else {
        lemma_dec_digits_shape(n / 10);
        assert(s.subrange(i, j - 1) =~= dec_digits(n / 10)) by {
            assert forall|k: int| 0 <= k < j - 1 - i implies (#[trigger] s.subrange(i, j - 1)[k])
                == dec_digits(n / 10)[k] by {
                assert(s.subrange(i, j)[k] == dec_digits(n)[k]);
            }
        }
        lemma_digits_val_of_dec(s, i, j - 1, n / 10);
        assert(s[j - 1] == s.subrange(i, j)[j - 1 - i]);
        lemma_digit_roundtrip(n % 10);
    }
}

/// The `w`-digit padded numeral of `n < 10^w`, read back, has value `n`.
pub proof fn lemma_digits_val_of_pad(s: Seq<char>, i: int, w: nat, n: nat)
    requires
        0 <= i,
        i + w <= s.len(),
        n < pow10(w),
        s.subrange(i, i + w) == pad_digits(n, w),
    ensures
        digits_val(s, i, i + w) == n,
        forall|k: int| i <= k < i + w ==> is_digit_char(s[k]),
    decreases w,
{
    lemma_pad_digits_shape(n, w);
    assert forall|k: int| i <= k < i + w implies is_digit_char(s[k]) by {
        assert(s[k] == s.subrange(i, i + w)[k - i]);
    }
    if w == 0 {
        assert(n < 1);
    } else {
        assert(n / 10 < pow10((w - 1) as nat)) by {
            assert(pow10(w) == 10 * pow10((w - 1) as nat));
            assert(n >= 10 * (n / 10)) by (nonlinear_arith);
            assert(n / 10 >= pow10((w - 1) as nat) ==> n >= 10 * pow10((w - 1) as nat))
                by (nonlinear_arith);
        }
        assert(s.subrange(i, i + w - 1) =~= pad_digits(n / 10, (w - 1) as nat)) by {
            assert forall|k: int| 0 <= k < w - 1 implies (#[trigger] s.subrange(i, i + w - 1)[k])
                == pad_digits(n / 10, (w - 1) as nat)[k] by {
                assert(s.subrange(i, i + w)[k] == pad_digits(n, w)[k]);
            }
        }
        lemma_digits_val_of_pad(s, i, (w - 1) as nat, n / 10);
        assert(s[i + w - 1] == s.subrange(i, i + w)[w - 1]);
        lemma_digit_roundtrip(n % 10);
        assert(digits_val(s, i, i + w) == (n / 10) * 10 + n % 10);
        assert((n / 10) * 10 + n % 10 == n) by (nonlinear_arith);
    }
}

/// A digit run of `w` digits has value below `10^w`.
pub proof fn lemma_digits_val_bound(s: Seq<char>, i: int, j: int)
    requires
        0 <= i <= j <= s.len(),
        forall|k: int| i <= k < j ==> is_digit_char(s[k]),
    ensures
        digits_val(s, i, j) < pow10((j - i) as nat),
    decreases j - i,
{
    if i < j {
        lemma_digits_val_bound(s, i, j - 1);
        assert(pow10((j - i) as nat) == 10 * pow10((j - 1 - i) as nat));
    }
}

// ---------------------------------------------------------------------------
// Executable numeral rendering
// ---------------------------------------------------------------------------

/// One-character string for a digit value.
fn digit_str(d: u64) -> (r: &'static str)
    requires
        d < 10,
    ensures
        r@ =~= seq![digit_char(d as nat)],
{
    proof {
        reveal_strlit("0");
        reveal_strlit("1");
        reveal_strlit("2");
        reveal_strlit("3");
        reveal_strlit("4");
        reveal_strlit("5");
        reveal_strlit("6");
        reveal_strlit("7");
        reveal_strlit("8");
        reveal_strlit("9");
    }
    match d {
        0 => "0",
        1 => "1",
        2 => "2",
        3 => "3",
        4 => "4",
        5 => "5",
        6 => "6",
        7 => "7",
        8 => "8",
        _ => "9",
    }
}

/// Renders `n` as its shortest decimal numeral.
pub fn u64_to_string(n: u64) -> (r: String)
    ensures
        r@ == dec_digits(n as nat),
    decreases n,
{
    if n < 10 {
        digit_str(n).to_owned()
    } else {
        let mut s = u64_to_string(n / 10);
        s.append(digit_str(n % 10));
        proof {
            assert(s@ =~= dec_digits(n as nat));
        }
        s
    }
}

/// Renders `n` as a `w`-digit zero-padded decimal numeral.
pub fn u32_to_padded_string(n: u32, w: u32) -> (r: String)
    ensures
        r@ == pad_digits(n as nat, w as nat),
    decreases w,
{
    if w == 0 {
        String::new()
    } else {
        let mut s = u32_to_padded_string(n / 10, w - 1);
        s.append(digit_str((n % 10) as u64));
        proof {
            assert(s@ =~= pad_digits(n as nat, w as nat));
        }
        s
    }
}

/// Ten to the `w`, for small exponents.
pub fn pow10_u64(w: u64) -> (r: u64)
    requires
        w <= 9,
    ensures
        r == pow10(w as nat),
        r >= 1,
{
    proof {
        reveal_with_fuel(pow10, 10);
    }
    match w {
        0 => 1,
        1 => 10,
        2 => 100,
        3 => 1_000,
        4 => 10_000,
        5 => 100_000,
        6 => 1_000_000,
        7 => 10_000_000,
        8 => 100_000_000,
        _ => 1_000_000_000,
    }
}

// ---------------------------------------------------------------------------
// Executable scanners
// ---------------------------------------------------------------------------

/// Skips inter-token whitespace.
pub fn skip_ws(s: &str, i: usize) -> (j: usize)
    requires
        i <= s@.len(),
    ensures
        j == spec_skip_ws(s@, i as int),
        i <= j <= s@.len(),
    decreases s@.len() - i,
{
    let n = s.unicode_len();
    if i < n {
        let c = s.get_char(i);
        if c == ' ' || c == '\t' || c == '\r' || c == '\n' {
            skip_ws(s, i + 1)
        } else {
            i
        }
    } else {
        i
    }
}

/// Whether `lit`'s tail from `k` stands at `i + k` in `s`.
fn match_at(s: &str, lit: &str, i: usize, k: usize) -> (b: bool)
    requires
        i + lit@.len() <= s@.len(),
        k <= lit@.len(),
    ensures
        b == (s@.subrange(i + k, i + lit@.len()) == lit@.subrange(k as int, lit@.len() as int)),
    decreases lit@.len() - k,
{
    let ghost gl = lit@.len() as int;
    let n = s.unicode_len();
    if k == lit.unicode_len() {
        proof {
            assert(s@.subrange(i + k, i + gl) =~= lit@.subrange(k as int, gl));
        }
        true
    } else {
        let cs = s.get_char(i + k);
        let cl = lit.get_char(k);
        if cs == cl {
            let r = match_at(s, lit, i, k + 1);
            proof {
                if r {
                    assert(s@.subrange(i + k, i + gl) =~= lit@.subrange(k as int, gl)) by {
                        assert forall|t: int|
                            0 <= t < gl - k implies (#[trigger] s@.subrange(i + k, i + gl)[t])
                            == lit@.subrange(k as int, gl)[t] by {
                            if t > 0 {
                                assert(s@.subrange(i + k + 1, i + gl)[t - 1] == lit@.subrange(
                                    k + 1,
                                    gl,
                                )[t - 1]);
                            }
                        }
                    }
                } else {
                    if s@.subrange(i + k, i + gl) == lit@.subrange(k as int, gl) {
                        assert forall|t: int|
                            0 <= t < gl - k - 1 implies (#[trigger] s@.subrange(i + k + 1, i + gl)[t])
                            == lit@.subrange(k + 1, gl)[t] by {
                            assert(s@.subrange(i + k, i + gl)[t + 1] == lit@.subrange(
                                k as int,
                                gl,
                            )[t + 1]);
                        }
                        assert(s@.subrange(i + k + 1, i + gl) =~= lit@.subrange(k + 1, gl));
                    }
                }
            }
            r
        } else {
            proof {
                if s@.subrange(i + k, i + gl) == lit@.subrange(k as int, gl) {
                    assert(s@.subrange(i + k, i + gl)[0] == lit@.subrange(k as int, gl)[0]);
                }
            }
            false
        }
    }
}

/// Matches the exact literal `lit` at position `i`.
pub fn expect_lit(s: &str, i: usize, lit: &str) -> (r: Option<usize>)
    requires
        i <= s@.len(),
    ensures
        match r {
            Some(j) => {
                &&& spec_parse_lit(s@, i as int, lit@) == Some(j as int)
                &&& j == i + lit@.len()
                &&& j <= s@.len()
            },
            None => spec_parse_lit(s@, i as int, lit@) is None,
        },
{
    let n = s.unicode_len();
    let l = lit.unicode_len();
    if l > n - i {
        None
    } else if match_at(s, lit, i, 0) {
        proof {
            assert(lit@.subrange(0, lit@.len() as int) =~= lit@);
        }
        Some(i + l)
    } else {
        proof {
            assert(lit@.subrange(0, lit@.len() as int) =~= lit@);
        }
        None
    }
}

/// Digit value of a digit character.
fn char_digit(c: char) -> (d: u8)
    requires
        is_digit_char(c),
    ensures
        d as nat == digit_val(c),
        d < 10,
{
    ((c as u32) - 48) as u8
}

/// End of the maximal digit run starting at `i`.
pub fn scan_digits_end(s: &str, i: usize) -> (e: usize)
    requires
        i <= s@.len(),
    ensures
        e == digits_end(s@, i as int),
        i <= e <= s@.len(),
    decreases s@.len() - i,
{
    let n = s.unicode_len();
    if i < n {
        let c = s.get_char(i);
        let u = c as u32;
        if 48 <= u && u <= 57 {
            scan_digits_end(s, i + 1)
        } else {
            i
        }
    } else {
        i
    }
}

/// Value of the digit run `s[i..j)`, or `None` past `u64::MAX`.
fn digits_to_u64(s: &str, i: usize, j: usize) -> (r: Option<u64>)
    requires
        i <= j <= s@.len(),
        forall|k: int| i <= k < j ==> is_digit_char(s@[k]),
    ensures
        match r {
            Some(v) => digits_val(s@, i as int, j as int) == v as nat,
            None => digits_val(s@, i as int, j as int) > u64::MAX,
        },
    decreases j - i,
{
    if j == i {
        Some(0)
    } else {
        let prev = digits_to_u64(s, i, j - 1);
        let c = s.get_char(j - 1);
        let d = char_digit(c);
        let ghost pv = digits_val(s@, i as int, j - 1);
        match prev {
            None => {
                proof {
                    assert(pv * 10 + digit_val(s@[j - 1]) > u64::MAX) by (nonlinear_arith)
                        requires
                            pv > u64::MAX,
                    ;
                }
                None
            },
            Some(v) => {
                if v > (u64::MAX - d as u64) / 10 {
                    proof {
                        assert(v * 10 + digit_val(s@[j - 1]) > u64::MAX) by (nonlinear_arith)
                            requires
                                v > (u64::MAX - d as u64) / 10,
                                digit_val(s@[j - 1]) == d as nat,
                                d < 10,
                        ;
                    }
                    None
                } else {
                    proof {
                        assert(v * 10 + d as u64 <= u64::MAX) by (nonlinear_arith)
                            requires
                                v <= (u64::MAX - d as u64) / 10,
                                d < 10,
                        ;
                    }
                    Some(v * 10 + d as u64)
                }
            },
        }
    }
}

/// Scans the maximal digit run at `i` into a `u64`.
pub fn scan_u64(s: &str, i: usize) -> (r: Option<(u64, usize)>)
    requires
        i <= s@.len(),
    ensures
        match r {
            Some(p) => {
                &&& spec_scan_u64(s@, i as int) == Some((p.0, p.1 as int))
                &&& i < p.1 <= s@.len()
            },
            None => spec_scan_u64(s@, i as int) is None,
        },
{
    let e = scan_digits_end(s, i);
    proof {
        lemma_digits_end_bounds(s@, i as int);
    }
    if e == i {
        None
    } else {
        match digits_to_u64(s, i, e) {
            None => None,
            Some(v) => Some((v, e)),
        }
    }
}

/// Scans exactly `w` digits at `i` into a `u64`; `w` is at most nine, so the
/// value always fits.
pub fn scan_fixed(s: &str, i: usize, w: usize) -> (r: Option<u64>)
    requires
        i <= s@.len(),
        1 <= w <= 9,
    ensures
        match r {
            Some(v) => {
                &&& spec_scan_fixed(s@, i as int, w as int) == Some(v as nat)
                &&& v < pow10(w as nat)
                &&& i + w <= s@.len()
            },
            None => spec_scan_fixed(s@, i as int, w as int) is None,
        },
{
    let n = s.unicode_len();
    if w > n - i {
        return None;
    }
    let e = scan_digits_end(s, i);
    proof {
        lemma_digits_end_bounds(s@, i as int);
    }
    if e < i + w {
        proof {
            if spec_scan_fixed(s@, i as int, w as int) is Some {
                assert(is_digit_char(s@[e as int]));
            }
        }
        return None;
    }
    proof {
        lemma_digits_val_bound(s@, i as int, i + w);
        assert(pow10(w as nat) <= pow10(9)) by {
            reveal_with_fuel(pow10, 10);
        }
        reveal_with_fuel(pow10, 10);
    }
    match digits_to_u64(s, i, i + w) {
        None => {
            proof {
                assert(false);
            }
            None
        },
        Some(v) => Some(v),
    }
}

/// End of the maximal plain-character run starting at `i`.
fn scan_plain_end(s: &str, i: usize) -> (e: usize)
    requires
        i <= s@.len(),
    ensures
        e == plain_end(s@, i as int),
        i <= e <= s@.len(),
    decreases s@.len() - i,
{
    let n = s.unicode_len();
    if i < n {
        let c = s.get_char(i);
        if c != '"' && c != '\\' && c as u32 >= 32 {
            scan_plain_end(s, i + 1)
        } else {
            i
        }
    } else {
        i
    }
}

/// Scans a quoted plain string at `i`: its body and the position just past
/// the closing quote.
pub fn scan_string(s: &str, i: usize) -> (r: Option<(String, usize)>)
    requires
        i <= s@.len(),
    ensures
        match r {
            Some(p) => {
                &&& spec_scan_string(s@, i as int) == Some((p.0@, p.1 as int))
                &&& i < p.1 <= s@.len()
                &&& json_plain(p.0@)
            },
            None => spec_scan_string(s@, i as int) is None,
        },
{
    let n = s.unicode_len();
    if i >= n {
        return None;
    }
    if s.get_char(i) != '"' {
        return None;
    }
    let e = scan_plain_end(s, i + 1);
    proof {
        lemma_plain_end_bounds(s@, i + 1);
    }
    if e >= n {
        return None;
    }
    if s.get_char(e) != '"' {
        return None;
    }
    let body = s.substring_char(i + 1, e).to_owned();
    Some((body, e + 1))
}

} // verus!
