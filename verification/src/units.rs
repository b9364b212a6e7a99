//! Fixed-point quantities.
//!
//! Every physical magnitude in this crate is carried as an integer count
//! of thousandths of its unit (a beam energy of 20 keV is `20_000`).
//! This module renders such a value as its canonical decimal string (the
//! form embedded in exported metadata), parses that form back, and
//! converts degrees to radians at the same fixed precision.

use vstd::prelude::*;
use vstd::string::StringExecFns;

verus! {

/// The character for one decimal digit.
pub open spec fn digit_char(d: int) -> char
    recommends
        0 <= d < 10,
{
    if d == 0 {
        '0'
    } else if d == 1 {
        '1'
    } else if d == 2 {
        '2'
    } else if d == 3 {
        '3'
    } else if d == 4 {
        '4'
    } else if d == 5 {
        '5'
    } else if d == 6 {
        '6'
    } else if d == 7 {
        '7'
    } else if d == 8 {
        '8'
    } else {
        '9'
    }
}

/// Whether a character is a decimal digit.
pub open spec fn is_digit(c: char) -> bool {
    '0' <= c && c <= '9'
}

/// The value of one digit character.
pub open spec fn digit_val(c: char) -> int
    recommends
        is_digit(c),
{
    c as int - '0' as int
}

/// The decimal rendering of a natural number, most significant digit
/// first, without leading zeros (`0` renders as `"0"`).
pub open spec fn dec_digits(n: nat) -> Seq<char>
    decreases n,
{
    if n < 10 {
        seq![digit_char(n as int)]
    } else {
        dec_digits(n / 10).push(digit_char((n % 10) as int))
    }
}

/// Whether every character of a sequence is a decimal digit.
pub open spec fn all_digits(cs: Seq<char>) -> bool {
    forall|i: int| 0 <= i < cs.len() ==> is_digit(#[trigger] cs[i])
}

/// The number a digit sequence denotes, most significant digit first.
pub open spec fn digits_val(cs: Seq<char>) -> nat
    decreases cs.len(),
{
    if cs.len() == 0 {
        0
    } else {
        digits_val(cs.drop_last()) * 10 + digit_val(cs.last()) as nat
    }
}

/// The canonical decimal rendering of `v` thousandths: the whole part,
/// then — only when the fraction is non-zero — a dot and one to three
/// fractional digits with trailing zeros trimmed. This is the string a
/// binary floating-point formatter would print for the same quantity
/// whenever the quantity is exactly representable.
pub open spec fn milli_chars(v: nat) -> Seq<char> {
    let whole = dec_digits(v / 1000);
    let f = v % 1000;
    if f == 0 {
        whole
    } else if f % 100 == 0 {
        whole + seq!['.', digit_char((f / 100) as int)]
    } else if f % 10 == 0 {
        whole + seq!['.', digit_char((f / 100) as int), digit_char(((f / 10) % 10) as int)]
    } else {
        whole + seq!['.', digit_char((f / 100) as int), digit_char(((f / 10) % 10) as int), digit_char((f % 10) as int)]
    }
}

/// A single-digit string slice.
fn digit_str(d: u8) -> (s: &'static str)
    requires
        d < 10,
    ensures
        s@ =~= seq![digit_char(d as int)],
{
    let r: &'static str = match d {
        0 => "0",
        1 => "1",
        2 => "2",
        3 => "3",
        4 => "4",
        5 => "5",
        6 => "6",
        7 => "7",
        8 => "8",
        _ => "9",
    };
    proof {
        reveal_strlit("0");
        reveal_strlit("1");
        reveal_strlit("2");
        reveal_strlit("3");
        reveal_strlit("4");
        reveal_strlit("5");
        reveal_strlit("6");
        reveal_strlit("7");
        reveal_strlit("8");
        reveal_strlit("9");
    }
    r
}

/// Renders a natural number in decimal.
pub fn format_decimal(n: u64) -> (s: String)
    ensures
        s@ == dec_digits(n as nat),
{
    let mut rest: u64 = n;
    let mut low_digits: Vec<u8> = Vec::new();
    let ghost mut suffix: Seq<char> = Seq::empty();
    while rest >= 10
        invariant
            suffix.len() == low_digits@.len(),
            forall|i: int|
                0 <= i < low_digits@.len() ==> low_digits@[i] < 10 && suffix[suffix.len() - 1
                    - i] == digit_char(low_digits@[i] as int),
            dec_digits(n as nat) =~= dec_digits(rest as nat) + suffix,
        decreases rest,
    {
        let d = (rest % 10) as u8;
        proof {
            assert(dec_digits(rest as nat) =~= dec_digits((rest / 10) as nat) + seq![
                digit_char(d as int)]);
            assert(dec_digits(n as nat) =~= dec_digits((rest / 10) as nat) + (seq![
                digit_char(d as int)] + suffix));
        }
        low_digits.push(d);
        proof {
            suffix = seq![digit_char(d as int)] + suffix;
        }
        rest = rest / 10;
    }
    let mut s = String::from_str(digit_str(rest as u8));
    let ghost m = rest;
    let mut i: usize = low_digits.len();
    while i > 0
        invariant
            i <= low_digits@.len(),
            suffix.len() == low_digits@.len(),
            forall|k: int|
                0 <= k < low_digits@.len() ==> low_digits@[k] < 10 && suffix[suffix.len() - 1
                    - k] == digit_char(low_digits@[k] as int),
            dec_digits(n as nat) =~= dec_digits(m as nat) + suffix,
            s@ =~= dec_digits(m as nat) + suffix.take(suffix.len() - i),
        decreases i,
    {
        i = i - 1;
        s.append(digit_str(low_digits[i]));
        proof {
            assert(suffix[suffix.len() - 1 - i] == digit_char(low_digits@[i as int] as int));
            assert(s@ =~= dec_digits(m as nat) + suffix.take(suffix.len() - i));
        }
    }
    proof {
        assert(suffix.take(suffix.len() as int) =~= suffix);
    }
    s
}

/// Renders a fixed-point value (thousandths) in its canonical decimal
/// form.
pub fn format_milli(v: u64) -> (s: String)
    ensures
        s@ == milli_chars(v as nat),
{
    let whole = v / 1000;
    let f = v % 1000;
    let mut s = format_decimal(whole);
    if f == 0 {
        return s;
    }
    proof {
        reveal_strlit(".");
    }
    s.append(".");
    s.append(digit_str((f / 100) as u8));
    if f % 100 == 0 {
        proof {
            assert(s@ =~= milli_chars(v as nat));
        }
        return s;
    }
    s.append(digit_str(((f / 10) % 10) as u8));
    if f % 10 == 0 {
        proof {
            assert(s@ =~= milli_chars(v as nat));
        }
        return s;
    }
    s.append(digit_str((f % 10) as u8));
    proof {
        assert(s@ =~= milli_chars(v as nat));
    }
    s
}

/// `10^k`.
pub open spec fn pow10(k: nat) -> nat
    decreases k,
{
    if k == 0 {
        1
    } else {
        10 * pow10((k - 1) as nat)
    }
}

/// The index of the first `'.'` in a sequence, or -1 when there is none.
pub open spec fn find_dot(cs: Seq<char>) -> int
    decreases cs.len(),
{
    if cs.len() == 0 {
        -1
    } else if cs[0] == '.' {
        0
    } else if find_dot(cs.drop_first()) < 0 {
        -1
    } else {
        find_dot(cs.drop_first()) + 1
    }
}

/// How many thousandths one unit of the fractional part stands for,
/// by the number of fractional digits present.
pub open spec fn frac_scale(len: int) -> int {
    if len == 1 {
        100
    } else if len == 2 {
        10
    } else {
        1
    }
}

/// What a decimal string denotes in thousandths: an unsigned whole part
/// of up to 20 digits, optionally followed by a dot and one to three
/// fractional digits. Anything else — or a value beyond `u64::MAX`
/// thousandths — denotes nothing.
pub open spec fn spec_parse_milli(cs: Seq<char>) -> Option<u64> {
    let dot = find_dot(cs);
    if dot < 0 {
        if 1 <= cs.len() <= 20 && all_digits(cs) && digits_val(cs) * 1000 <= u64::MAX {
            Some((digits_val(cs) * 1000) as u64)
        } else {
            None
        }
    } else {
        let whole = cs.take(dot);
        let frac = cs.skip(dot + 1);
        if 1 <= whole.len() <= 20 && 1 <= frac.len() <= 3 && all_digits(whole) && all_digits(
            frac,
        ) && digits_val(whole) * 1000 + digits_val(frac) * frac_scale(frac.len() as int)
            <= u64::MAX {
            Some(
                (digits_val(whole) * 1000 + digits_val(frac) * frac_scale(
                    frac.len() as int,
                )) as u64,
            )
        } else {
            None
        }
    }
}

/// A scan that saw no dot before `i`, and a dot at `i` unless it ran
/// off the end, has found the first dot.
proof fn lemma_find_dot_from_scan(cs: Seq<char>, i: int)
    requires
        0 <= i <= cs.len(),
        forall|k: int| 0 <= k < i ==> cs[k] != '.',
        i < cs.len() ==> cs[i] == '.',
    ensures
        find_dot(cs) == if i == cs.len() {
            -1
        } else {
            i
        },
    decreases cs.len(),
{
    if cs.len() > 0 && cs[0] != '.' {
        assert forall|k: int| 0 <= k < i - 1 implies cs.drop_first()[k] != '.' by {
            assert(cs.drop_first()[k] == cs[k + 1]);
        }
        lemma_find_dot_from_scan(cs.drop_first(), i - 1);
    }
}

/// The value of the digits of a subrange, extended by one digit.
proof fn lemma_digits_val_extend(cs: Seq<char>, start: int, k: int)
    requires
        0 <= start <= k < cs.len(),
    ensures
        digits_val(cs.subrange(start, k + 1)) == digits_val(cs.subrange(start, k)) * 10
            + digit_val(cs[k]) as nat,
{
    assert(cs.subrange(start, k + 1).drop_last() =~= cs.subrange(start, k));
    assert(cs.subrange(start, k + 1).last() == cs[k]);
}

/// Parses the digit run `cs[start..end]`, or nothing if any character
/// is not a digit.
#[verifier::rlimit(50)]
fn parse_digits(cs: &Vec<char>, start: usize, end: usize) -> (r: Option<u128>)
    requires
        start <= end,
        end <= cs@.len(),
        end - start <= 20,
    ensures
        match r {
            Some(v) => all_digits(cs@.subrange(start as int, end as int)) && v == digits_val(
                cs@.subrange(start as int, end as int),
            ),
            None => !all_digits(cs@.subrange(start as int, end as int)),
        },
{
    let mut v: u128 = 0;
    let mut k: usize = start;
    proof {
        assert(cs@.subrange(start as int, start as int) =~= Seq::<char>::empty());
    }
    while k < end
        invariant
            start <= k <= end,
            end <= cs@.len(),
            end - start <= 20,
            all_digits(cs@.subrange(start as int, k as int)),
            v == digits_val(cs@.subrange(start as int, k as int)),
            v < pow10((k - start) as nat),
        decreases end - k,
    {
        let c = cs[k];
        if c < '0' || c > '9' {
            proof {
                assert(cs@.subrange(start as int, end as int)[k - start] == cs@[k as int]);
            }
            return None;
        }
        let d = (c as u32 - 48) as u128;
        proof {
            lemma_digits_val_extend(cs@, start as int, k as int);
            assert(pow10((k + 1 - start) as nat) == 10 * pow10((k - start) as nat));
            lemma_pow10_le((k - start) as nat, 19);
            reveal_with_fuel(pow10, 22);
            assert(pow10(19) == 0x8ac7_2304_89e8_0000);
        }
        v = v * 10 + d;
        k = k + 1;
    }
    Some(v)
}

/// `10^k` grows with `k`.
proof fn lemma_pow10_le(a: nat, b: nat)
    requires
        a <= b,
    ensures
        pow10(a) <= pow10(b),
    decreases b,
{
    if a < b {
        lemma_pow10_le(a, (b - 1) as nat);
        lemma_pow10_positive((b - 1) as nat);
    }
}

/// Parses the canonical decimal rendering of a fixed-point value in
/// thousandths; exactly the strings `spec_parse_milli` accepts.
pub fn parse_milli(s: &str) -> (r: Option<u64>)
    ensures
        r == spec_parse_milli(s@),
{
    let cs = str_chars(s);
    let n = cs.len();
    let mut dot: usize = 0;
    while dot < n && cs[dot] != '.'
        invariant
            dot <= n,
            n == cs@.len(),
            cs@ == s@,
            forall|k: int| 0 <= k < dot ==> cs@[k] != '.',
        decreases n - dot,
    {
        dot = dot + 1;
    }
    proof {
        lemma_find_dot_from_scan(cs@, dot as int);
        reveal_with_fuel(pow10, 22);
    }
    if dot == n {
        if n < 1 || n > 20 {
            return None;
        }
        let w = match parse_digits(&cs, 0, n) {
            Some(w) => w,
            None => {
                proof {
                    assert(cs@.subrange(0, n as int) =~= cs@);
                }
                return None;
            },
        };
        proof {
            assert(cs@.subrange(0, n as int) =~= cs@);
            lemma_digits_val_bound(cs@, 20);
            reveal_with_fuel(pow10, 22);
            assert(pow10(20) == 0x5_6bc7_5e2d_6310_0000);
        }
        let scaled = w * 1000;
        if scaled > 0xffff_ffff_ffff_ffff {
            return None;
        }
        Some(scaled as u64)
    } else {
        if dot < 1 || dot > 20 {
            return None;
        }
        let frac_len = n - dot - 1;
        if frac_len < 1 || frac_len > 3 {
            return None;
        }
        let w = match parse_digits(&cs, 0, dot) {
            Some(w) => w,
            None => {
                proof {
                    assert(cs@.subrange(0, dot as int) =~= cs@.take(dot as int));
                }
                return None;
            },
        };
        let f = match parse_digits(&cs, dot + 1, n) {
            Some(f) => f,
            None => {
                proof {
                    assert(cs@.subrange(dot + 1, n as int) =~= cs@.skip(dot + 1));
                }
                return None;
            },
        };
        proof {
            assert(cs@.subrange(0, dot as int) =~= cs@.take(dot as int));
            assert(cs@.subrange(dot + 1, n as int) =~= cs@.skip(dot + 1));
            lemma_digits_val_bound(cs@.take(dot as int), 20);
            lemma_digits_val_bound(cs@.skip(dot + 1), 3);
            reveal_with_fuel(pow10, 22);
            assert(pow10(20) == 0x5_6bc7_5e2d_6310_0000);
            assert(pow10(3) == 1000);
        }
        let scale: u128 = if frac_len == 1 {
            100
        } else if frac_len == 2 {
            10
        } else {
            1
        };
        let total = w * 1000 + f * scale;
        if total > 0xffff_ffff_ffff_ffff {
            return None;
        }
        Some(total as u64)
    }
}

/// What a plain decimal integer string denotes: up to 20 digits, no
/// dot, value at most `u64::MAX`.
pub open spec fn spec_parse_int(cs: Seq<char>) -> Option<u64> {
    if find_dot(cs) < 0 && 1 <= cs.len() <= 20 && all_digits(cs) && digits_val(cs) <= u64::MAX {
        Some(digits_val(cs) as u64)
    } else {
        None
    }
}

/// Parses a plain decimal integer; exactly the strings
/// `spec_parse_int` accepts.
pub fn parse_int(s: &str) -> (r: Option<u64>)
    ensures
        r == spec_parse_int(s@),
{
    let cs = str_chars(s);
    let n = cs.len();
    let mut dot: usize = 0;
    while dot < n && cs[dot] != '.'
        invariant
            dot <= n,
            n == cs@.len(),
            cs@ == s@,
            forall|k: int| 0 <= k < dot ==> cs@[k] != '.',
        decreases n - dot,
    {
        dot = dot + 1;
    }
    proof {
        lemma_find_dot_from_scan(cs@, dot as int);
    }
    if dot != n {
        return None;
    }
    if n < 1 || n > 20 {
        return None;
    }
    let w = match parse_digits(&cs, 0, n) {
        Some(w) => w,
        None => {
            proof {
                assert(cs@.subrange(0, n as int) =~= cs@);
            }
            return None;
        },
    };
    proof {
        assert(cs@.subrange(0, n as int) =~= cs@);
    }
    if w > 0xffff_ffff_ffff_ffff {
        return None;
    }
    Some(w as u64)
}

/// Law: parsing the decimal rendering of an integer gives it back.
pub proof fn lemma_int_roundtrip(n: u64)
    ensures
        spec_parse_int(dec_digits(n as nat)) == Some(n),
{
    let cs = dec_digits(n as nat);
    lemma_dec_digits_facts(n as nat);
    reveal_with_fuel(pow10, 22);
    assert(pow10(20) == 0x5_6bc7_5e2d_6310_0000);
    lemma_dec_digits_len(n as nat, 20);
    assert forall|k: int| 0 <= k < cs.len() implies cs[k] != '.' by {
        assert(is_digit(cs[k]));
    }
    lemma_find_dot_from_scan(cs, cs.len() as int);
}

/// A digit run of at most `k` characters denotes less than `10^k`.
proof fn lemma_digits_val_bound(cs: Seq<char>, k: nat)
    requires
        cs.len() <= k,
        all_digits(cs),
    ensures
        digits_val(cs) < pow10(k),
    decreases cs.len(),
{
    if cs.len() == 0 {
        lemma_pow10_positive(k);
    } else {
        assert forall|i: int| 0 <= i < cs.drop_last().len() implies is_digit(
            #[trigger] cs.drop_last()[i],
        ) by {
            assert(cs.drop_last()[i] == cs[i]);
        }
        lemma_digits_val_bound(cs.drop_last(), (k - 1) as nat);
        assert(pow10(k) == 10 * pow10((k - 1) as nat));
        assert(is_digit(cs.last()));
        assert(digit_val(cs.last()) as nat <= 9);
    }
}

/// `10^k` is positive.
proof fn lemma_pow10_positive(k: nat)
    ensures
        pow10(k) >= 1,
    decreases k,
{
    if k > 0 {
        lemma_pow10_positive((k - 1) as nat);
    }
}

/// Decimal renderings are non-empty digit runs denoting their number.
proof fn lemma_dec_digits_facts(n: nat)
    ensures
        all_digits(dec_digits(n)),
        digits_val(dec_digits(n)) == n,
        dec_digits(n).len() >= 1,
    decreases n,
{
    reveal_with_fuel(digits_val, 3);
    if n < 10 {
        assert(dec_digits(n) =~= seq![digit_char(n as int)]);
        assert(dec_digits(n).drop_last() =~= Seq::<char>::empty());
        assert(digits_val(Seq::<char>::empty()) == 0);
    } else {
        lemma_dec_digits_facts(n / 10);
        let prev = dec_digits(n / 10);
        let whole = dec_digits(n);
        assert(whole == prev.push(digit_char((n % 10) as int)));
        assert(whole.drop_last() =~= prev);
        assert forall|i: int| 0 <= i < whole.len() implies is_digit(#[trigger] whole[i]) by {
            if i < prev.len() {
                assert(whole[i] == prev[i]);
            }
        }
    }
}

/// A number below `10^k` renders in at most `k` digits.
proof fn lemma_dec_digits_len(n: nat, k: nat)
    requires
        n < pow10(k),
        k >= 1,
    ensures
        dec_digits(n).len() <= k,
    decreases k,
{
    if n >= 10 {
        assert(pow10(k) == 10 * pow10((k - 1) as nat));
        assert(n / 10 < pow10((k - 1) as nat));
        if k == 1 {
            assert(pow10(0) == 1);
            assert(false);
        }
        lemma_dec_digits_len(n / 10, (k - 1) as nat);
    }
}

/// Law: parsing the canonical rendering of a fixed-point value gives the
/// value back.
pub proof fn lemma_milli_roundtrip(v: u64)
    ensures
        spec_parse_milli(milli_chars(v as nat)) == Some(v),
{
    let whole = (v as nat) / 1000;
    let f = (v as nat) % 1000;
    let wd = dec_digits(whole);
    let cs = milli_chars(v as nat);
    lemma_dec_digits_facts(whole);
    reveal_with_fuel(pow10, 22);
    assert(pow10(20) == 0x5_6bc7_5e2d_6310_0000);
    lemma_dec_digits_len(whole, 20);
    assert(digits_val(wd) * 1000 + f == v);
    assert forall|k: int| 0 <= k < wd.len() implies wd[k] != '.' by {
        assert(is_digit(wd[k]));
    }
    if f == 0 {
        lemma_find_dot_from_scan(wd, wd.len() as int);
    } else {
        let dot = wd.len() as int;
        assert(cs[dot] == '.');
        assert forall|k: int| 0 <= k < dot implies cs[k] != '.' by {
            assert(cs[k] == wd[k]);
            assert(is_digit(wd[k]));
        }
        lemma_find_dot_from_scan(cs, dot);
        assert(cs.take(dot) =~= wd);
        let frac = cs.skip(dot + 1);
        if f % 100 == 0 {
            assert(frac =~= seq![digit_char((f / 100) as int)]);
            lemma_small_digits(frac);
            assert(digits_val(frac) == (f / 100) as nat);
            assert(digits_val(frac) * frac_scale(1) == f);
        } else if f % 10 == 0 {
            assert(frac =~= seq![
                digit_char((f / 100) as int),
                digit_char(((f / 10) % 10) as int),
            ]);
            lemma_small_digits(frac);
            assert(digits_val(frac) == (f / 100) * 10 + (f / 10) % 10);
            assert((f / 100) * 10 + (f / 10) % 10 == f / 10);
            assert(digits_val(frac) * frac_scale(2) == (f / 10) * 10);
            assert((f / 10) * 10 == f);
        } else {
            assert(frac =~= seq![
                digit_char((f / 100) as int),
                digit_char(((f / 10) % 10) as int),
                digit_char((f % 10) as int),
            ]);
            lemma_small_digits(frac);
            assert(digits_val(frac) == ((f / 100) * 10 + (f / 10) % 10) * 10 + f % 10);
            assert((f / 100) * 10 + (f / 10) % 10 == f / 10);
            assert((f / 10) * 10 + f % 10 == f);
            assert(digits_val(frac) * frac_scale(3) == f);
        }
    }
}

/// Unfolds `digits_val` over a run of one to three digit characters.
proof fn lemma_small_digits(cs: Seq<char>)
    requires
        1 <= cs.len() <= 3,
        forall|i: int| 0 <= i < cs.len() ==> is_digit(#[trigger] cs[i]),
    ensures
        all_digits(cs),
        cs.len() == 1 ==> digits_val(cs) == digit_val(cs[0]),
        cs.len() == 2 ==> digits_val(cs) == digit_val(cs[0]) * 10 + digit_val(cs[1]),
        cs.len() == 3 ==> digits_val(cs) == (digit_val(cs[0]) * 10 + digit_val(cs[1])) * 10
            + digit_val(cs[2]),
{
    reveal_with_fuel(digits_val, 5);
    assert(digits_val(Seq::<char>::empty()) == 0);
    if cs.len() == 1 {
        assert(cs.drop_last() =~= Seq::<char>::empty());
        assert(digits_val(cs) == digits_val(cs.drop_last()) * 10 + digit_val(cs.last()) as nat);
    } else if cs.len() == 2 {
        assert(cs.drop_last().drop_last() =~= Seq::<char>::empty());
        assert(cs.drop_last().last() == cs[0]);
    } else {
        assert(cs.drop_last().drop_last().drop_last() =~= Seq::<char>::empty());
        assert(cs.drop_last().drop_last().last() == cs[0]);
        assert(cs.drop_last().last() == cs[1]);
    }
}

/// Every character of a decimal rendering is an ASCII digit, so in
/// particular Latin-1.
pub proof fn lemma_dec_digits_latin1(n: nat)
    ensures
        forall|i: int|
            0 <= i < dec_digits(n).len() ==> (#[trigger] dec_digits(n)[i]) as u32 <= 255,
{
    lemma_dec_digits_facts(n);
    assert forall|i: int| 0 <= i < dec_digits(n).len() implies (#[trigger] dec_digits(
        n,
    )[i]) as u32 <= 255 by {
        assert(is_digit(dec_digits(n)[i]));
    }
}

/// Every character of a fixed-point rendering is an ASCII digit or the
/// dot, so in particular Latin-1.
pub proof fn lemma_milli_chars_latin1(v: nat)
    ensures
        forall|i: int|
            0 <= i < milli_chars(v).len() ==> (#[trigger] milli_chars(v)[i]) as u32 <= 255,
{
    let whole = dec_digits(v / 1000);
    lemma_dec_digits_facts(v / 1000);
    assert forall|i: int| 0 <= i < milli_chars(v).len() implies (#[trigger] milli_chars(
        v,
    )[i]) as u32 <= 255 by {
        if i < whole.len() {
            assert(milli_chars(v)[i] == whole[i]);
            assert(is_digit(whole[i]));
        }
    }
}

/// Thousandths of a radian for each whole degree, times `10^15`:
/// the fixed-precision form of `pi / 180`.
pub const MILLIRAD_PER_MILLIDEG_NUM: u64 = 17_453_292_519_943_295;

/// The denominator that `MILLIRAD_PER_MILLIDEG_NUM` is scaled by.
pub const MILLIRAD_PER_MILLIDEG_DEN: u64 = 1_000_000_000_000_000_000;

/// Degrees to radians, both in thousandths, rounding to the nearest
/// thousandth of a radian. A negative quantity is passed through
/// unchanged: it is invalid either way, and validation happens after
/// conversion.
pub open spec fn deg_to_rad_milli(d: int) -> int {
    if d < 0 {
        d
    } else {
        crate::formation::round_div(d * MILLIRAD_PER_MILLIDEG_NUM, MILLIRAD_PER_MILLIDEG_DEN as int)
    }
}

/// Computes `deg_to_rad_milli` exactly, in 128-bit arithmetic.
pub fn degrees_to_radians(d: i64) -> (r: i64)
    ensures
        r == deg_to_rad_milli(d as int),
{
    if d < 0 {
        return d;
    }
    let num: u128 = 2 * (d as u128) * (MILLIRAD_PER_MILLIDEG_NUM as u128)
        + (MILLIRAD_PER_MILLIDEG_DEN as u128);
    let den: u128 = 2 * (MILLIRAD_PER_MILLIDEG_DEN as u128);
    let q = num / den;
    proof {
        vstd::arithmetic::div_mod::lemma_div_pos_is_pos(num as int, den as int);
        assert(num < den * 0x7fff_ffff_ffff_ffff) by (nonlinear_arith)
            requires
                num == 2 * (d as int) * (MILLIRAD_PER_MILLIDEG_NUM as int) + (
                MILLIRAD_PER_MILLIDEG_DEN as int),
                den == 2 * (MILLIRAD_PER_MILLIDEG_DEN as int),
                0 <= d <= 0x7fff_ffff_ffff_ffff,
        ;
        vstd::arithmetic::div_mod::lemma_multiply_divide_lt(
            num as int,
            den as int,
            0x7fff_ffff_ffff_ffff,
        );
        assert(2 * (d as int) * (MILLIRAD_PER_MILLIDEG_NUM as int) == 2 * ((d as int)
            * (MILLIRAD_PER_MILLIDEG_NUM as int))) by (nonlinear_arith);
    }
    q as i64
}

/// Collects the characters of a string slice.
pub fn str_chars(s: &str) -> (r: Vec<char>)
    ensures
        r@ == s@,
{
    let mut out: Vec<char> = Vec::new();
    for c in it: s.chars()
        invariant
            out@ =~= it.seq().take(it.index() as int),
            it.seq() == s@,
    {
        out.push(c);
    }
    proof {
        assert(out@ =~= s@);
    }
    out
}

} // verus!
