//! Decimal text as the exchange sends it: price levels and quantities.
use vstd::prelude::*;

verus! {

/// Whether every character of a quantity is `0` or `.`: such a quantity
/// stands for zero (an empty text included).
pub open spec fn qty_is_zero(s: Seq<char>) -> bool {
    forall|i: int| 0 <= i < s.len() ==> s[i] == '0' || s[i] == '.'
}

/// Tells whether a quantity text stands for zero.
pub fn is_zero_qty(qty: &str) -> (r: bool)
    ensures
        r == qty_is_zero(qty@),
{
    let n = qty.unicode_len();
    let mut i: usize = 0;
    while i < n
        invariant
            n == qty@.len(),
            i <= n,
            forall|j: int| 0 <= j < i ==> qty@[j] == '0' || qty@[j] == '.',
        decreases n - i,
    {
        let c = qty.get_char(i);
        if c != '0' && c != '.' {
            return false;
        }
        i = i + 1;
    }
    true
}

/// Number of fractional decimal digits that a price key keeps: a price is
/// stored as an integer count of `10^-PRICE_SCALE` units.
pub const PRICE_SCALE: usize = 18;

pub open spec fn is_digit(c: char) -> bool {
    '0' <= c && c <= '9'
}

pub open spec fn digit_value(c: char) -> int {
    c as int - '0' as int
}

pub open spec fn pow10(n: nat) -> int
    decreases n,
{
    if n == 0 {
        1
    } else {
        10 * pow10((n - 1) as nat)
    }
}

/// The digits of `s` read as one integer, every `.` skipped.
pub open spec fn mantissa(s: Seq<char>) -> int
    decreases s.len(),
{
    if s.len() == 0 {
        0
    } else if is_digit(s.last()) {
        mantissa(s.drop_last()) * 10 + digit_value(s.last())
    } else {
        mantissa(s.drop_last())
    }
}

pub open spec fn digit_count(s: Seq<char>) -> nat
    decreases s.len(),
{
    if s.len() == 0 {
        0
    } else if is_digit(s.last()) {
        digit_count(s.drop_last()) + 1
    } else {
        digit_count(s.drop_last())
    }
}

pub open spec fn dot_count(s: Seq<char>) -> nat
    decreases s.len(),
{
    if s.len() == 0 {
        0
    } else if s.last() == '.' {
        dot_count(s.drop_last()) + 1
    } else {
        dot_count(s.drop_last())
    }
}

/// How many characters follow the decimal point (zero without one).
pub open spec fn fraction_len(s: Seq<char>) -> nat
    decreases s.len(),
{
    if s.len() == 0 || s.last() == '.' {
        0
    } else if dot_count(s.drop_last()) > 0 {
        fraction_len(s.drop_last()) + 1
    } else {
        0
    }
}

/// Plain decimal notation: digits with at most one `.`, at least one digit.
pub open spec fn is_decimal_text(s: Seq<char>) -> bool {
    &&& forall|i: int| 0 <= i < s.len() ==> is_digit(s[i]) || s[i] == '.'
    &&& dot_count(s) <= 1
    &&& digit_count(s) >= 1
}

/// The numeric value of a decimal text in units of `10^-PRICE_SCALE`.
pub open spec fn price_value(s: Seq<char>) -> int {
    mantissa(s) * pow10((PRICE_SCALE - fraction_len(s)) as nat)
}

/// A price level text that has a numeric key: plain decimal notation, no more
/// fractional digits than `PRICE_SCALE`, and a value that fits in a `u128`.
pub open spec fn valid_price(s: Seq<char>) -> bool {
    &&& is_decimal_text(s)
    &&& fraction_len(s) <= PRICE_SCALE
    &&& price_value(s) <= u128::MAX
}

proof fn lemma_pow10_positive(n: nat)
    ensures
        pow10(n) >= 1,
    decreases n,
{
    if n > 0 {
        lemma_pow10_positive((n - 1) as nat);
    }
}

proof fn lemma_mantissa_grows(s: Seq<char>, i: int)
    requires
        0 <= i <= s.len(),
        forall|j: int| 0 <= j < s.len() ==> is_digit(s[j]) || s[j] == '.',
    ensures
        0 <= mantissa(s.take(i)) <= mantissa(s),
    decreases s.len() - i,
{
    if i < s.len() {
        lemma_mantissa_grows(s, i + 1);
        assert(s.take(i + 1).drop_last() =~= s.take(i));
        lemma_mantissa_nonneg(s.take(i));
    } else {
        assert(s.take(i) =~= s);
        lemma_mantissa_nonneg(s);
    }
}

proof fn lemma_mantissa_nonneg(s: Seq<char>)
    requires
        forall|j: int| 0 <= j < s.len() ==> is_digit(s[j]) || s[j] == '.',
    ensures
        mantissa(s) >= 0,
    decreases s.len(),
{
    if s.len() > 0 {
        lemma_mantissa_nonneg(s.drop_last());
    }
}

/// Reads a price level text as its numeric key, `None` where it has none.
pub fn parse_price_level(level: &str) -> (r: Option<u128>)
    ensures
        match r {
            Some(k) => valid_price(level@) && k as int == price_value(level@),
            None => !valid_price(level@),
        },
{
    let n = level.unicode_len();
    let ghost s = level@;
    let mut i: usize = 0;
    let mut m: u128 = 0;
    let mut seen_dot = false;
    let mut seen_digit = false;
    let mut frac: usize = 0;
    while i < n
        invariant
            n == s.len(),
            s == level@,
            i <= n,
            forall|j: int| 0 <= j < i ==> is_digit(s[j]) || s[j] == '.',
            m as int == mantissa(s.take(i as int)),
            seen_dot == (dot_count(s.take(i as int)) == 1),
            dot_count(s.take(i as int)) <= 1,
            seen_digit == (digit_count(s.take(i as int)) >= 1),
            frac as nat == fraction_len(s.take(i as int)),
            frac <= i,
        decreases n - i,
    {
        let c = level.get_char(i);
        let ghost t = s.take(i + 1);
        assert(t.drop_last() =~= s.take(i as int));
        assert(t.last() == c);
        if c == '.' {
            if seen_dot {
                proof {
                    lemma_dot_count_prefix(s, i + 1);
                }
                return None;
            }
            seen_dot = true;
            frac = 0;
        } else if '0' <= c && c <= '9' {
            let d = (c as u32 - '0' as u32) as u128;
            match m.checked_mul(10) {
                Some(m10) => match m10.checked_add(d) {
                    Some(next) => {
                        m = next;
                    },
                    None => {
                        proof {
                            lemma_too_large(s, i + 1);
                        }
                        return None;
                    },
                },
                None => {
                    proof {
                        lemma_too_large(s, i + 1);
                    }
                    return None;
                },
            }
            seen_digit = true;
            if seen_dot {
                frac = frac + 1;
            }
        } else {
            return None;
        }
        i = i + 1;
    }
    assert(s.take(n as int) =~= s);
    if !seen_digit || frac > PRICE_SCALE {
        return None;
    }
    let mut k: u128 = m;
    let mut e: usize = frac;
    while e < PRICE_SCALE
        invariant
            s == level@,
            frac <= e <= PRICE_SCALE,
            m as int == mantissa(s),
            k as int == mantissa(s) * pow10((e - frac) as nat),
            fraction_len(s) == frac as nat,
            is_decimal_text(s),
        decreases PRICE_SCALE - e,
    {
        match k.checked_mul(10) {
            Some(k10) => {
                proof {
                    lemma_pow10_step(mantissa(s), (e - frac) as nat);
                }
                k = k10;
            },
            None => {
                proof {
                    lemma_pow10_split(mantissa(s), (e - frac + 1) as nat, (PRICE_SCALE - e - 1) as nat);
                    lemma_pow10_step(mantissa(s), (e - frac) as nat);
                    lemma_pow10_positive((PRICE_SCALE - e - 1) as nat);
                    lemma_pow10_positive((e - frac + 1) as nat);
                    lemma_mantissa_nonneg(s);
                    assert((e - frac + 1) as nat + (PRICE_SCALE - e - 1) as nat == (PRICE_SCALE - frac) as nat);
                    assert(mantissa(s) * pow10((e - frac + 1) as nat) > u128::MAX);
                    assert(mantissa(s) * pow10((e - frac + 1) as nat) >= 0) by (nonlinear_arith)
                        requires mantissa(s) >= 0, pow10((e - frac + 1) as nat) >= 1;
                    assert(mantissa(s) * pow10((e - frac + 1) as nat) * pow10((PRICE_SCALE - e - 1) as nat)
                        >= mantissa(s) * pow10((e - frac + 1) as nat)) by (nonlinear_arith)
                        requires mantissa(s) * pow10((e - frac + 1) as nat) >= 0,
                            pow10((PRICE_SCALE - e - 1) as nat) >= 1;
                    assert(price_value(s) > u128::MAX);
                }
                return None;
            },
        }
        e = e + 1;
    }
    Some(k)
}

proof fn lemma_pow10_step(a: int, n: nat)
    ensures
        a * pow10(n) * 10 == a * pow10(n + 1),
{
    assert(pow10(n + 1) == 10 * pow10(n));
    assert(a * pow10(n) * 10 == a * (10 * pow10(n))) by (nonlinear_arith);
}

proof fn lemma_pow10_split(a: int, x: nat, y: nat)
    ensures
        a * pow10(x) * pow10(y) == a * pow10(x + y),
    decreases y,
{
    if y > 0 {
        lemma_pow10_split(a, x, (y - 1) as nat);
        lemma_pow10_step(a, (x + y - 1) as nat);
        assert(pow10(y) == 10 * pow10((y - 1) as nat));
        assert(a * pow10(x) * pow10(y) == a * pow10(x) * pow10((y - 1) as nat) * 10) by (nonlinear_arith)
            requires pow10(y) == 10 * pow10((y - 1) as nat);
    }
}

proof fn lemma_dot_count_prefix(s: Seq<char>, i: int)
    requires
        0 <= i <= s.len(),
    ensures
        dot_count(s.take(i)) <= dot_count(s),
    decreases s.len() - i,
{
    if i < s.len() {
        lemma_dot_count_prefix(s, i + 1);
        assert(s.take(i + 1).drop_last() =~= s.take(i));
    } else {
        assert(s.take(i) =~= s);
    }
}

/// A prefix whose digits already exceed a `u128` leaves the whole text without a key.
proof fn lemma_too_large(s: Seq<char>, i: int)
    requires
        0 <= i <= s.len(),
        mantissa(s.take(i)) > u128::MAX,
    ensures
        !valid_price(s),
{
    if is_decimal_text(s) {
        lemma_mantissa_grows(s, i);
        lemma_pow10_positive((PRICE_SCALE - fraction_len(s)) as nat);
        assert(mantissa(s) * pow10((PRICE_SCALE - fraction_len(s)) as nat) >= mantissa(s)) by (nonlinear_arith)
            requires mantissa(s) >= 0, pow10((PRICE_SCALE - fraction_len(s)) as nat) >= 1;
    }
}

} // verus!
