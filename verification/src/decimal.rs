//! Exact decimal numbers and their parsing.
//!
//! A feed hands rates and prices over as decimal strings such as `"0.9"` or
//! `"$50000.00"`.  Instead of floating point, the library keeps such a number
//! as a [`Decimal`]: an integer mantissa `m` and a scale `k`, denoting the
//! exact rational `m / 10^k`.

use vstd::prelude::*;
use vstd::string::*;

verus! {

/// `10^e`, the denominator that a scale `e` stands for.
pub open spec fn pow10(e: nat) -> int
    decreases e,
{
    if e == 0 {
        1
    } else {
        10 * pow10((e - 1) as nat)
    }
}

pub proof fn lemma_pow10_pos(e: nat)
    ensures
        pow10(e) >= 1,
    decreases e,
{
    if e > 0 {
        lemma_pow10_pos((e - 1) as nat);
    }
}

pub proof fn lemma_pow10_adds(a: nat, b: nat)
    ensures
        pow10(a + b) == pow10(a) * pow10(b),
    decreases a,
{
    if a == 0 {
    } else {
        lemma_pow10_adds((a - 1) as nat, b);
        assert(pow10(((a - 1) + b) as nat) == pow10((a - 1) as nat) * pow10(b));
        assert(pow10(a + b) == 10 * (pow10((a - 1) as nat) * pow10(b)));
        assert(10 * (pow10((a - 1) as nat) * pow10(b)) == (10 * pow10((a - 1) as nat)) * pow10(b))
            by (nonlinear_arith);
    }
}

pub proof fn lemma_pow10_le(a: nat, b: nat)
    requires
        a <= b,
    ensures
        pow10(a) <= pow10(b),
    decreases b,
{
    if a < b {
        lemma_pow10_le(a, (b - 1) as nat);
        lemma_pow10_pos((b - 1) as nat);
    }
}

pub proof fn lemma_pow10_38()
    ensures
        pow10(38) == 100000000000000000000000000000000000000,
{
    reveal_with_fuel(pow10, 40);
}

/// Largest exponent whose power of ten fits in a `u128`.
pub fn pow10_u128(e: u32) -> (r: u128)
    requires
        e <= 38,
    ensures
        r == pow10(e as nat),
{
    let mut acc: u128 = 1;
    let mut i: u32 = 0;
    while i < e
        invariant
            i <= e <= 38,
            acc == pow10(i as nat),
        decreases e - i,
    {
        proof {
            lemma_pow10_le((i + 1) as nat, 38);
            lemma_pow10_38();
            lemma_pow10_pos(i as nat);
        }
        acc = acc * 10;
        i = i + 1;
    }
    acc
}

/// An exact decimal number: the rational `m / 10^k`.
#[derive(Clone, Copy, Debug, PartialEq, Eq, Structural)]
pub struct Decimal {
    /// The mantissa: all digits of the number, with the decimal point removed.
    pub m: u64,
    /// The scale: how many of the mantissa's digits are fractional.
    pub k: u32,
}

impl Decimal {
    /// The numerator of the rational this decimal denotes.
    pub open spec fn num(self) -> int {
        self.m as int
    }

    /// The denominator of the rational this decimal denotes.
    pub open spec fn den(self) -> int {
        pow10(self.k as nat)
    }

    /// A scale small enough that every derived power of ten fits the machine.
    pub open spec fn wf(self) -> bool {
        self.k <= 19
    }

    /// Builds a decimal after checking the scale bound.
    pub fn new(m: u64, k: u32) -> (r: Option<Decimal>)
        ensures
            r is Some <==> k <= 19,
            r is Some ==> r->0 == (Decimal { m, k }) && r->0.wf(),
    {
        if k <= 19 {
            Some(Decimal { m, k })
        } else {
            None
        }
    }
}

/// Whether a character is an ASCII digit.
pub open spec fn is_digit_char(c: char) -> bool {
    48 <= c as u32 <= 57
}

/// The numeric value of an ASCII digit character.
pub open spec fn digit_char_val(c: char) -> int {
    c as u32 - 48
}

pub open spec fn all_digit_chars(s: Seq<char>) -> bool {
    forall|i: int| 0 <= i < s.len() ==> is_digit_char(s[i])
}

/// The integer that a digit string denotes, most significant digit first.
pub open spec fn digits_val(s: Seq<char>) -> int
    decreases s.len(),
{
    if s.len() == 0 {
        0
    } else {
        10 * digits_val(s.drop_last()) + digit_char_val(s.last())
    }
}

pub proof fn lemma_digits_val_nonneg(s: Seq<char>)
    requires
        all_digit_chars(s),
    ensures
        digits_val(s) >= 0,
    decreases s.len(),
{
    if s.len() > 0 {
        lemma_digits_val_nonneg(s.drop_last());
    }
}

/// Appending digits can only grow the denoted value.
pub proof fn lemma_digits_val_prefix_le(a: Seq<char>, b: Seq<char>)
    requires
        all_digit_chars(a),
        all_digit_chars(b),
    ensures
        digits_val(a) <= digits_val(a + b),
    decreases b.len(),
{
    if b.len() == 0 {
        assert(a + b =~= a);
    } else {
        lemma_digits_val_prefix_le(a, b.drop_last());
        assert((a + b).drop_last() =~= a + b.drop_last());
        assert((a + b).last() == b.last());
        lemma_digits_val_nonneg(a + b.drop_last());
        assert(all_digit_chars(a + b.drop_last()));
    }
}

/// Index of the first `'.'` in `s`, or `s.len()` if there is none.
pub open spec fn dot_index(s: Seq<char>) -> int
    decreases s.len(),
{
    if s.len() == 0 {
        0
    } else if s[0] == '.' {
        0
    } else {
        1 + dot_index(s.drop_first())
    }
}

pub proof fn lemma_dot_index(s: Seq<char>)
    ensures
        0 <= dot_index(s) <= s.len(),
        dot_index(s) < s.len() ==> s[dot_index(s)] == '.',
        forall|j: int| 0 <= j < dot_index(s) ==> s[j] != '.',
    decreases s.len(),
{
    if s.len() > 0 && s[0] != '.' {
        lemma_dot_index(s.drop_first());
        assert forall|j: int| 0 <= j < dot_index(s) implies s[j] != '.' by {
            if j > 0 {
                assert(s.drop_first()[j - 1] == s[j]);
            }
        }
    }
}

/// The fractional digits of a decimal string: everything after the first dot.
pub open spec fn frac_part(s: Seq<char>) -> Seq<char> {
    if dot_index(s) < s.len() {
        s.subrange(dot_index(s) + 1, s.len() as int)
    } else {
        Seq::empty()
    }
}

/// All digits of a decimal string, with the dot removed.
pub open spec fn digit_seq(s: Seq<char>) -> Seq<char> {
    s.subrange(0, dot_index(s)) + frac_part(s)
}

/// The strings this library accepts as decimal numbers: digits with at most
/// one decimal point somewhere among them, and at least one digit.
pub open spec fn is_decimal_str(s: Seq<char>) -> bool {
    all_digit_chars(digit_seq(s)) && digit_seq(s).len() >= 1
}

/// The mantissa a decimal string denotes: its digits read as one integer.
pub open spec fn mantissa_of(s: Seq<char>) -> int {
    digits_val(digit_seq(s))
}

/// The scale a decimal string denotes: its count of fractional digits.
pub open spec fn scale_of(s: Seq<char>) -> nat {
    frac_part(s).len()
}

/// Whether a decimal string is representable as a [`Decimal`].
pub open spec fn decimal_fits(s: Seq<char>) -> bool {
    is_decimal_str(s) && mantissa_of(s) < 0x10000000000000000 && scale_of(s) <= 19
}

/// The digits seen after scanning the first `i` characters, the dot skipped.
spec fn scanned_digits(s: Seq<char>, di: int, i: int) -> Seq<char> {
    if i <= di {
        s.subrange(0, i)
    } else {
        s.subrange(0, di) + s.subrange(di + 1, i)
    }
}

/// Parses a decimal string such as `"1234.56"` into the exact rational it
/// denotes.  Succeeds exactly on strings of shape `digit* ['.' digit*]` with
/// at least one digit, a mantissa below `2^64` and at most 19 fractional
/// digits; no sign, exponent or grouping is accepted.
pub fn parse_decimal(s: &str) -> (r: Option<Decimal>)
    ensures
        r is Some <==> decimal_fits(s@),
        r is Some ==> r->0.m == mantissa_of(s@) && r->0.k == scale_of(s@) && r->0.wf(),
{
    let n: usize = s.unicode_len();

    // Find the first dot, if any.
    let mut di: usize = 0;
    while di < n && s.get_char(di) != '.'
        invariant
            di <= n,
            n == s@.len(),
            forall|j: int| 0 <= j < di ==> s@[j] != '.',
        decreases n - di,
    {
        di = di + 1;
    }
    proof {
        lemma_dot_index(s@);
        if di < n {
            assert(s@[di as int] == '.');
            assert(dot_index(s@) == di as int);
        } else {
            assert(dot_index(s@) == di as int);
        }
    }

    // Accumulate the mantissa over every character but the dot.
    let ghost dii: int = di as int;
    let mut acc: u64 = 0;
    let mut i: usize = 0;
    while i < n
        invariant
            i <= n,
            n == s@.len(),
            dii == di as int,
            dii == dot_index(s@),
            0 <= dii <= n,
            all_digit_chars(scanned_digits(s@, dii, i as int)),
            acc == digits_val(scanned_digits(s@, dii, i as int)),
        decreases n - i,
    {
        let ghost pre: Seq<char> = scanned_digits(s@, dii, i as int);
        if i == di {
            proof {
                assert(scanned_digits(s@, dii, i + 1) =~= pre);
            }
        } else {
            let c = s.get_char(i);
            let cu = c as u32;
            proof {
                assert(scanned_digits(s@, dii, i + 1) =~= pre.push(s@[i as int]));
                assert(scanned_digits(s@, dii, i + 1).drop_last() =~= pre);
            }
            if cu < 48 || cu > 57 {
                proof {
                    let ds = digit_seq(s@);
                    if i < di {
                        assert(ds[i as int] == s@[i as int]);
                    } else {
                        assert(ds[dii + (i - dii - 1)] == s@[i as int]);
                    }
                    assert(!all_digit_chars(ds));
                }
                return None;
            }
            let d: u64 = (cu - 48) as u64;
            let step = match acc.checked_mul(10) {
                Some(t) => t.checked_add(d),
                None => None,
            };
            match step {
                Some(v) => {
                    acc = v;
                },
                None => {
                    proof {
                        let ds = digit_seq(s@);
                        let grown = scanned_digits(s@, dii, i + 1);
                        if is_decimal_str(s@) {
                            assert(ds =~= grown + ds.subrange(grown.len() as int, ds.len() as int));
                            assert(all_digit_chars(grown));
                            lemma_digits_val_prefix_le(
                                grown,
                                ds.subrange(grown.len() as int, ds.len() as int),
                            );
                            assert(mantissa_of(s@) >= digits_val(grown));
                            assert(digits_val(grown) == 10 * acc + digit_char_val(s@[i as int]));
                        }
                    }
                    return None;
                },
            }
        }
        i = i + 1;
    }
    proof {
        assert(scanned_digits(s@, dii, n as int) =~= digit_seq(s@));
    }

    // At least one digit, and a scale the machine can hold.
    let digit_count: usize = if di < n {
        n - 1
    } else {
        n
    };
    if digit_count == 0 {
        proof {
            assert(digit_seq(s@).len() == 0);
        }
        return None;
    }
    let k: usize = if di < n {
        n - 1 - di
    } else {
        0
    };
    proof {
        assert(k == scale_of(s@));
    }
    if k > 19 {
        return None;
    }
    Some(Decimal { m: acc, k: k as u32 })
}

/// The body of a price string: one leading currency-symbol character, when
/// present, is stripped before the number is read.
pub open spec fn price_body(s: Seq<char>) -> Seq<char> {
    if s.len() > 0 && !is_digit_char(s[0]) && s[0] != '.' {
        s.drop_first()
    } else {
        s
    }
}

/// Parses a formatted monetary string such as `"$1234.56"`: a single leading
/// non-numeric character is dropped, and the rest is read as a decimal.
pub fn parse_price(s: &str) -> (r: Option<Decimal>)
    ensures
        r is Some <==> decimal_fits(price_body(s@)),
        r is Some ==> r->0.m == mantissa_of(price_body(s@)) && r->0.k == scale_of(price_body(s@))
            && r->0.wf(),
{
    let n: usize = s.unicode_len();
    if n > 0 {
        let c = s.get_char(0);
        let cu = c as u32;
        if (cu < 48 || cu > 57) && c != '.' {
            let rest = s.substring_char(1, n);
            proof {
                assert(rest@ =~= price_body(s@));
            }
            return parse_decimal(rest);
        }
    }
    parse_decimal(s)
}

} // verus!
