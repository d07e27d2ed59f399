//! Cross-rate resolution through a common pivot unit.
//!
//! Each symbol is first turned into its pivot value: the exact rational worth
//! of one unit of that symbol in the pivot currency.  A fiat symbol's pivot
//! value is the base currency's pivot value divided by the symbol's rate (the
//! table stores the price of one base-unit in symbol-units); the base symbol
//! itself is worth exactly the base pivot value; a crypto symbol is worth its
//! parsed price.  The rate from `from` to `to` is then the quotient of the
//! two pivot values, kept exact as a pair of 128-bit integers.

use vstd::prelude::*;
use crate::decimal::{
    pow10, pow10_u128, lemma_pow10_pos, lemma_pow10_adds, parse_price, decimal_fits, mantissa_of,
    scale_of, price_body,
};
use crate::tables::{FiatTable, CryptoTable, fiat_lookup, crypto_lookup};

verus! {

/// Why a rate query failed.
#[derive(Clone, Debug, PartialEq, Eq)]
pub enum ResolveError {
    /// The symbol matched neither the fiat table nor the crypto table.
    UnknownSymbol(String),
    /// A payload, or a price string inside one, was not of the expected shape.
    MalformedPayload,
    /// The exact rate does not fit the machine's 128-bit words.
    Overflow,
}

/// A symbol's pivot value in factored form: the exact rational
/// `(num_m * 10^num_e) / (den_m * 10^den_e)`.
#[derive(Clone, Copy, Debug, PartialEq, Eq, Structural)]
pub struct PivotParts {
    pub num_m: u64,
    pub num_e: u32,
    pub den_m: u64,
    pub den_e: u32,
}

impl PivotParts {
    /// The numerator of the pivot value.
    pub open spec fn num(self) -> int {
        self.num_m * pow10(self.num_e as nat)
    }

    /// The denominator of the pivot value.
    pub open spec fn den(self) -> int {
        self.den_m * pow10(self.den_e as nat)
    }

    /// Positive mantissas and machine-sized exponents: the value is a
    /// well-defined positive rational.
    pub open spec fn wf(self) -> bool {
        self.num_m >= 1 && self.den_m >= 1 && self.num_e <= 19 && self.den_e <= 19
    }
}

/// How looking one symbol up can end.
#[derive(Clone, Copy, Debug, PartialEq, Eq, Structural)]
pub enum PivotOutcome {
    /// The symbol was found and has this pivot value.
    Value(PivotParts),
    /// The symbol was found in the crypto table, but its price string does
    /// not denote a positive representable decimal.
    BadPrice,
    /// The symbol matched neither table.
    Missing,
}

/// The pivot value of `sym`: the base currency's own pivot worth, an
/// inverted fiat rate times that worth, or a parsed crypto price — the
/// first of these that applies, in this order.
pub open spec fn pivot_spec(f: FiatTable, c: CryptoTable, sym: Seq<char>) -> PivotOutcome {
    if sym == f.base@ {
        PivotOutcome::Value(
            PivotParts { num_m: f.base_pivot.m, num_e: 0, den_m: 1, den_e: f.base_pivot.k },
        )
    } else if fiat_lookup(f.entries@, sym) is Some {
        let r = fiat_lookup(f.entries@, sym)->0;
        PivotOutcome::Value(
            PivotParts { num_m: f.base_pivot.m, num_e: r.k, den_m: r.m, den_e: f.base_pivot.k },
        )
    } else if crypto_lookup(c.coins@, sym) is Some {
        let p = price_body(crypto_lookup(c.coins@, sym)->0);
        if decimal_fits(p) && mantissa_of(p) > 0 {
            PivotOutcome::Value(
                PivotParts {
                    num_m: mantissa_of(p) as u64,
                    num_e: 0,
                    den_m: 1,
                    den_e: scale_of(p) as u32,
                },
            )
        } else {
            PivotOutcome::BadPrice
        }
    } else {
        PivotOutcome::Missing
    }
}

/// Resolves one symbol to its pivot value.
pub fn pivot_value(f: &FiatTable, c: &CryptoTable, sym: &String) -> (r: PivotOutcome)
    requires
        f.wf(),
    ensures
        r == pivot_spec(*f, *c, sym@),
        r matches PivotOutcome::Value(p) ==> p.wf(),
{
    if *sym == f.base {
        return PivotOutcome::Value(
            PivotParts { num_m: f.base_pivot.m, num_e: 0, den_m: 1, den_e: f.base_pivot.k },
        );
    }
    match f.lookup(sym) {
        Some(rate) => {
            proof {
                crate::tables::lemma_fiat_lookup_wf(f.entries@, sym@);
            }
            return PivotOutcome::Value(
                PivotParts {
                    num_m: f.base_pivot.m,
                    num_e: rate.k,
                    den_m: rate.m,
                    den_e: f.base_pivot.k,
                },
            );
        },
        None => {},
    }
    match c.lookup_price(sym) {
        Some(price) => {
            match parse_price(price.as_str()) {
                Some(d) => {
                    if d.m > 0 {
                        PivotOutcome::Value(
                            PivotParts { num_m: d.m, num_e: 0, den_m: 1, den_e: d.k },
                        )
                    } else {
                        PivotOutcome::BadPrice
                    }
                },
                None => PivotOutcome::BadPrice,
            }
        },
        None => PivotOutcome::Missing,
    }
}

/// An exact conversion rate: the rational `num / den`.  Multiplying an
/// amount of the `from` currency by it yields the amount in `to` units.
#[derive(Clone, Copy, Debug, PartialEq, Eq, Structural)]
pub struct Rate {
    pub num: u128,
    pub den: u128,
}

impl Rate {
    /// Whether this rate is exactly one.
    pub fn is_unit(&self) -> (r: bool)
        ensures
            r == (self.num == self.den),
    {
        self.num == self.den
    }
}

/// The exact rate as the quotient of two pivot values, with the common
/// power of ten cancelled: numerator and denominator of `pf / pt`.
pub open spec fn rate_parts(pf: PivotParts, pt: PivotParts) -> (int, int) {
    let ne = pf.num_e + pt.den_e;
    let de = pf.den_e + pt.num_e;
    let mn = if ne <= de {
        ne
    } else {
        de
    };
    (
        pf.num_m * pt.den_m * pow10((ne - mn) as nat),
        pf.den_m * pt.num_m * pow10((de - mn) as nat),
    )
}

/// One more than the largest `u128`.
pub open spec fn word_limit() -> int {
    0x100000000000000000000000000000000int
}

/// What [`resolve`] returns, for every pair of symbols: the first symbol in
/// neither table names the failure, a degenerate price is a malformed
/// payload, and two resolved pivot values give exactly their quotient, or
/// `Overflow` when that exact pair outgrows the machine's words.
pub open spec fn resolve_post(
    f: FiatTable,
    c: CryptoTable,
    from: Seq<char>,
    to: Seq<char>,
    r: Result<Rate, ResolveError>,
) -> bool {
    match (pivot_spec(f, c, from), pivot_spec(f, c, to)) {
        (PivotOutcome::Missing, _) => r matches Err(ResolveError::UnknownSymbol(s)) && s@ == from,
        (PivotOutcome::BadPrice, _) => r == Err::<Rate, ResolveError>(
            ResolveError::MalformedPayload,
        ),
        (PivotOutcome::Value(_), PivotOutcome::Missing) => r matches Err(
            ResolveError::UnknownSymbol(s),
        ) && s@ == to,
        (PivotOutcome::Value(_), PivotOutcome::BadPrice) => r == Err::<Rate, ResolveError>(
            ResolveError::MalformedPayload,
        ),
        (PivotOutcome::Value(pf), PivotOutcome::Value(pt)) => {
            let parts = rate_parts(pf, pt);
            if parts.0 < word_limit() && parts.1 < word_limit() {
                r == Ok::<Rate, ResolveError>(Rate { num: parts.0 as u128, den: parts.1 as u128 })
            } else {
                r == Err::<Rate, ResolveError>(ResolveError::Overflow)
            }
        },
    }
}

/// Turns two raw symbols and the two tables into the exact conversion rate.
///
/// `from` is resolved first, then `to`, each to its pivot value; a symbol in
/// neither table names the first failure.  On success the result is exactly
/// the quotient of the two pivot values; when that exact pair outgrows the
/// machine's words the query ends in `Overflow`.
pub fn resolve(from: &String, to: &String, fiat: &FiatTable, crypto: &CryptoTable) -> (r: Result<
    Rate,
    ResolveError,
>)
    requires
        fiat.wf(),
    ensures
        resolve_post(*fiat, *crypto, from@, to@, r),
{
    let pf = match pivot_value(fiat, crypto, from) {
        PivotOutcome::Missing => {
            return Err(ResolveError::UnknownSymbol(from.clone()));
        },
        PivotOutcome::BadPrice => {
            return Err(ResolveError::MalformedPayload);
        },
        PivotOutcome::Value(p) => p,
    };
    let pt = match pivot_value(fiat, crypto, to) {
        PivotOutcome::Missing => {
            return Err(ResolveError::UnknownSymbol(to.clone()));
        },
        PivotOutcome::BadPrice => {
            return Err(ResolveError::MalformedPayload);
        },
        PivotOutcome::Value(p) => p,
    };

    proof {
        assert((pf.num_m as int) * (pt.den_m as int) <= (u64::MAX as int) * (u64::MAX as int)
            && (pf.den_m as int) * (pt.num_m as int) <= (u64::MAX as int) * (u64::MAX as int))
            by (nonlinear_arith)
            requires
                pf.num_m <= u64::MAX,
                pt.den_m <= u64::MAX,
                pf.den_m <= u64::MAX,
                pt.num_m <= u64::MAX,
        ;
    }
    let nm: u128 = (pf.num_m as u128) * (pt.den_m as u128);
    let dm: u128 = (pf.den_m as u128) * (pt.num_m as u128);
    let ne: u32 = pf.num_e + pt.den_e;
    let de: u32 = pf.den_e + pt.num_e;
    let mn: u32 = if ne <= de {
        ne
    } else {
        de
    };
    let num = match nm.checked_mul(pow10_u128(ne - mn)) {
        Some(v) => v,
        None => {
            return Err(ResolveError::Overflow);
        },
    };
    let den = match dm.checked_mul(pow10_u128(de - mn)) {
        Some(v) => v,
        None => {
            return Err(ResolveError::Overflow);
        },
    };
    Ok(Rate { num, den })
}

/// Law: resolving any symbol to itself gives exactly the unit rate — the
/// exact pair has equal numerator and denominator.
pub proof fn lemma_resolve_identity(p: PivotParts)
    ensures
        rate_parts(p, p).0 == rate_parts(p, p).1,
{
    assert((p.num_m as int) * (p.den_m as int) == (p.den_m as int) * (p.num_m as int))
        by (nonlinear_arith);
}

/// Law: the rate from one symbol to another and the rate back are exact
/// reciprocals — the product of the two exact rationals is one.
pub proof fn lemma_resolve_reciprocal(p: PivotParts, q: PivotParts)
    ensures
        rate_parts(p, q).0 * rate_parts(q, p).0 == rate_parts(p, q).1 * rate_parts(q, p).1,
{
    let a = (p.num_e + q.den_e) as int;
    let b = (p.den_e + q.num_e) as int;
    let mn = if a <= b {
        a
    } else {
        b
    };
    let ea = pow10((a - mn) as nat);
    let eb = pow10((b - mn) as nat);
    let pn = p.num_m as int;
    let pd = p.den_m as int;
    let qn = q.num_m as int;
    let qd = q.den_m as int;
    assert((pn * qd * ea) * (qn * pd * eb) == (pd * qn * eb) * (qd * pn * ea))
        by (nonlinear_arith);
}

/// Law: for a fiat code other than the base currency, converting the code to
/// the base and the base to the code yield reciprocal rates; the code's
/// presence in the fiat table alone decides both lookups.
pub proof fn lemma_pivot_inversion(f: FiatTable, c: CryptoTable, code: Seq<char>)
    requires
        f.wf(),
        code != f.base@,
        fiat_lookup(f.entries@, code) is Some,
    ensures
        pivot_spec(f, c, code) is Value,
        pivot_spec(f, c, f.base@) is Value,
        rate_parts(pivot_spec(f, c, code)->Value_0, pivot_spec(f, c, f.base@)->Value_0).0
            * rate_parts(pivot_spec(f, c, f.base@)->Value_0, pivot_spec(f, c, code)->Value_0).0
            == rate_parts(pivot_spec(f, c, code)->Value_0, pivot_spec(f, c, f.base@)->Value_0).1
            * rate_parts(pivot_spec(f, c, f.base@)->Value_0, pivot_spec(f, c, code)->Value_0).1,
{
    let p = pivot_spec(f, c, code)->Value_0;
    let q = pivot_spec(f, c, f.base@)->Value_0;
    lemma_resolve_reciprocal(p, q);
}

/// Law: a query from any symbol to itself that succeeds returns exactly
/// the unit rate.
pub proof fn lemma_identity_rate(
    f: FiatTable,
    c: CryptoTable,
    sym: Seq<char>,
    r: Result<Rate, ResolveError>,
)
    requires
        resolve_post(f, c, sym, sym, r),
        r is Ok,
    ensures
        r->Ok_0.num == r->Ok_0.den,
{
    match pivot_spec(f, c, sym) {
        PivotOutcome::Value(p) => {
            lemma_resolve_identity(p);
        },
        _ => {},
    }
}

/// Law: two successful queries between the same pair of symbols, one each
/// way, are exact reciprocals — the product of the two rationals is one.
pub proof fn lemma_reciprocal_rates(
    f: FiatTable,
    c: CryptoTable,
    a: Seq<char>,
    b: Seq<char>,
    r1: Result<Rate, ResolveError>,
    r2: Result<Rate, ResolveError>,
)
    requires
        resolve_post(f, c, a, b, r1),
        resolve_post(f, c, b, a, r2),
        r1 is Ok,
        r2 is Ok,
    ensures
        r1->Ok_0.num * r2->Ok_0.num == r1->Ok_0.den * r2->Ok_0.den,
{
    match (pivot_spec(f, c, a), pivot_spec(f, c, b)) {
        (PivotOutcome::Value(p), PivotOutcome::Value(q)) => {
            lemma_resolve_reciprocal(p, q);
            lemma_rate_parts_nonneg(p, q);
            lemma_rate_parts_nonneg(q, p);
        },
        _ => {},
    }
}

proof fn lemma_mul3_nonneg(x: int, y: int, z: int)
    requires
        x >= 0,
        y >= 0,
        z >= 0,
    ensures
        x * y * z >= 0,
{
    assert(x * y * z >= 0) by (nonlinear_arith)
        requires
            x >= 0,
            y >= 0,
            z >= 0,
    ;
}

/// Neither side of the exact pair is ever negative.
pub proof fn lemma_rate_parts_nonneg(p: PivotParts, q: PivotParts)
    ensures
        rate_parts(p, q).0 >= 0,
        rate_parts(p, q).1 >= 0,
{
    let ne = (p.num_e + q.den_e) as int;
    let de = (p.den_e + q.num_e) as int;
    let mn = if ne <= de {
        ne
    } else {
        de
    };
    lemma_pow10_pos((ne - mn) as nat);
    lemma_pow10_pos((de - mn) as nat);
    lemma_mul3_nonneg(p.num_m as int, q.den_m as int, pow10((ne - mn) as nat));
    lemma_mul3_nonneg(p.den_m as int, q.num_m as int, pow10((de - mn) as nat));
}

/// Law: the cancelled pair denotes exactly the quotient of the two pivot
/// values — cancelling the shared power of ten loses nothing.
pub proof fn lemma_rate_parts_value(p: PivotParts, q: PivotParts)
    ensures
        rate_parts(p, q).0 * (p.den() * q.num()) == rate_parts(p, q).1 * (p.num() * q.den()),
{
    let a = (p.num_e + q.den_e) as int;
    let b = (p.den_e + q.num_e) as int;
    let mn = if a <= b {
        a
    } else {
        b
    };
    let pn = p.num_m as int;
    let pd = p.den_m as int;
    let qn = q.num_m as int;
    let qd = q.den_m as int;
    let pne = pow10(p.num_e as nat);
    let pde = pow10(p.den_e as nat);
    let qne = pow10(q.num_e as nat);
    let qde = pow10(q.den_e as nat);
    let ra = pow10((a - mn) as nat);
    let rb = pow10((b - mn) as nat);
    lemma_pow10_adds((p.num_e + q.den_e) as nat, ((b - mn) as nat));
    lemma_pow10_adds((p.den_e + q.num_e) as nat, ((a - mn) as nat));
    lemma_pow10_adds(p.num_e as nat, q.den_e as nat);
    lemma_pow10_adds(p.den_e as nat, q.num_e as nat);
    assert(pow10((a + (b - mn)) as nat) == pow10((b + (a - mn)) as nat));
    // The shared hypothesis: the two residual powers weigh the same against
    // the opposite side's full power of ten.
    assert(ra * (pde * qne) == rb * (pne * qde)) by (nonlinear_arith)
        requires
            pow10((a + (b - mn)) as nat) == pow10(a as nat) * rb,
            pow10((b + (a - mn)) as nat) == pow10(b as nat) * ra,
            pow10((a + (b - mn)) as nat) == pow10((b + (a - mn)) as nat),
            pow10(a as nat) == pne * qde,
            pow10(b as nat) == pde * qne,
    ;
    assert((pd * pde) * (qn * qne) == (pd * qn) * (pde * qne)) by (nonlinear_arith);
    assert((pn * pne) * (qd * qde) == (pn * qd) * (pne * qde)) by (nonlinear_arith);
    assert(((pn * qd) * ra) * ((pd * qn) * (pde * qne)) == ((pd * qn) * rb) * ((pn * qd) * (pne
        * qde))) by (nonlinear_arith)
        requires
            ra * (pde * qne) == rb * (pne * qde),
    ;
    assert(pn * qd * ra == (pn * qd) * ra) by (nonlinear_arith);
    assert(pd * qn * rb == (pd * qn) * rb) by (nonlinear_arith);
}

} // verus!
