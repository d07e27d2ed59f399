//! Cache bookkeeping: freshness of fetched data and the cached record.
//!
//! The fetched feeds are kept as three artifacts: the fiat blob, the crypto
//! blob, and a timestamp file holding the fetch time as decimal seconds.
//! This module decides when the artifacts are stale and must be refetched,
//! and encodes and decodes the timestamp artifact, so that a record written
//! out is read back unchanged.

use vstd::prelude::*;
use crate::decimal::pow10;

verus! {

/// Whether a byte is an ASCII digit.
pub open spec fn is_digit_byte(b: u8) -> bool {
    48 <= b <= 57
}

/// The numeric value of an ASCII digit byte.
pub open spec fn byte_digit_val(b: u8) -> int {
    b - 48
}

pub open spec fn all_digit_bytes(s: Seq<u8>) -> bool {
    forall|i: int| 0 <= i < s.len() ==> is_digit_byte(s[i])
}

/// The integer that a digit string denotes, most significant digit first.
pub open spec fn bytes_val(s: Seq<u8>) -> int
    decreases s.len(),
{
    if s.len() == 0 {
        0
    } else {
        10 * bytes_val(s.drop_last()) + byte_digit_val(s.last())
    }
}

/// The integer that a digit string denotes, least significant digit first.
pub open spec fn lsd_val(s: Seq<u8>) -> int
    decreases s.len(),
{
    if s.len() == 0 {
        0
    } else {
        byte_digit_val(s[0]) + 10 * lsd_val(s.drop_first())
    }
}

pub proof fn lemma_bytes_val_nonneg(s: Seq<u8>)
    requires
        all_digit_bytes(s),
    ensures
        bytes_val(s) >= 0,
    decreases s.len(),
{
    if s.len() > 0 {
        lemma_bytes_val_nonneg(s.drop_last());
    }
}

/// Appending digits can only grow the denoted value.
pub proof fn lemma_bytes_val_prefix_le(a: Seq<u8>, b: Seq<u8>)
    requires
        all_digit_bytes(a),
        all_digit_bytes(b),
    ensures
        bytes_val(a) <= bytes_val(a + b),
    decreases b.len(),
{
    if b.len() == 0 {
        assert(a + b =~= a);
    } else {
        lemma_bytes_val_prefix_le(a, b.drop_last());
        assert((a + b).drop_last() =~= a + b.drop_last());
        assert((a + b).last() == b.last());
        lemma_bytes_val_nonneg(a + b.drop_last());
        assert(all_digit_bytes(a + b.drop_last()));
    }
}

/// A digit appended at the low end weighs one more power of ten.
pub proof fn lemma_lsd_push(s: Seq<u8>, x: u8)
    ensures
        lsd_val(s.push(x)) == lsd_val(s) + byte_digit_val(x) * pow10(s.len()),
    decreases s.len(),
{
    if s.len() == 0 {
        assert(s.push(x).drop_first() =~= Seq::<u8>::empty());
        assert(s.push(x)[0] == x);
        assert(lsd_val(Seq::<u8>::empty()) == 0);
        assert(lsd_val(s.push(x)) == byte_digit_val(x));
        assert(pow10(s.len()) == 1);
    } else {
        let t = s.drop_first();
        assert(s.push(x).drop_first() =~= t.push(x));
        lemma_lsd_push(t, x);
        assert(s.push(x)[0] == s[0]);
        assert(lsd_val(s.push(x)) == byte_digit_val(s[0]) + 10 * lsd_val(t.push(x)));
        assert(pow10(s.len()) == 10 * pow10(t.len()));
        assert(10 * (byte_digit_val(x) * pow10(t.len())) == byte_digit_val(x) * (10 * pow10(
            t.len(),
        ))) by (nonlinear_arith);
    }
}

/// A canonical unsigned digit string: nonempty, digits only, no leading
/// zero except for `"0"` itself.
pub open spec fn canonical_digits(s: Seq<u8>) -> bool {
    all_digit_bytes(s) && s.len() >= 1 && (s.len() == 1 || s[0] != 48)
}

/// A canonical signed digit string denoting the integer `v`.
pub open spec fn canonical_i64_bytes(s: Seq<u8>, v: int) -> bool {
    if v < 0 {
        s.len() >= 2 && s[0] == 45 && canonical_digits(s.drop_first()) && bytes_val(
            s.drop_first(),
        ) == -v
    } else {
        canonical_digits(s) && bytes_val(s) == v
    }
}

/// The digits of a possibly signed decimal string.
pub open spec fn i64_digits(s: Seq<u8>) -> Seq<u8> {
    if s.len() > 0 && s[0] == 45 {
        s.drop_first()
    } else {
        s
    }
}

/// The sign a possibly signed decimal string carries.
pub open spec fn i64_sign(s: Seq<u8>) -> int {
    if s.len() > 0 && s[0] == 45 {
        -1
    } else {
        1
    }
}

/// The integer a possibly signed decimal string denotes.
pub open spec fn i64_value_of(s: Seq<u8>) -> int {
    i64_sign(s) * bytes_val(i64_digits(s))
}

/// The strings this library reads back as timestamps: an optional minus
/// sign, at least one digit, and a value within the 64-bit signed range.
pub open spec fn parses_as_i64(s: Seq<u8>) -> bool {
    i64_digits(s).len() >= 1 && all_digit_bytes(i64_digits(s)) && i64::MIN <= i64_value_of(s)
        <= i64::MAX
}

/// Reads a timestamp artifact back: an optional `-`, then decimal digits.
/// Succeeds exactly on well-shaped strings whose value fits an `i64`.
#[verifier::rlimit(50)]
pub fn parse_i64_bytes(b: &[u8]) -> (r: Option<i64>)
    ensures
        r is Some <==> parses_as_i64(b@),
        r matches Some(v) ==> v == i64_value_of(b@),
{
    let n: usize = b.len();
    let neg: bool = n > 0 && b[0] == 45;
    let start: usize = if neg {
        1
    } else {
        0
    };
    let ghost ds: Seq<u8> = i64_digits(b@);
    proof {
        assert(ds =~= b@.subrange(start as int, n as int));
    }
    if n == start {
        return None;
    }
    let mut mag: u64 = 0;
    let mut i: usize = start;
    while i < n
        invariant
            start <= i <= n,
            n == b@.len(),
            neg == (n > 0 && b@[0] == 45),
            start == (if neg {
                1int
            } else {
                0int
            }),
            ds == i64_digits(b@),
            ds == b@.subrange(start as int, n as int),
            all_digit_bytes(ds.subrange(0, i - start)),
            mag == bytes_val(ds.subrange(0, i - start)),
        decreases n - i,
    {
        let c: u8 = b[i];
        let ghost pre: Seq<u8> = ds.subrange(0, i - start);
        proof {
            assert(ds[i - start] == b@[i as int]);
            assert(ds.subrange(0, i + 1 - start) =~= pre.push(b@[i as int]));
            assert(ds.subrange(0, i + 1 - start).drop_last() =~= pre);
        }
        if c < 48 || c > 57 {
            proof {
                assert(!is_digit_byte(ds[i - start]));
            }
            return None;
        }
        let d: u64 = (c - 48) as u64;
        let step = match mag.checked_mul(10) {
            Some(t) => t.checked_add(d),
            None => None,
        };
        match step {
            Some(v) => {
                mag = v;
            },
            None => {
                proof {
                    if parses_as_i64(b@) {
                        let grown = ds.subrange(0, i + 1 - start);
                        assert(ds =~= grown + ds.subrange(grown.len() as int, ds.len() as int));
                        lemma_bytes_val_prefix_le(
                            grown,
                            ds.subrange(grown.len() as int, ds.len() as int),
                        );
                    }
                }
                return None;
            },
        }
        i = i + 1;
    }
    proof {
        assert(ds.subrange(0, n - start) =~= ds);
    }
    if neg {
        if mag > 0x8000000000000000 {
            return None;
        }
        if mag == 0x8000000000000000 {
            return Some(i64::MIN);
        }
        Some(-(mag as i64))
    } else {
        if mag > 0x7fffffffffffffff {
            return None;
        }
        Some(mag as i64)
    }
}

/// Writes an `i64` as its canonical decimal digit string.
pub fn i64_to_dec_bytes(n: i64) -> (r: Vec<u8>)
    ensures
        canonical_i64_bytes(r@, n as int),
{
    let neg: bool = n < 0;
    let mag: u64 = if n < 0 {
        (-(n as i128)) as u64
    } else {
        n as u64
    };

    // Least significant digit first.
    let mut rd: Vec<u8> = Vec::new();
    let mut m: u64 = mag;
    if m == 0 {
        rd.push(48);
        proof {
            assert(rd@.drop_first() =~= Seq::<u8>::empty());
        }
    } else {
        while m > 0
            invariant
                all_digit_bytes(rd@),
                lsd_val(rd@) + m * pow10(rd@.len()) == mag,
                m == 0 ==> rd@.len() >= 1 && (rd@.last() != 48),
            decreases m,
        {
            let ghost pre: Seq<u8> = rd@;
            let ghost mm: int = m as int;
            let d: u8 = (m % 10) as u8 + 48;
            let q: u64 = m / 10;
            rd.push(d);
            m = q;
            proof {
                lemma_lsd_push(pre, d);
                let p: int = pow10(pre.len());
                assert(byte_digit_val(d) == mm % 10);
                assert(pow10(rd@.len()) == 10 * p);
                assert(lsd_val(rd@) == lsd_val(pre) + (mm % 10) * p);
                assert(mm == 10 * (mm / 10) + mm % 10);
                assert((mm % 10) * p + (mm / 10) * (10 * p) == mm * p) by (nonlinear_arith)
                    requires
                        mm == 10 * (mm / 10) + mm % 10,
                ;
            }
        }
    }

    // Most significant digit first, after the sign.
    let mut out: Vec<u8> = Vec::new();
    if neg {
        out.push(45);
    }
    let ghost sign_len: int = if neg {
        1int
    } else {
        0int
    };
    let mut j: usize = rd.len();
    while j > 0
        invariant
            j <= rd@.len(),
            sign_len == (if neg {
                1int
            } else {
                0int
            }),
            out@.len() == sign_len + (rd@.len() - j),
            neg ==> out@.len() >= 1 && out@[0] == 45,
            all_digit_bytes(rd@),
            all_digit_bytes(out@.subrange(sign_len, out@.len() as int)),
            bytes_val(out@.subrange(sign_len, out@.len() as int)) == lsd_val(rd@.skip(j as int)),
            lsd_val(rd@) == mag,
            rd@.len() >= 1,
            rd@.last() != 48 || rd@.len() == 1,
            j < rd@.len() ==> out@[sign_len] == rd@.last(),
        decreases j,
    {
        let ghost digits_pre: Seq<u8> = out@.subrange(sign_len, out@.len() as int);
        j = j - 1;
        let d: u8 = rd[j];
        proof {
            assert(rd@.skip(j as int)[0] == rd@[j as int]);
            assert(rd@.skip(j as int).drop_first() =~= rd@.skip(j + 1));
        }
        out.push(d);
        proof {
            assert(out@.subrange(sign_len, out@.len() as int) =~= digits_pre.push(d));
            assert(digits_pre.push(d).drop_last() =~= digits_pre);
        }
    }
    proof {
        assert(rd@.skip(0) =~= rd@);
        if !neg {
            assert(out@.subrange(0, out@.len() as int) =~= out@);
        } else {
            assert(out@.subrange(1, out@.len() as int) =~= out@.drop_first());
        }
    }
    out
}

/// Whether cached data fetched at `fetched_at` is stale at `now`: the
/// staleness window is inclusive at its boundary.
pub open spec fn stale_spec(fetched_at: int, now: int, max_age: int) -> bool {
    now - fetched_at >= max_age
}

/// Decides staleness in whole seconds of wall-clock time.
pub fn is_stale(fetched_at: i64, now: i64, max_age: i64) -> (r: bool)
    ensures
        r == stale_spec(fetched_at as int, now as int, max_age as int),
{
    (now as i128) - (fetched_at as i128) >= (max_age as i128)
}

/// Law: the freshness boundary is inclusive — data fetched exactly
/// `max_age` ago is stale and must be refetched, while data one second
/// younger than that is still fresh.
pub proof fn lemma_freshness_boundary(now: int, max_age: int)
    ensures
        stale_spec(now - max_age, now, max_age),
        !stale_spec(now - max_age + 1, now, max_age),
{
}

/// What the store should do on one invocation.
#[derive(Clone, Copy, Debug, PartialEq, Eq, Structural)]
pub enum RefreshDecision {
    /// Fetch both feeds anew and overwrite all three artifacts.
    Refresh,
    /// Read the two cached blobs and use them unchanged.
    UseCache,
}

/// Why the cached state could not be used.
#[derive(Clone, Copy, Debug, PartialEq, Eq, Structural)]
pub enum CacheError {
    /// The timestamp artifact exists but does not hold a decimal integer.
    CorruptTimestamp,
}

/// What [`plan_refresh`] decides for every cache state: no timestamp means
/// a first run, an unreadable timestamp is fatal, and otherwise the cache
/// is used exactly when it is fresh and no refresh is forced.
pub open spec fn plan_spec(stamp: Option<Seq<u8>>, force: bool, now: int, max_age: int) -> Result<
    RefreshDecision,
    CacheError,
> {
    match stamp {
        None => Ok(RefreshDecision::Refresh),
        Some(s) => {
            if !parses_as_i64(s) {
                Err(CacheError::CorruptTimestamp)
            } else if force || stale_spec(i64_value_of(s), now, max_age) {
                Ok(RefreshDecision::Refresh)
            } else {
                Ok(RefreshDecision::UseCache)
            }
        },
    }
}

/// Decides whether to refresh from the raw timestamp artifact, if present.
pub fn plan_refresh(stamp: Option<&[u8]>, force: bool, now: i64, max_age: i64) -> (r: Result<
    RefreshDecision,
    CacheError,
>)
    ensures
        r == plan_spec(
            match stamp {
                Some(s) => Some(s@),
                None => None,
            },
            force,
            now as int,
            max_age as int,
        ),
{
    match stamp {
        None => Ok(RefreshDecision::Refresh),
        Some(s) => {
            match parse_i64_bytes(s) {
                None => Err(CacheError::CorruptTimestamp),
                Some(fetched_at) => {
                    if force || is_stale(fetched_at, now, max_age) {
                        Ok(RefreshDecision::Refresh)
                    } else {
                        Ok(RefreshDecision::UseCache)
                    }
                },
            }
        },
    }
}

/// One consistent cache state: both blobs from the same refresh pass, and
/// the second at which that pass ran.
#[derive(Clone, Debug)]
pub struct CacheRecord {
    pub fiat_raw: String,
    pub crypto_raw: String,
    pub fetched_at: i64,
}

impl CacheRecord {
    /// Serializes the record into its three artifacts: the two blobs
    /// verbatim and the canonical digits of the fetch time.
    pub fn to_artifacts(&self) -> (r: (String, String, Vec<u8>))
        ensures
            r.0@ == self.fiat_raw@,
            r.1@ == self.crypto_raw@,
            canonical_i64_bytes(r.2@, self.fetched_at as int),
    {
        (self.fiat_raw.clone(), self.crypto_raw.clone(), i64_to_dec_bytes(self.fetched_at))
    }

    /// Rebuilds a record from the three artifacts; fails exactly when the
    /// timestamp artifact is not a well-shaped decimal integer.
    pub fn from_artifacts(fiat_raw: String, crypto_raw: String, stamp: &[u8]) -> (r: Option<
        CacheRecord,
    >)
        ensures
            r is Some <==> parses_as_i64(stamp@),
            r matches Some(rec) ==> rec.fiat_raw == fiat_raw && rec.crypto_raw == crypto_raw
                && rec.fetched_at == i64_value_of(stamp@),
    {
        match parse_i64_bytes(stamp) {
            None => None,
            Some(fetched_at) => Some(CacheRecord { fiat_raw, crypto_raw, fetched_at }),
        }
    }
}

/// Law: a timestamp written canonically is read back as the same value, so
/// a cache record round-trips through its three artifacts unchanged.
pub proof fn lemma_timestamp_round_trip(s: Seq<u8>, v: int)
    requires
        canonical_i64_bytes(s, v),
        i64::MIN <= v <= i64::MAX,
    ensures
        parses_as_i64(s),
        i64_value_of(s) == v,
{
    if v < 0 {
        assert(i64_digits(s) == s.drop_first());
    } else {
        assert(is_digit_byte(s[0]));
        assert(i64_digits(s) == s);
    }
}

} // verus!
