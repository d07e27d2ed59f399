//! The two lookup tables a rate query runs against.
//!
//! A [`FiatTable`] holds one entry per government currency: the price of one
//! unit of the feed's base currency expressed in that currency, plus the
//! value of the base currency itself in the fixed pivot unit.  A
//! [`CryptoTable`] holds one entry per coin: its ticker symbol and its price
//! in pivot units, still as the feed's formatted string.

use vstd::prelude::*;
use crate::decimal::Decimal;

verus! {

/// One fiat currency: its three-letter code and the price of one base-unit
/// expressed in this currency.
#[derive(Clone, Debug)]
pub struct FiatEntry {
    pub code: String,
    pub rate: Decimal,
}

/// The fiat side of the data: rates relative to a base currency, and the
/// base currency's own value in pivot units.
#[derive(Clone, Debug)]
pub struct FiatTable {
    /// The feed's base currency code, for example `"EUR"` or `"USD"`.
    pub base: String,
    /// The value of one base-unit in pivot units.
    pub base_pivot: Decimal,
    pub entries: Vec<FiatEntry>,
}

/// One cryptocurrency: its ticker symbol and its price in pivot units, as
/// the formatted string the feed carried.
#[derive(Clone, Debug)]
pub struct CryptoEntry {
    pub symbol: String,
    pub price: String,
}

/// The cryptocurrency side of the data, in feed order.
#[derive(Clone, Debug)]
pub struct CryptoTable {
    pub coins: Vec<CryptoEntry>,
}

/// The rate of the first entry whose code equals `code`, if any.
pub open spec fn fiat_lookup(entries: Seq<FiatEntry>, code: Seq<char>) -> Option<Decimal>
    decreases entries.len(),
{
    if entries.len() == 0 {
        None
    } else if entries[0].code@ == code {
        Some(entries[0].rate)
    } else {
        fiat_lookup(entries.drop_first(), code)
    }
}

/// The price string of the first coin whose symbol equals `sym`, if any.
pub open spec fn crypto_lookup(coins: Seq<CryptoEntry>, sym: Seq<char>) -> Option<Seq<char>>
    decreases coins.len(),
{
    if coins.len() == 0 {
        None
    } else if coins[0].symbol@ == sym {
        Some(coins[0].price@)
    } else {
        crypto_lookup(coins.drop_first(), sym)
    }
}

/// A rate found in a table of positive, well-formed rates is itself one.
pub proof fn lemma_fiat_lookup_wf(entries: Seq<FiatEntry>, code: Seq<char>)
    requires
        forall|i: int|
            0 <= i < entries.len() ==> (#[trigger] entries[i]).rate.wf() && entries[i].rate.m > 0,
        fiat_lookup(entries, code) is Some,
    ensures
        fiat_lookup(entries, code)->0.wf(),
        fiat_lookup(entries, code)->0.m > 0,
    decreases entries.len(),
{
    if entries.len() > 0 && !(entries[0].code@ == code) {
        assert forall|i: int| 0 <= i < entries.drop_first().len() implies (#[trigger] entries
            .drop_first()[i]).rate.wf() && entries.drop_first()[i].rate.m > 0 by {
            assert(entries.drop_first()[i] == entries[i + 1]);
        }
        lemma_fiat_lookup_wf(entries.drop_first(), code);
    }
}

impl FiatTable {
    /// Every rate is a positive decimal with a machine-sized scale, so that
    /// each inverted rate is a well-defined rational.
    pub open spec fn wf(self) -> bool {
        &&& self.base_pivot.wf()
        &&& self.base_pivot.m > 0
        &&& forall|i: int|
            0 <= i < self.entries@.len() ==> (#[trigger] self.entries@[i]).rate.wf()
                && self.entries@[i].rate.m > 0
    }

    /// Builds a table after checking that every rate is positive and holds a
    /// representable scale.
    pub fn new(base: String, base_pivot: Decimal, entries: Vec<FiatEntry>) -> (r: Option<
        FiatTable,
    >)
        ensures
            r is Some <==> {
                &&& base_pivot.wf()
                &&& base_pivot.m > 0
                &&& forall|i: int|
                    0 <= i < entries@.len() ==> (#[trigger] entries@[i]).rate.wf()
                        && entries@[i].rate.m > 0
            },
            r matches Some(t) ==> t.base == base && t.base_pivot == base_pivot && t.entries
                == entries && t.wf(),
    {
        if !(base_pivot.k <= 19 && base_pivot.m > 0) {
            return None;
        }
        let n: usize = entries.len();
        let mut i: usize = 0;
        while i < n
            invariant
                i <= n,
                n == entries@.len(),
                forall|j: int|
                    0 <= j < i ==> (#[trigger] entries@[j]).rate.wf() && entries@[j].rate.m > 0,
            decreases n - i,
        {
            let e = &entries[i];
            if !(e.rate.k <= 19 && e.rate.m > 0) {
                return None;
            }
            i = i + 1;
        }
        Some(FiatTable { base, base_pivot, entries })
    }

    /// Finds the first entry for `code` and hands its rate out.
    pub fn lookup(&self, code: &String) -> (r: Option<Decimal>)
        ensures
            r == fiat_lookup(self.entries@, code@),
    {
        let n: usize = self.entries.len();
        let mut i: usize = 0;
        proof {
            assert(self.entries@.skip(0) =~= self.entries@);
        }
        while i < n
            invariant
                i <= n,
                n == self.entries@.len(),
                fiat_lookup(self.entries@, code@) == fiat_lookup(
                    self.entries@.skip(i as int),
                    code@,
                ),
            decreases n - i,
        {
            let e = &self.entries[i];
            proof {
                assert(self.entries@.skip(i as int)[0] == self.entries@[i as int]);
                assert(self.entries@.skip(i as int).drop_first() =~= self.entries@.skip(i + 1));
            }
            if e.code == *code {
                return Some(e.rate);
            }
            i = i + 1;
        }
        None
    }
}

impl CryptoTable {
    /// Finds the first coin for `sym` and hands its price string out.
    pub fn lookup_price(&self, sym: &String) -> (r: Option<&String>)
        ensures
            (r is Some) == (crypto_lookup(self.coins@, sym@) is Some),
            r matches Some(p) ==> crypto_lookup(self.coins@, sym@) == Some(p@),
    {
        let n: usize = self.coins.len();
        let mut i: usize = 0;
        proof {
            assert(self.coins@.skip(0) =~= self.coins@);
        }
        while i < n
            invariant
                i <= n,
                n == self.coins@.len(),
                crypto_lookup(self.coins@, sym@) == crypto_lookup(
                    self.coins@.skip(i as int),
                    sym@,
                ),
            decreases n - i,
        {
            let e = &self.coins[i];
            proof {
                assert(self.coins@.skip(i as int)[0] == self.coins@[i as int]);
                assert(self.coins@.skip(i as int).drop_first() =~= self.coins@.skip(i + 1));
            }
            if e.symbol == *sym {
                return Some(&e.price);
            }
            i = i + 1;
        }
        None
    }
}

} // verus!
