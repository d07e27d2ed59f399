//! From raw feed payloads to the library's tables.
//!
//! The fiat feed arrives either as ECB-style XML converted to JSON (rates
//! relative to EUR, with the EUR to USD cross embedded in the same table) or
//! as a flat JSON object of rates relative to a declared base.  The crypto
//! feed is JSON with a `data.coins` array of symbol and price strings.  Each
//! payload's rows are extracted by one trusted wrapper over `serde_json`,
//! whose result is named as a function of the text alone; every decision
//! about the extracted rows — which rates are usable, which row names the
//! pivot, when the payload is malformed — is verified against those names.

use vstd::prelude::*;
use vstd::string::*;
use crate::decimal::{Decimal, parse_decimal, decimal_fits, mantissa_of, scale_of};
use crate::tables::{FiatEntry, FiatTable, CryptoEntry, CryptoTable};
use crate::resolver::ResolveError;

verus! {

/// The (currency, rate text) rows under `Envelope.Cube.Cube.Cube` of an
/// ECB-style JSON document, or nothing when the document does not parse or
/// lacks that shape; a function of the text alone.
pub uninterp spec fn ecb_rows_of(s: Seq<char>) -> Option<Seq<(Seq<char>, Seq<char>)>>;

/// The (code, rate text) pairs of the `rates` object of a flat JSON
/// document, in sorted key order, or nothing when the document does not
/// parse or lacks that shape; a function of the text alone.
pub uninterp spec fn flat_rows_of(s: Seq<char>) -> Option<Seq<(Seq<char>, Seq<char>)>>;

/// The (symbol, price) rows under `data.coins` of a crypto JSON document,
/// or nothing when the document does not parse or lacks that shape; a
/// function of the text alone.
pub uninterp spec fn coin_rows_of(s: Seq<char>) -> Option<Seq<(Seq<char>, Seq<char>)>>;

/// The JSON text that the XML feed converts to, or nothing when the text is
/// not a well-formed XML document; a function of the text alone.
pub uninterp spec fn xml_json_of(x: Seq<char>) -> Option<Seq<char>>;

/// The extracted pairs carry exactly the named rows, entry by entry.
pub open spec fn rows_correspond(
    v: Seq<(String, String)>,
    rows: Seq<(Seq<char>, Seq<char>)>,
) -> bool {
    v.len() == rows.len() && forall|i: int|
        0 <= i < v.len() ==> (#[trigger] v[i]).0@ == rows[i].0 && v[i].1@ == rows[i].1
}

/// Relies on serde_json::from_str, Value::get, Value::as_array,
/// Value::as_str and Value's Display: walks `Envelope.Cube.Cube.Cube` and
/// hands each row's `@currency` string and `@rate` text out.
#[verifier::external_body]
fn ecb_rows(raw: &str) -> (r: Option<Vec<(String, String)>>)
    ensures
        (r is Some) == (ecb_rows_of(raw@) is Some),
        r matches Some(v) ==> rows_correspond(v@, ecb_rows_of(raw@)->0),
{
    let doc: serde_json::Value = serde_json::from_str(raw).ok()?;
    let arr = doc.get("Envelope")?.get("Cube")?.get("Cube")?.get("Cube")?.as_array()?;
    let mut out: Vec<(String, String)> = Vec::new();
    for item in arr {
        let code = item.get("@currency")?.as_str()?.to_owned();
        let rate = item.get("@rate")?.to_string();
        out.push((code, rate));
    }
    Some(out)
}

/// Relies on serde_json::from_str, Value::get, Value::as_object, Map
/// iteration and Value's Display: hands each key of the `rates` object out
/// with its value's text, in the map's sorted key order.
#[verifier::external_body]
fn flat_rows(raw: &str) -> (r: Option<Vec<(String, String)>>)
    ensures
        (r is Some) == (flat_rows_of(raw@) is Some),
        r matches Some(v) ==> rows_correspond(v@, flat_rows_of(raw@)->0),
{
    let doc: serde_json::Value = serde_json::from_str(raw).ok()?;
    let obj = doc.get("rates")?.as_object()?;
    let mut out: Vec<(String, String)> = Vec::new();
    for (k, v) in obj {
        out.push((k.clone(), v.to_string()));
    }
    Some(out)
}

/// Relies on serde_json::from_str, Value::get, Value::as_array and
/// Value::as_str: walks `data.coins` and hands each coin's `symbol` and
/// `price` strings out.
#[verifier::external_body]
fn coin_rows(raw: &str) -> (r: Option<Vec<(String, String)>>)
    ensures
        (r is Some) == (coin_rows_of(raw@) is Some),
        r matches Some(v) ==> rows_correspond(v@, coin_rows_of(raw@)->0),
{
    let doc: serde_json::Value = serde_json::from_str(raw).ok()?;
    let arr = doc.get("data")?.get("coins")?.as_array()?;
    let mut out: Vec<(String, String)> = Vec::new();
    for item in arr {
        let symbol = item.get("symbol")?.as_str()?.to_owned();
        let price = item.get("price")?.as_str()?.to_owned();
        out.push((symbol, price));
    }
    Some(out)
}

/// Relies on quickxml_to_serde::xml_string_to_json with its default
/// configuration and on serde_json::Value's Display: the JSON text of an
/// XML document.
#[verifier::external_body]
fn xml_to_json_text(xml: String) -> (r: Option<String>)
    ensures
        (r is Some) == (xml_json_of(xml@) is Some),
        r matches Some(s) ==> Some(s@) == xml_json_of(xml@),
{
    match quickxml_to_serde::xml_string_to_json(
        xml,
        &quickxml_to_serde::Config::new_with_defaults(),
    ) {
        Ok(v) => Some(v.to_string()),
        Err(_) => None,
    }
}

/// Turns the fiat feed's XML document into exactly the JSON text the cache
/// stores, or nothing when the document does not parse as XML.
pub fn convert_fiat_xml(xml: String) -> (r: Option<String>)
    ensures
        (r is Some) == (xml_json_of(xml@) is Some),
        r matches Some(s) ==> Some(s@) == xml_json_of(xml@),
{
    xml_to_json_text(xml)
}

/// A rate text a table can hold: a positive decimal the machine represents.
pub open spec fn usable_rate_text(t: Seq<char>) -> bool {
    decimal_fits(t) && mantissa_of(t) > 0
}

/// Every row's rate text is usable.
pub open spec fn rows_usable(rows: Seq<(Seq<char>, Seq<char>)>) -> bool {
    forall|i: int| 0 <= i < rows.len() ==> usable_rate_text((#[trigger] rows[i]).1)
}

/// The rate text of the first row whose code equals `code`, if any.
pub open spec fn first_rate_text(
    rows: Seq<(Seq<char>, Seq<char>)>,
    code: Seq<char>,
) -> Option<Seq<char>>
    decreases rows.len(),
{
    if rows.len() == 0 {
        None
    } else if rows[0].0 == code {
        Some(rows[0].1)
    } else {
        first_rate_text(rows.drop_first(), code)
    }
}

proof fn lemma_first_rate_text_push(
    rows: Seq<(Seq<char>, Seq<char>)>,
    x: (Seq<char>, Seq<char>),
    code: Seq<char>,
)
    ensures
        first_rate_text(rows.push(x), code) == (if first_rate_text(rows, code) is Some {
            first_rate_text(rows, code)
        } else if x.0 == code {
            Some(x.1)
        } else {
            None
        }),
    decreases rows.len(),
{
    assert(rows.push(x).len() == rows.len() + 1);
    if rows.len() == 0 {
        assert(rows.push(x)[0] == x);
        assert(rows.push(x).drop_first() =~= Seq::<(Seq<char>, Seq<char>)>::empty());
        assert(first_rate_text(Seq::<(Seq<char>, Seq<char>)>::empty(), code) is None);
    } else {
        assert(rows.push(x)[0] == rows[0]);
        assert(rows.push(x).drop_first() =~= rows.drop_first().push(x));
        lemma_first_rate_text_push(rows.drop_first(), x, code);
    }
}

/// The first matching row of an all-usable table carries a usable rate.
proof fn lemma_first_rate_usable(rows: Seq<(Seq<char>, Seq<char>)>, code: Seq<char>)
    requires
        rows_usable(rows),
        first_rate_text(rows, code) is Some,
    ensures
        usable_rate_text(first_rate_text(rows, code)->0),
    decreases rows.len(),
{
    if rows.len() > 0 && !(rows[0].0 == code) {
        assert forall|i: int| 0 <= i < rows.drop_first().len() implies usable_rate_text(
            (#[trigger] rows.drop_first()[i]).1,
        ) by {
            assert(rows.drop_first()[i] == rows[i + 1]);
        }
        lemma_first_rate_usable(rows.drop_first(), code);
    }
}

/// The table's entries carry exactly the named rows: the row's code, and
/// its rate text's mantissa and scale, entry by entry.
pub open spec fn entries_match_rows(
    entries: Seq<FiatEntry>,
    rows: Seq<(Seq<char>, Seq<char>)>,
) -> bool {
    entries.len() == rows.len() && forall|i: int|
        0 <= i < rows.len() ==> (#[trigger] entries[i]).code@ == rows[i].0 && entries[i].rate.m
            == mantissa_of(rows[i].1) && entries[i].rate.k == scale_of(rows[i].1)
}

/// Builds the fiat table from the ECB-style JSON payload: entries sit under
/// `Envelope.Cube.Cube.Cube`, each with an `@currency` code and an `@rate`
/// relative to EUR, and the first USD row's rate is the base's pivot value.
/// Succeeds exactly when the rows exist, every rate text is a positive
/// representable decimal, and a USD row is present; anything else is a
/// malformed payload.
pub fn fiat_table_from_ecb_json(raw: &str) -> (r: Result<FiatTable, ResolveError>)
    ensures
        r is Ok <==> (ecb_rows_of(raw@) matches Some(rows) && rows_usable(rows)
            && first_rate_text(rows, "USD"@) is Some),
        r is Err ==> r == Err::<FiatTable, ResolveError>(ResolveError::MalformedPayload),
        r matches Ok(t) ==> {
            let rows = ecb_rows_of(raw@)->0;
            &&& t.wf()
            &&& t.base@ == "EUR"@
            &&& entries_match_rows(t.entries@, rows)
            &&& t.base_pivot.m == mantissa_of(first_rate_text(rows, "USD"@)->0)
            &&& t.base_pivot.k == scale_of(first_rate_text(rows, "USD"@)->0)
        },
{
    let pairs = match ecb_rows(raw) {
        Some(p) => p,
        None => {
            return Err(ResolveError::MalformedPayload);
        },
    };
    let ghost rows: Seq<(Seq<char>, Seq<char>)> = ecb_rows_of(raw@)->0;

    let usd_code = String::from_str("USD");
    let mut entries: Vec<FiatEntry> = Vec::new();
    let mut usd_rate: Option<Decimal> = None;
    let n: usize = pairs.len();
    let mut i: usize = 0;
    proof {
        assert(rows.take(0) =~= Seq::<(Seq<char>, Seq<char>)>::empty());
    }
    while i < n
        invariant
            i <= n,
            n == pairs@.len(),
            rows == ecb_rows_of(raw@)->0,
            rows_correspond(pairs@, rows),
            usd_code@ == "USD"@,
            entries_match_rows(entries@, rows.take(i as int)),
            forall|j: int| 0 <= j < i ==> usable_rate_text((#[trigger] rows[j]).1),
            match usd_rate {
                Some(d) => first_rate_text(rows.take(i as int), "USD"@) matches Some(tx) && d.m
                    == mantissa_of(tx) && d.k == scale_of(tx),
                None => first_rate_text(rows.take(i as int), "USD"@) is None,
            },
        decreases n - i,
    {
        let pair = &pairs[i];
        let rate = match parse_decimal(pair.1.as_str()) {
            Some(d) => d,
            None => {
                proof {
                    assert(!usable_rate_text(rows[i as int].1));
                }
                return Err(ResolveError::MalformedPayload);
            },
        };
        if rate.m == 0 {
            proof {
                assert(!usable_rate_text(rows[i as int].1));
            }
            return Err(ResolveError::MalformedPayload);
        }
        proof {
            assert(rows.take(i + 1) =~= rows.take(i as int).push(rows[i as int]));
            lemma_first_rate_text_push(rows.take(i as int), rows[i as int], "USD"@);
        }
        if usd_rate.is_none() && pair.0 == usd_code {
            usd_rate = Some(rate);
        }
        entries.push(FiatEntry { code: pair.0.clone(), rate });
        i = i + 1;
    }
    proof {
        assert(rows.take(n as int) =~= rows);
    }

    let bp = match usd_rate {
        Some(d) => d,
        None => {
            return Err(ResolveError::MalformedPayload);
        },
    };
    proof {
        lemma_first_rate_usable(rows, "USD"@);
    }
    Ok(FiatTable { base: String::from_str("EUR"), base_pivot: bp, entries })
}

/// Builds the fiat table from a flat JSON payload `{"rates": {CODE: rate}}`
/// whose rates are relative to the given base currency; the base itself is
/// the pivot, worth exactly one pivot unit.  Succeeds exactly when the
/// `rates` object exists and every rate text is a positive representable
/// decimal; anything else is a malformed payload.
pub fn fiat_table_from_flat_json(raw: &str, base: String) -> (r: Result<FiatTable, ResolveError>)
    ensures
        r is Ok <==> (flat_rows_of(raw@) matches Some(rows) && rows_usable(rows)),
        r is Err ==> r == Err::<FiatTable, ResolveError>(ResolveError::MalformedPayload),
        r matches Ok(t) ==> {
            let rows = flat_rows_of(raw@)->0;
            &&& t.wf()
            &&& t.base == base
            &&& t.base_pivot == (Decimal { m: 1, k: 0 })
            &&& entries_match_rows(t.entries@, rows)
        },
{
    let pairs = match flat_rows(raw) {
        Some(p) => p,
        None => {
            return Err(ResolveError::MalformedPayload);
        },
    };
    let ghost rows: Seq<(Seq<char>, Seq<char>)> = flat_rows_of(raw@)->0;

    let mut entries: Vec<FiatEntry> = Vec::new();
    let n: usize = pairs.len();
    let mut i: usize = 0;
    proof {
        assert(rows.take(0) =~= Seq::<(Seq<char>, Seq<char>)>::empty());
    }
    while i < n
        invariant
            i <= n,
            n == pairs@.len(),
            rows == flat_rows_of(raw@)->0,
            rows_correspond(pairs@, rows),
            entries_match_rows(entries@, rows.take(i as int)),
            forall|j: int| 0 <= j < i ==> usable_rate_text((#[trigger] rows[j]).1),
        decreases n - i,
    {
        let pair = &pairs[i];
        let rate = match parse_decimal(pair.1.as_str()) {
            Some(d) => d,
            None => {
                proof {
                    assert(!usable_rate_text(rows[i as int].1));
                }
                return Err(ResolveError::MalformedPayload);
            },
        };
        if rate.m == 0 {
            proof {
                assert(!usable_rate_text(rows[i as int].1));
            }
            return Err(ResolveError::MalformedPayload);
        }
        proof {
            assert(rows.take(i + 1) =~= rows.take(i as int).push(rows[i as int]));
        }
        entries.push(FiatEntry { code: pair.0.clone(), rate });
        i = i + 1;
    }
    proof {
        assert(rows.take(n as int) =~= rows);
    }
    Ok(FiatTable { base, base_pivot: Decimal { m: 1, k: 0 }, entries })
}

/// The crypto table's coins carry exactly the named rows, entry by entry.
pub open spec fn coins_match_rows(
    coins: Seq<CryptoEntry>,
    rows: Seq<(Seq<char>, Seq<char>)>,
) -> bool {
    coins.len() == rows.len() && forall|i: int|
        0 <= i < rows.len() ==> (#[trigger] coins[i]).symbol@ == rows[i].0 && coins[i].price@
            == rows[i].1
}

/// Builds the crypto table from the JSON payload: coins sit under
/// `data.coins`, each with a `symbol` string and a `price` string, kept in
/// feed order.  Succeeds exactly when those rows exist; the price strings
/// stay as they are and are only read when a query lands on them, as
/// [`crate::resolver::resolve`] specifies.
pub fn crypto_table_from_json(raw: &str) -> (r: Result<CryptoTable, ResolveError>)
    ensures
        r is Ok <==> coin_rows_of(raw@) is Some,
        r is Err ==> r == Err::<CryptoTable, ResolveError>(ResolveError::MalformedPayload),
        r matches Ok(t) ==> coins_match_rows(t.coins@, coin_rows_of(raw@)->0),
{
    let pairs = match coin_rows(raw) {
        Some(p) => p,
        None => {
            return Err(ResolveError::MalformedPayload);
        },
    };
    let ghost rows: Seq<(Seq<char>, Seq<char>)> = coin_rows_of(raw@)->0;

    let mut coins: Vec<CryptoEntry> = Vec::new();
    let n: usize = pairs.len();
    let mut i: usize = 0;
    while i < n
        invariant
            i <= n,
            n == pairs@.len(),
            rows == coin_rows_of(raw@)->0,
            rows_correspond(pairs@, rows),
            coins_match_rows(coins@, rows.take(i as int)),
        decreases n - i,
    {
        let pair = &pairs[i];
        proof {
            assert(rows.take(i + 1) =~= rows.take(i as int).push(rows[i as int]));
        }
        coins.push(CryptoEntry { symbol: pair.0.clone(), price: pair.1.clone() });
        i = i + 1;
    }
    proof {
        assert(rows.take(n as int) =~= rows);
    }
    Ok(CryptoTable { coins })
}

} // verus!
