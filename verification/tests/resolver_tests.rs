use rates::decimal::Decimal;
use rates::resolver::{resolve, ResolveError};
use rates::tables::{CryptoEntry, CryptoTable, FiatEntry, FiatTable};

fn usd_table() -> FiatTable {
    // Rates relative to a USD base that is itself the pivot.
    FiatTable::new(
        "USD".to_string(),
        Decimal { m: 1, k: 0 },
        vec![
            FiatEntry { code: "EUR".to_string(), rate: Decimal { m: 9, k: 1 } },
            FiatEntry { code: "GBP".to_string(), rate: Decimal { m: 8, k: 1 } },
        ],
    )
    .unwrap()
}

fn btc_table() -> CryptoTable {
    CryptoTable {
        coins: vec![CryptoEntry { symbol: "BTC".to_string(), price: "$50000.00".to_string() }],
    }
}

#[test]
fn end_to_end_example() {
    let fiat = usd_table();
    let crypto = btc_table();

    // EUR -> USD is 1 / 0.9.
    let r = resolve(&"EUR".to_string(), &"USD".to_string(), &fiat, &crypto).unwrap();
    assert_eq!((r.num, r.den), (10, 9));
    let v = r.num as f64 / r.den as f64;
    assert!((v - 1.1111).abs() < 0.0001);

    // BTC -> EUR is 50000 / (1 / 0.9) = 45000.
    let r = resolve(&"BTC".to_string(), &"EUR".to_string(), &fiat, &crypto).unwrap();
    assert_eq!(r.num % r.den, 0);
    assert_eq!(r.num / r.den, 45000);
    assert_eq!(r.num as f64 / r.den as f64, 45000.0);
}

#[test]
fn identity_is_exactly_one() {
    let fiat = usd_table();
    let crypto = btc_table();
    for sym in ["USD", "EUR", "GBP", "BTC"] {
        let r = resolve(&sym.to_string(), &sym.to_string(), &fiat, &crypto).unwrap();
        assert!(r.is_unit());
        assert_eq!(r.num as f64 / r.den as f64, 1.0);
    }
}

#[test]
fn inversion_round_trip() {
    let fiat = usd_table();
    let crypto = btc_table();
    // The rate each way multiplies with the rate back to exactly one.
    for (a, b) in [("EUR", "USD"), ("USD", "GBP"), ("EUR", "GBP"), ("BTC", "EUR")] {
        let fwd = resolve(&a.to_string(), &b.to_string(), &fiat, &crypto).unwrap();
        let back = resolve(&b.to_string(), &a.to_string(), &fiat, &crypto).unwrap();
        assert_eq!(fwd.num * back.num, fwd.den * back.den);
    }
}

#[test]
fn unknown_symbol_fails_cleanly() {
    let fiat = usd_table();
    let crypto = btc_table();
    let r = resolve(&"ZZZ".to_string(), &"USD".to_string(), &fiat, &crypto);
    assert_eq!(r, Err(ResolveError::UnknownSymbol("ZZZ".to_string())));
    // The source symbol is checked first, then the target.
    let r = resolve(&"EUR".to_string(), &"ZZZ".to_string(), &fiat, &crypto);
    assert_eq!(r, Err(ResolveError::UnknownSymbol("ZZZ".to_string())));
}

#[test]
fn first_crypto_match_wins() {
    let fiat = usd_table();
    let crypto = CryptoTable {
        coins: vec![
            CryptoEntry { symbol: "DOG".to_string(), price: "$2.00".to_string() },
            CryptoEntry { symbol: "DOG".to_string(), price: "$3.00".to_string() },
        ],
    };
    let r = resolve(&"DOG".to_string(), &"USD".to_string(), &fiat, &crypto).unwrap();
    assert_eq!(r.num / r.den, 2);
}

#[test]
fn malformed_price_fails() {
    let fiat = usd_table();
    let broken = CryptoTable {
        coins: vec![CryptoEntry { symbol: "BTC".to_string(), price: "fifty".to_string() }],
    };
    let r = resolve(&"BTC".to_string(), &"USD".to_string(), &fiat, &broken);
    assert_eq!(r, Err(ResolveError::MalformedPayload));

    let zero = CryptoTable {
        coins: vec![CryptoEntry { symbol: "BTC".to_string(), price: "$0.00".to_string() }],
    };
    let r = resolve(&"USD".to_string(), &"BTC".to_string(), &fiat, &zero);
    assert_eq!(r, Err(ResolveError::MalformedPayload));
}

#[test]
fn oversized_exact_rate_overflows() {
    // Two 19-digit mantissas and a large scale push the exact pair past
    // 128 bits.
    let fiat = FiatTable::new(
        "USD".to_string(),
        Decimal { m: 1, k: 19 },
        vec![FiatEntry { code: "XXX".to_string(), rate: Decimal { m: 9999999999999999999, k: 0 } }],
    )
    .unwrap();
    let crypto = CryptoTable {
        coins: vec![CryptoEntry {
            symbol: "BIG".to_string(),
            price: "9999999999999999999".to_string(),
        }],
    };
    let r = resolve(&"BIG".to_string(), &"XXX".to_string(), &fiat, &crypto);
    assert_eq!(r, Err(ResolveError::Overflow));
}

#[test]
fn rejects_degenerate_table() {
    // A zero rate cannot be inverted, so the table refuses it.
    assert!(
        FiatTable::new(
            "USD".to_string(),
            Decimal { m: 1, k: 0 },
            vec![FiatEntry { code: "EUR".to_string(), rate: Decimal { m: 0, k: 0 } }],
        )
        .is_none()
    );
    // A scale past 19 is not representable.
    assert!(FiatTable::new("USD".to_string(), Decimal { m: 1, k: 20 }, vec![]).is_none());
}
