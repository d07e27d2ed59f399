use rates::decimal::Decimal;
use rates::payload::{
    convert_fiat_xml, crypto_table_from_json, fiat_table_from_ecb_json, fiat_table_from_flat_json,
};
use rates::resolver::{resolve, ResolveError};

const ECB_JSON: &str = r#"{"Envelope":{"Cube":{"Cube":{"Cube":[
    {"@currency":"USD","@rate":1.0945},
    {"@currency":"GBP","@rate":0.8621}
]}}}}"#;

#[test]
fn ecb_payload_builds_table() {
    let fiat = fiat_table_from_ecb_json(ECB_JSON).unwrap();
    assert_eq!(fiat.base, "EUR");
    assert_eq!(fiat.base_pivot, Decimal { m: 10945, k: 4 });
    assert_eq!(fiat.entries.len(), 2);
    assert_eq!(fiat.entries[0].code, "USD");
    assert_eq!(fiat.entries[1].rate, Decimal { m: 8621, k: 4 });
}

#[test]
fn ecb_rates_resolve() {
    let fiat = fiat_table_from_ecb_json(ECB_JSON).unwrap();
    let crypto = crypto_table_from_json(r#"{"data":{"coins":[]}}"#).unwrap();

    // One USD is worth 1/1.0945 EUR.
    let r = resolve(&"USD".to_string(), &"EUR".to_string(), &fiat, &crypto).unwrap();
    assert_eq!((r.num, r.den), (109450000, 119793025));

    // One GBP is worth 1.0945/0.8621 USD.
    let r = resolve(&"GBP".to_string(), &"USD".to_string(), &fiat, &crypto).unwrap();
    assert_eq!((r.num, r.den), (119793025, 94356845));
}

#[test]
fn ecb_xml_converts_and_resolves() {
    let xml = "<?xml version=\"1.0\" encoding=\"UTF-8\"?>\
        <gesmes:Envelope xmlns:gesmes=\"http://www.gesmes.org/xml/2002-08-01\" \
        xmlns=\"http://www.ecb.int/vocabulary/2002-08-01/eurofxref\">\
        <gesmes:subject>Reference rates</gesmes:subject>\
        <Cube><Cube time=\"2024-01-05\">\
        <Cube currency=\"USD\" rate=\"1.0945\"/>\
        <Cube currency=\"GBP\" rate=\"0.8621\"/>\
        </Cube></Cube></gesmes:Envelope>";
    let json = convert_fiat_xml(xml.to_string()).unwrap();
    let fiat = fiat_table_from_ecb_json(&json).unwrap();
    assert_eq!(fiat.base_pivot, Decimal { m: 10945, k: 4 });
    let crypto = crypto_table_from_json(r#"{"data":{"coins":[]}}"#).unwrap();
    let r = resolve(&"USD".to_string(), &"EUR".to_string(), &fiat, &crypto).unwrap();
    assert_eq!((r.num, r.den), (109450000, 119793025));
}

#[test]
fn flat_payload_end_to_end() {
    let fiat =
        fiat_table_from_flat_json(r#"{"rates":{"EUR":0.9,"GBP":0.8}}"#, "USD".to_string()).unwrap();
    assert_eq!(fiat.base, "USD");
    assert_eq!(fiat.base_pivot, Decimal { m: 1, k: 0 });
    let crypto =
        crypto_table_from_json(r#"{"data":{"coins":[{"symbol":"BTC","price":"$50000.00"}]}}"#)
            .unwrap();

    let r = resolve(&"EUR".to_string(), &"USD".to_string(), &fiat, &crypto).unwrap();
    assert_eq!((r.num, r.den), (10, 9));

    let r = resolve(&"BTC".to_string(), &"EUR".to_string(), &fiat, &crypto).unwrap();
    assert_eq!(r.num % r.den, 0);
    assert_eq!(r.num / r.den, 45000);
}

#[test]
fn malformed_payloads_are_refused() {
    assert_eq!(
        fiat_table_from_ecb_json("not json").unwrap_err(),
        ResolveError::MalformedPayload
    );
    assert_eq!(
        fiat_table_from_ecb_json(r#"{"Envelope":{}}"#).unwrap_err(),
        ResolveError::MalformedPayload
    );
    // A table without the USD cross cannot name its pivot.
    assert_eq!(
        fiat_table_from_ecb_json(
            r#"{"Envelope":{"Cube":{"Cube":{"Cube":[{"@currency":"GBP","@rate":0.9}]}}}}"#
        )
        .unwrap_err(),
        ResolveError::MalformedPayload
    );
    // A zero rate would make an entry worth infinitely much.
    assert_eq!(
        fiat_table_from_ecb_json(
            r#"{"Envelope":{"Cube":{"Cube":{"Cube":[{"@currency":"USD","@rate":0}]}}}}"#
        )
        .unwrap_err(),
        ResolveError::MalformedPayload
    );
    assert_eq!(
        fiat_table_from_flat_json(r#"{"norates":1}"#, "USD".to_string()).unwrap_err(),
        ResolveError::MalformedPayload
    );
    assert_eq!(
        fiat_table_from_flat_json(r#"{"rates":{"EUR":0}}"#, "USD".to_string()).unwrap_err(),
        ResolveError::MalformedPayload
    );
    assert_eq!(
        crypto_table_from_json("[]").unwrap_err(),
        ResolveError::MalformedPayload
    );
    // A numeric price field is not the declared schema.
    assert_eq!(
        crypto_table_from_json(r#"{"data":{"coins":[{"symbol":"BTC","price":50000}]}}"#)
            .unwrap_err(),
        ResolveError::MalformedPayload
    );
}

#[test]
fn bad_xml_is_refused() {
    assert_eq!(convert_fiat_xml("<a><b></a></b>".to_string()), None);
}
