use rates::store::{
    i64_to_dec_bytes, is_stale, parse_i64_bytes, plan_refresh, CacheError, CacheRecord,
    RefreshDecision,
};

#[test]
fn freshness_boundary_is_inclusive() {
    let max_age: i64 = 10800;
    let now: i64 = 1700000000;
    // Fetched exactly max_age ago: stale, so the store refetches.
    assert!(is_stale(now - max_age, now, max_age));
    let stamp = i64_to_dec_bytes(now - max_age);
    assert_eq!(
        plan_refresh(Some(&stamp), false, now, max_age),
        Ok(RefreshDecision::Refresh)
    );
    // One second younger: fresh, so the cache is reused.
    assert!(!is_stale(now - max_age + 1, now, max_age));
    let stamp = i64_to_dec_bytes(now - max_age + 1);
    assert_eq!(
        plan_refresh(Some(&stamp), false, now, max_age),
        Ok(RefreshDecision::UseCache)
    );
}

#[test]
fn first_run_and_force_refresh() {
    let now: i64 = 1700000000;
    // No timestamp artifact yet: first run fetches.
    assert_eq!(plan_refresh(None, false, now, 10800), Ok(RefreshDecision::Refresh));
    // A forced refresh wins even over fresh data.
    let stamp = i64_to_dec_bytes(now);
    assert_eq!(
        plan_refresh(Some(&stamp), true, now, 10800),
        Ok(RefreshDecision::Refresh)
    );
}

#[test]
fn corrupt_timestamp_is_fatal() {
    assert_eq!(
        plan_refresh(Some(b"12x3".as_ref()), false, 0, 10800),
        Err(CacheError::CorruptTimestamp)
    );
    assert_eq!(
        plan_refresh(Some(b"".as_ref()), false, 0, 10800),
        Err(CacheError::CorruptTimestamp)
    );
}

#[test]
fn cache_write_read_round_trip() {
    let rec = CacheRecord {
        fiat_raw: "{\"Envelope\":{}}".to_string(),
        crypto_raw: "{\"data\":{\"coins\":[]}}".to_string(),
        fetched_at: 1700000000,
    };
    let (fiat, crypto, stamp) = rec.to_artifacts();
    // The blobs come back byte-identical, with no second fetch involved.
    assert_eq!(fiat, rec.fiat_raw);
    assert_eq!(crypto, rec.crypto_raw);
    let back = CacheRecord::from_artifacts(fiat, crypto, &stamp).unwrap();
    assert_eq!(back.fiat_raw, rec.fiat_raw);
    assert_eq!(back.crypto_raw, rec.crypto_raw);
    assert_eq!(back.fetched_at, rec.fetched_at);
    // And the record written at that time still counts as fresh.
    assert_eq!(
        plan_refresh(Some(&stamp), false, rec.fetched_at + 1, 10800),
        Ok(RefreshDecision::UseCache)
    );
}

#[test]
fn timestamp_codec_round_trips_extremes() {
    for v in [0i64, 1, -1, -42, i64::MAX, i64::MIN, 1700000000] {
        let bytes = i64_to_dec_bytes(v);
        assert_eq!(parse_i64_bytes(&bytes), Some(v));
    }
    assert_eq!(i64_to_dec_bytes(0), b"0".to_vec());
    assert_eq!(i64_to_dec_bytes(-42), b"-42".to_vec());
    assert_eq!(i64_to_dec_bytes(1700000000), b"1700000000".to_vec());
}

#[test]
fn timestamp_parsing_bounds() {
    assert_eq!(parse_i64_bytes(b"9223372036854775807"), Some(i64::MAX));
    assert_eq!(parse_i64_bytes(b"9223372036854775808"), None);
    assert_eq!(parse_i64_bytes(b"-9223372036854775808"), Some(i64::MIN));
    assert_eq!(parse_i64_bytes(b"-9223372036854775809"), None);
    assert_eq!(parse_i64_bytes(b"007"), Some(7));
    assert_eq!(parse_i64_bytes(b"-"), None);
    assert_eq!(parse_i64_bytes(b"12 3"), None);
}
