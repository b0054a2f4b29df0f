use std::collections::HashSet;

use waiting_room::gate::{
    conclude_lookup, decide, Decision, GateError, LookupOutcome, LookupVerdict,
};
use waiting_room::session::extract;
use waiting_room::store::{MemStore, StoreError};
use waiting_room::timestamp::{decode, encode, now_utc, Timestamp};
use waiting_room::token::generate;

fn ts(year: u16, month: u8, day: u8, hour: u8, minute: u8, second: u8) -> Timestamp {
    Timestamp {
        year,
        month,
        day,
        hour,
        minute,
        second,
    }
}

fn is_lower_crockford(c: char) -> bool {
    matches!(c, '0'..='9')
        || (c.is_ascii_lowercase() && !matches!(c, 'i' | 'l' | 'o' | 'u'))
}

fn headers(lines: &[&[u8]]) -> Vec<Vec<u8>> {
    lines.iter().map(|l| l.to_vec()).collect()
}

#[test]
fn generated_tokens_are_unique() {
    let mut seen: HashSet<String> = HashSet::new();
    for _ in 0..10_000 {
        assert!(seen.insert(generate()), "token collision");
    }
}

#[test]
fn generated_token_shape() {
    for _ in 0..100 {
        let t = generate();
        assert_eq!(t.chars().count(), 26);
        assert!(t.chars().all(is_lower_crockford), "bad token: {}", t);
    }
}

#[test]
fn timestamp_round_trip() {
    let samples = [
        ts(2024, 2, 29, 23, 59, 59),
        ts(0, 1, 1, 0, 0, 0),
        ts(9999, 12, 31, 23, 59, 59),
        ts(2023, 3, 5, 4, 7, 9),
        ts(1970, 1, 1, 0, 0, 0),
    ];
    for t in samples {
        assert_eq!(decode(&encode(t)), Some(t));
    }
}

#[test]
fn encode_exact_text() {
    assert_eq!(encode(ts(2023, 3, 5, 4, 7, 9)), b"2023-03-05T04:07:09Z".to_vec());
    assert_eq!(encode(ts(0, 12, 31, 23, 59, 59)), b"0000-12-31T23:59:59Z".to_vec());
}

#[test]
fn decode_rejects_malformed_text() {
    let bad: &[&[u8]] = &[
        b"",
        b"2023-03-05T04:07:09",
        b"2023-03-05 04:07:09Z",
        b"2023-03-05T04:07:09Z ",
        b"2023-13-05T04:07:09Z",
        b"2023-00-05T04:07:09Z",
        b"2023-03-00T04:07:09Z",
        b"2023-04-31T04:07:09Z",
        b"1900-02-29T04:07:09Z",
        b"2023-03-05T24:07:09Z",
        b"2023-03-05T04:60:09Z",
        b"2023-03-05T04:07:60Z",
        b"2o23-03-05T04:07:09Z",
        b"2023-03-05T04:07:09z",
        b"not-a-timestamp-text",
    ];
    for b in bad {
        assert_eq!(decode(b), None, "accepted {:?}", b);
    }
}

#[test]
fn decode_accepts_leap_day() {
    assert_eq!(
        decode(b"2000-02-29T00:00:00Z"),
        Some(ts(2000, 2, 29, 0, 0, 0))
    );
    assert_eq!(decode(b"2400-02-29T00:00:00Z"), Some(ts(2400, 2, 29, 0, 0, 0)));
    assert_eq!(decode(b"2100-02-29T00:00:00Z"), None);
}

#[test]
fn put_is_idempotent() {
    let t0 = ts(2024, 1, 2, 3, 4, 5);
    let mut once = MemStore::new();
    once.put("abc123".to_string(), t0);
    let mut twice = MemStore::new();
    twice.put("abc123".to_string(), t0);
    twice.put("abc123".to_string(), t0);
    let key = "abc123".to_string();
    assert_eq!(once.get(&key), twice.get(&key));
    assert_eq!(twice.get(&key), Ok(Some(t0)));
    assert_eq!(once.get_raw(&key), twice.get_raw(&key));
}

#[test]
fn new_session_flow() {
    let now = ts(2024, 6, 1, 12, 0, 0);
    let mut store = MemStore::new();
    match decide(&mut store, None, now) {
        Decision::NewSession { token } => {
            assert_eq!(token.chars().count(), 26);
            assert!(token.chars().all(is_lower_crockford));
            assert_eq!(store.get(&token), Ok(Some(now)));
        }
        _ => panic!("expected a new session"),
    }
}

#[test]
fn known_session_flow() {
    let t0 = ts(2024, 1, 2, 3, 4, 5);
    let now = ts(2024, 6, 1, 12, 0, 0);
    let mut store = MemStore::new();
    store.put("abc123".to_string(), t0);
    match decide(&mut store, Some("abc123".to_string()), now) {
        Decision::KnownSession { issued_at } => assert_eq!(issued_at, t0),
        _ => panic!("expected a known session, no cookie instruction"),
    }
    assert_eq!(store.get(&"abc123".to_string()), Ok(Some(t0)));
}

#[test]
fn unknown_token_reissues() {
    let now = ts(2024, 6, 1, 12, 0, 0);
    let mut store = MemStore::new();
    match decide(&mut store, Some("doesnotexist".to_string()), now) {
        Decision::NewSession { token } => {
            assert_ne!(token, "doesnotexist");
            assert!(token.chars().all(is_lower_crockford));
            assert_eq!(store.get(&token), Ok(Some(now)));
        }
        _ => panic!("an unknown token must reissue a fresh session"),
    }
    assert_eq!(store.get(&"doesnotexist".to_string()), Ok(None));
}

#[test]
fn malformed_backend_value_is_an_error() {
    let mut store = MemStore::new();
    store.put_raw("abc123".to_string(), b"not-a-timestamp-text".to_vec());
    assert_eq!(store.get(&"abc123".to_string()), Err(StoreError::Backend));
    let now = ts(2024, 6, 1, 12, 0, 0);
    match decide(&mut store, Some("abc123".to_string()), now) {
        Decision::Failed { error } => assert_eq!(error, GateError::Backend),
        _ => panic!("a malformed stored value must fail, not pass for absent"),
    }
}

#[test]
fn multi_pair_header_extracts_token() {
    let hs = headers(&[b"foo=bar; waiting-token=zzz; other=1"]);
    assert_eq!(extract(&hs), Some("zzz".to_string()));
}

#[test]
fn extract_without_cookie_header() {
    assert_eq!(extract(&Vec::new()), None);
    let hs = headers(&[b"foo=bar; other=1"]);
    assert_eq!(extract(&hs), None);
}

#[test]
fn extract_last_occurrence_wins() {
    let hs = headers(&[b"waiting-token=first; waiting-token=second"]);
    assert_eq!(extract(&hs), Some("second".to_string()));
    let two = headers(&[b"waiting-token=one", b"waiting-token=two"]);
    assert_eq!(extract(&two), Some("two".to_string()));
}

#[test]
fn extract_skips_malformed_pairs() {
    let hs = headers(&[b"garbage; ; =novalue; waiting-token=good; broken"]);
    assert_eq!(extract(&hs), Some("good".to_string()));
}

#[test]
fn extract_trims_and_unquotes() {
    let hs = headers(&[b"  waiting-token =  \"zzz\"  "]);
    assert_eq!(extract(&hs), Some("zzz".to_string()));
}

#[test]
fn extract_percent_decodes_value() {
    let hs = headers(&[b"waiting-token=z%7Az"]);
    assert_eq!(extract(&hs), Some("zzz".to_string()));
    let bad = headers(&[b"waiting-token=%zz"]);
    assert_eq!(extract(&bad), None);
}

#[test]
fn extract_percent_decodes_name() {
    let hs = headers(&[b"wa%69ting-token=yes"]);
    assert_eq!(extract(&hs), Some("yes".to_string()));
}

#[test]
fn extract_skips_non_ascii_line() {
    let mut lines: Vec<Vec<u8>> = Vec::new();
    lines.push(vec![b'w', 0xFF, b'=', b'x']);
    assert_eq!(extract(&lines), None);
    lines.push(b"waiting-token=ok".to_vec());
    assert_eq!(extract(&lines), Some("ok".to_string()));
}

#[test]
fn conclude_lookup_cases() {
    let t0 = ts(2024, 1, 2, 3, 4, 5);
    match conclude_lookup(LookupOutcome::Found(encode(t0))) {
        LookupVerdict::Known(t) => assert_eq!(t, t0),
        _ => panic!("a stored record must resolve"),
    }
    match conclude_lookup(LookupOutcome::Found(b"junk".to_vec())) {
        LookupVerdict::Failure(e) => assert_eq!(e, GateError::Backend),
        _ => panic!("junk must be a backend failure"),
    }
    assert!(matches!(
        conclude_lookup(LookupOutcome::Absent),
        LookupVerdict::Reissue
    ));
    assert!(matches!(
        conclude_lookup(LookupOutcome::Unavailable),
        LookupVerdict::Failure(GateError::Backend)
    ));
}

#[test]
fn now_round_trips_through_encoding() {
    let n = now_utc();
    assert!((1..=12).contains(&n.month));
    assert!(n.year >= 2024);
    assert_eq!(decode(&encode(n)), Some(n));
}
