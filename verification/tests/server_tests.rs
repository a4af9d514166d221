use metaserver::api::{handle_api_request, u64_to_string};
use metaserver::codec::{decode_query, encode_response, QueryResponse};
use metaserver::dispatch::{dispatch_api_event, ChannelEvent, DispatchError, Outcome};
use metaserver::handler::{handle_datagram_message, handle_query_message, handle_uni_message};
use metaserver::stats::{ChannelKind, ChannelStats};
use metaserver::store::{init_database, MetadataStore};

#[test]
fn lookup_finds_every_seeded_key() {
    let db = init_database();
    let cases: Vec<(&str, &str)> = vec![
        (
            "user:123",
            "{\"id\":123,\"name\":\"Juan P\u{e9}rez\",\"email\":\"juan@example.com\",\"role\":\"admin\"}",
        ),
        (
            "user:456",
            "{\"id\":456,\"name\":\"Mar\u{ed}a Garc\u{ed}a\",\"email\":\"maria@example.com\",\"role\":\"user\"}",
        ),
        (
            "product:789",
            "{\"id\":789,\"name\":\"Laptop Dell XPS 13\",\"price\":1299.99,\"stock\":15}",
        ),
        (
            "product:101",
            "{\"id\":101,\"name\":\"Mouse Logitech MX Master 3\",\"price\":99.99,\"stock\":50}",
        ),
        (
            "config:app",
            "{\"theme\":\"dark\",\"language\":\"es\",\"notifications\":true}",
        ),
    ];
    for (key, value) in cases {
        let got = db.lookup(key.as_bytes()).expect("seeded key must be found");
        assert_eq!(got.as_slice(), value.as_bytes());
    }
    assert_eq!(db.len(), 5);
}

#[test]
fn lookup_misses_absent_key() {
    let db = init_database();
    assert!(db.lookup(b"missing").is_none());
    assert!(db.lookup(b"user:12").is_none());
    assert!(db.lookup(b"").is_none());
}

#[test]
fn insert_replaces_existing_binding() {
    let mut db = MetadataStore::new();
    db.insert(b"k".to_vec(), b"1".to_vec());
    db.insert(b"k".to_vec(), b"2".to_vec());
    assert_eq!(db.lookup(b"k").unwrap().as_slice(), b"2");
    assert_eq!(db.len(), 1);
}

#[test]
fn query_scenario_known_key() {
    let db = init_database();
    let req = b"{\"type\":\"query\",\"requestId\":1,\"key\":\"user:123\"}";
    let resp = handle_query_message(&db, req).expect("well-formed request is answered");
    let expected = "{\"requestId\":1,\"found\":true,\"data\":{\"id\":123,\"name\":\"Juan P\u{e9}rez\",\"email\":\"juan@example.com\",\"role\":\"admin\"}}";
    assert_eq!(resp.as_slice(), expected.as_bytes());
}

#[test]
fn query_scenario_missing_key() {
    let db = init_database();
    let req = b"{\"type\":\"query\",\"requestId\":2,\"key\":\"missing\"}";
    let resp = handle_query_message(&db, req).expect("well-formed request is answered");
    assert_eq!(
        resp.as_slice(),
        b"{\"requestId\":2,\"found\":false,\"data\":null}"
    );
}

#[test]
fn malformed_then_well_formed_on_same_stream() {
    let db = init_database();
    assert!(handle_query_message(&db, b"not json at all").is_none());
    assert!(handle_query_message(&db, b"{\"type\":\"query\"").is_none());
    let req = b"{\"type\":\"query\",\"requestId\":3,\"key\":\"config:app\"}";
    let resp = handle_query_message(&db, req).expect("stream still answers after bad bytes");
    let expected = b"{\"requestId\":3,\"found\":true,\"data\":{\"theme\":\"dark\",\"language\":\"es\",\"notifications\":true}}";
    assert_eq!(resp.as_slice(), expected.as_ref());
}

#[test]
fn response_echoes_request_id() {
    let db = init_database();
    for id in [0u64, 7, 42, 123456789, u64::MAX] {
        let req = format!("{{\"type\":\"query\",\"requestId\":{},\"key\":\"missing\"}}", id);
        let resp = handle_query_message(&db, req.as_bytes()).unwrap();
        let expected = format!("{{\"requestId\":{},\"found\":false,\"data\":null}}", id);
        assert_eq!(resp.as_slice(), expected.as_bytes());
    }
}

#[test]
fn decode_accepts_canonical_request() {
    let q = decode_query(b"{\"type\":\"query\",\"requestId\":10,\"key\":\"a b\"}").unwrap();
    assert_eq!(q.msg_type.as_slice(), b"query");
    assert_eq!(q.request_id, 10);
    assert_eq!(q.key.as_slice(), b"a b");
}

#[test]
fn decode_accepts_empty_strings() {
    let q = decode_query(b"{\"type\":\"\",\"requestId\":0,\"key\":\"\"}").unwrap();
    assert_eq!(q.msg_type.as_slice(), b"");
    assert_eq!(q.request_id, 0);
    assert_eq!(q.key.as_slice(), b"");
}

#[test]
fn decode_rejects_bad_numbers() {
    // leading zero
    assert!(decode_query(b"{\"type\":\"q\",\"requestId\":01,\"key\":\"k\"}").is_none());
    // no digits
    assert!(decode_query(b"{\"type\":\"q\",\"requestId\":,\"key\":\"k\"}").is_none());
    // largest value is accepted, one past it is not
    assert!(
        decode_query(b"{\"type\":\"q\",\"requestId\":18446744073709551615,\"key\":\"k\"}")
            .is_some()
    );
    assert!(
        decode_query(b"{\"type\":\"q\",\"requestId\":18446744073709551616,\"key\":\"k\"}")
            .is_none()
    );
}

#[test]
fn decode_rejects_trailing_bytes_and_escapes() {
    assert!(decode_query(b"{\"type\":\"q\",\"requestId\":1,\"key\":\"k\"} ").is_none());
    assert!(decode_query(b"{\"type\":\"q\",\"requestId\":1,\"key\":\"k\\n\"}").is_none());
    assert!(decode_query(b"").is_none());
}

#[test]
fn encode_response_with_and_without_data() {
    let with = QueryResponse {
        request_id: 9,
        found: true,
        data: Some(b"[1,2]".to_vec()),
    };
    assert_eq!(
        encode_response(&with).as_slice(),
        b"{\"requestId\":9,\"found\":true,\"data\":[1,2]}"
    );
    let without = QueryResponse {
        request_id: 10,
        found: false,
        data: None,
    };
    assert_eq!(
        encode_response(&without).as_slice(),
        b"{\"requestId\":10,\"found\":false,\"data\":null}"
    );
}

#[test]
fn stats_count_each_kind_exactly() {
    let mut stats = ChannelStats::new();
    let events = [
        ChannelKind::Bidirectional,
        ChannelKind::Datagram,
        ChannelKind::Unidirectional,
        ChannelKind::Bidirectional,
        ChannelKind::Unidirectional,
        ChannelKind::Unidirectional,
    ];
    for kind in events {
        stats.increment(kind);
    }
    assert_eq!(stats.snapshot(), (2, 3, 1));
}

#[test]
fn unknown_command_yields_exact_error() {
    let stats = ChannelStats::new();
    for bad in [
        "",
        "GET /transport/stat",
        "GET /transport/statsx",
        "get /transport/stats",
        "GET /TRANSPORT/STATS",
        "POST /echo hello",
        "GET /transport/status",
    ] {
        assert_eq!(
            handle_api_request(bad, &stats),
            "{\"error\":\"unknown endpoint\"}"
        );
    }
}

#[test]
fn stats_command_reports_counters() {
    let mut stats = ChannelStats::new();
    stats.increment(ChannelKind::Bidirectional);
    stats.increment(ChannelKind::Datagram);
    stats.increment(ChannelKind::Datagram);
    assert_eq!(
        handle_api_request("GET /transport/stats", &stats),
        "{\"bi_streams\":1,\"uni_streams\":0,\"datagrams\":2}"
    );
}

#[test]
fn u64_decimal_formatting() {
    assert_eq!(u64_to_string(0), "0");
    assert_eq!(u64_to_string(10), "10");
    assert_eq!(u64_to_string(907), "907");
    assert_eq!(u64_to_string(u64::MAX), "18446744073709551615");
}

#[test]
fn dispatch_bi_event_trims_and_routes() {
    let mut stats = ChannelStats::new();
    let ev = ChannelEvent::BiMessage(b"  GET /transport/stats \r\n".to_vec());
    match dispatch_api_event(&mut stats, &ev) {
        Ok(Outcome::StreamReply(b)) => {
            assert_eq!(
                b.as_slice(),
                b"{\"bi_streams\":1,\"uni_streams\":0,\"datagrams\":0}"
            );
        }
        other => panic!("unexpected outcome: {:?}", other.is_ok()),
    }
    assert_eq!(stats.snapshot(), (1, 0, 0));
}

#[test]
fn dispatch_uni_event_acknowledges_on_new_stream() {
    let mut stats = ChannelStats::new();
    let ev = ChannelEvent::UniMessage(b"hello".to_vec());
    match dispatch_api_event(&mut stats, &ev) {
        Ok(Outcome::OpenUniReply(b)) => assert_eq!(b.as_slice(), b"ACK from server"),
        other => panic!("unexpected outcome: {:?}", other.is_ok()),
    }
    assert_eq!(stats.snapshot(), (0, 1, 0));
    assert_eq!(handle_uni_message().as_slice(), b"ACK from server");
}

#[test]
fn dispatch_datagram_event_acknowledges() {
    let mut stats = ChannelStats::new();
    let ev = ChannelEvent::DatagramMessage(b"ping".to_vec());
    match dispatch_api_event(&mut stats, &ev) {
        Ok(Outcome::DatagramReply(b)) => assert_eq!(b.as_slice(), b"ACK datagram"),
        other => panic!("unexpected outcome: {:?}", other.is_ok()),
    }
    assert_eq!(stats.snapshot(), (0, 0, 1));
    assert_eq!(handle_datagram_message().as_slice(), b"ACK datagram");
}

#[test]
fn dispatch_rejects_invalid_utf8_but_still_counts() {
    let mut stats = ChannelStats::new();
    let ev = ChannelEvent::BiMessage(vec![0xff, 0xfe]);
    assert!(matches!(
        dispatch_api_event(&mut stats, &ev),
        Err(DispatchError::InvalidUtf8)
    ));
    let ev = ChannelEvent::DatagramMessage(vec![0xc0]);
    assert!(matches!(
        dispatch_api_event(&mut stats, &ev),
        Err(DispatchError::InvalidUtf8)
    ));
    assert_eq!(stats.snapshot(), (1, 0, 1));
}
