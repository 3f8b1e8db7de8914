use mstress::message::{DecodeError, TestMessage, Timestamp};
use mstress::results::{BatchError, echo_result, flood_requests, EchoOutcome, FloodCollector, StressTest, TestResults};
use mstress::stats::{ProbeAction, ProbeEvent, StatsCollection, TestResultStats, ThroughputProbe, probe_payload};
use mstress::subjects::{make_echolet_response_subject, make_request_subject, make_response_subject};

fn s(x: &str) -> String {
    x.to_string()
}

#[test]
fn subject_derivation() {
    assert_eq!(make_request_subject(&s("alice")), "natssyncmsg.alice.echo");
    let resp = make_response_subject(&s("alice"), &s("TOK1"));
    assert_eq!(resp, "natssyncmsg.cloud-master.alice.TOK1");
    assert_eq!(make_echolet_response_subject(&resp), "natssyncmsg.cloud-master.alice.TOK1.echolet");
}

#[test]
fn payload_exact_bytes() {
    let m = TestMessage { id: 1, time: Timestamp { secs: 1700000000, nanos: 25 }, client: s("x") };
    let expected = "{\"id\":1,\"time\":{\"secs_since_epoch\":1700000000,\"nanos_since_epoch\":25},\"client\":\"x\"}";
    assert_eq!(m.to_bytes(), expected.as_bytes().to_vec());
}

#[test]
fn payload_escapes_client_text() {
    let m = TestMessage { id: 0, time: Timestamp { secs: 0, nanos: 0 }, client: s("a\"b\\c\u{1}") };
    let expected = "{\"id\":0,\"time\":{\"secs_since_epoch\":0,\"nanos_since_epoch\":0},\"client\":\"a\\\"b\\\\c\\u0001\"}";
    assert_eq!(m.to_bytes(), expected.as_bytes().to_vec());
}

#[test]
fn payload_round_trip() {
    for client in ["alice", "", "q\"uote\\back\nline\ttab", "caf\u{e9} \u{1F600}"] {
        let m = TestMessage::new(7, &s(client));
        let back = TestMessage::from_utf8(&m.to_bytes()).unwrap();
        assert_eq!(back.id, 7);
        assert_eq!(back.client, client);
        assert_eq!(back.time, m.time);
    }
}

#[test]
fn payload_largest_numbers_round_trip() {
    let m = TestMessage {
        id: usize::MAX,
        time: Timestamp { secs: u64::MAX, nanos: 999_999_999 },
        client: s("z"),
    };
    let back = TestMessage::from_utf8(&m.to_bytes()).unwrap();
    assert_eq!(back.id, usize::MAX);
    assert_eq!(back.time, m.time);
}

#[test]
fn payload_decodes_json_escapes() {
    let text = "{\"id\":5,\"time\":{\"secs_since_epoch\":1,\"nanos_since_epoch\":2},\"client\":\"a\\n\\u0041\\/\"}";
    let m = TestMessage::from_utf8(text.as_bytes()).unwrap();
    assert_eq!(m.id, 5);
    assert_eq!(m.client, "a\nA/");
}

#[test]
fn payload_malformed() {
    assert_eq!(TestMessage::from_utf8(b"{}").err(), Some(DecodeError::Malformed));
    assert_eq!(TestMessage::from_utf8(b"").err(), Some(DecodeError::Malformed));
    let unterminated = "{\"id\":5,\"time\":{\"secs_since_epoch\":1,\"nanos_since_epoch\":2},\"client\":\"a}";
    assert_eq!(TestMessage::from_utf8(unterminated.as_bytes()).err(), Some(DecodeError::Malformed));
    let too_big = "{\"id\":5,\"time\":{\"secs_since_epoch\":1,\"nanos_since_epoch\":4294967296},\"client\":\"a\"}";
    assert_eq!(TestMessage::from_utf8(too_big.as_bytes()).err(), Some(DecodeError::Malformed));
}

#[test]
fn payload_invalid_text() {
    let mut bytes = b"{\"id\":5,\"time\":{\"secs_since_epoch\":1,\"nanos_since_epoch\":2},\"client\":\"".to_vec();
    bytes.push(0xff);
    bytes.extend_from_slice(b"\"}");
    assert_eq!(TestMessage::from_utf8(&bytes).err(), Some(DecodeError::InvalidText));
}

#[test]
fn echo_probe_reply_in_time() {
    let r = echo_result(s("alice"), EchoOutcome::Replied);
    assert_eq!(r.client, "alice");
    assert!(r.success);
    assert_eq!(r.response_count, 1);
}

#[test]
fn echo_probe_no_reply() {
    for outcome in [EchoOutcome::TimedOut, EchoOutcome::Closed] {
        let r = echo_result(s("alice"), outcome);
        assert!(!r.success);
        assert_eq!(r.response_count, 0);
    }
}

#[test]
fn test_results_new() {
    let r = TestResults::new(s("b"), true, 4);
    assert_eq!(r.client, "b");
    assert!(r.success);
    assert_eq!(r.response_count, 4);
}

#[test]
fn flood_requests_cover_every_client_and_repeat() {
    let test = StressTest::new(vec![s("a"), s("b")], 3);
    let reqs = flood_requests(&test);
    assert_eq!(reqs.len(), 2);
    for (c, name) in ["a", "b"].iter().enumerate() {
        assert_eq!(reqs[c].len(), 3);
        for j in 0..3 {
            assert_eq!(reqs[c][j].0, format!("natssyncmsg.{}.echo", name));
            let m = TestMessage::from_utf8(&reqs[c][j].1).unwrap();
            assert_eq!(m.id, j + 1);
            assert_eq!(m.client, *name);
        }
    }
}

#[test]
fn flood_every_request_echoed_once() {
    let test = StressTest::new(vec![s("a"), s("b")], 3);
    let mut collector = FloodCollector::new(&test.clients, test.count);
    assert!(!collector.is_done());
    for per_client in flood_requests(&test) {
        for (_, payload) in per_client {
            collector.record(&payload);
        }
    }
    assert!(collector.is_done());
    assert_eq!(collector.results.len(), 2);
    for r in collector.results.iter() {
        assert_eq!(r.response_count, 3);
        assert!(r.success);
    }
}

#[test]
fn flood_silent_client_fails() {
    let test = StressTest::new(vec![s("a"), s("b")], 3);
    let mut collector = FloodCollector::new(&test.clients, test.count);
    let reqs = flood_requests(&test);
    for (_, payload) in reqs[0].iter() {
        collector.record(payload);
    }
    assert!(!collector.is_done());
    let b = collector.results.iter().find(|r| r.client == "b").unwrap();
    assert!(!b.success);
    assert!(b.response_count < 3);
    let a = collector.results.iter().find(|r| r.client == "a").unwrap();
    assert!(a.success);
    assert_eq!(a.response_count, 3);
}

#[test]
fn flood_ignores_foreign_and_malformed_replies() {
    let mut collector = FloodCollector::new(&vec![s("a")], 1);
    collector.record(b"not json");
    let other = TestMessage::new(1, &s("zed")).to_bytes();
    collector.record(&other);
    assert_eq!(collector.received, 0);
    assert_eq!(collector.results[0].response_count, 0);
    assert!(!collector.is_done());
}

#[test]
fn flood_collector_one_entry_per_distinct_client() {
    let collector = FloodCollector::new(&vec![s("a"), s("b"), s("a")], 2);
    assert_eq!(collector.results.len(), 2);
    assert!(collector.results.iter().all(|r| !r.success && r.response_count == 0));
}

#[test]
fn stats_empty() {
    let c = StatsCollection::new(vec![]);
    assert!(c.results.is_empty());
    assert_eq!(c.min, 0);
    assert_eq!(c.max, 0);
    assert_eq!(c.total, 0);
}

#[test]
fn stats_sorted_with_bounds_and_sum() {
    let mk = |name: &str, count: usize| {
        let mut t = TestResultStats::new(s(name));
        t.count = count;
        t
    };
    let c = StatsCollection::new(vec![mk("a", 30), mk("b", 10), mk("c", 20), mk("d", 10)]);
    let counts: Vec<usize> = c.results.iter().map(|t| t.count).collect();
    assert_eq!(counts, vec![10, 10, 20, 30]);
    assert_eq!(c.min, 10);
    assert_eq!(c.max, 30);
    assert_eq!(c.total, 70);
    assert_eq!(c.results[3].client, "a");
}

#[test]
fn throughput_probe_counts_replies_until_failure() {
    let mut p = ThroughputProbe::new(s("a"));
    assert_eq!(p.first_action(), ProbeAction::Send(0));
    assert_eq!(p.on_event(ProbeEvent::Replied), ProbeAction::Send(1));
    assert_eq!(p.on_event(ProbeEvent::Replied), ProbeAction::Send(2));
    assert_eq!(p.on_event(ProbeEvent::PublishFailed), ProbeAction::Stop);
    let r = p.finish();
    assert_eq!(r.client, "a");
    assert_eq!(r.count, 2);
}

#[test]
fn throughput_probe_stops_on_close() {
    let mut p = ThroughputProbe::new(s("a"));
    assert_eq!(p.on_event(ProbeEvent::Closed), ProbeAction::Stop);
    assert_eq!(p.finish().count, 0);
}

#[test]
fn throughput_payload_is_decimal_id() {
    assert_eq!(probe_payload(0), b"0".to_vec());
    assert_eq!(probe_payload(42), b"42".to_vec());
}

#[test]
fn stress_test_new_keeps_clients() {
    let t = StressTest::new(vec![s("a")], 2);
    let u = StressTest::new(vec![s("a")], 2);
    assert_eq!(t.clients, vec![s("a")]);
    assert_eq!(t.count, 2);
    assert_ne!(t.id, u.id);
}

#[test]
fn payload_as_text() {
    let m = TestMessage { id: 3, time: Timestamp { secs: 9, nanos: 8 }, client: s("caf\u{e9}") };
    let text = m.to_string();
    assert_eq!(text, "{\"id\":3,\"time\":{\"secs_since_epoch\":9,\"nanos_since_epoch\":8},\"client\":\"caf\u{e9}\"}");
    let back = TestMessage::from_utf8(text.as_bytes()).unwrap();
    assert_eq!(back.client, "caf\u{e9}");
}

#[test]
fn batch_request_validation() {
    assert_eq!(StressTest::from_request(vec![], 3).err(), Some(BatchError::NoClients));
    assert_eq!(StressTest::from_request(vec![s("a")], 0).err(), Some(BatchError::NoRepeats));
    let t = StressTest::from_request(vec![s("a"), s("b")], 2).ok().unwrap();
    assert_eq!(t.clients, vec![s("a"), s("b")]);
    assert_eq!(t.count, 2);
}
