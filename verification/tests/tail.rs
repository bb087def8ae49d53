use rift_bus::json::JsonNode;
use rift_bus::tail::{tail_check, tail_events, TailCheck};

#[test]
fn poll_decisions() {
    assert_eq!(tail_check(10, None), TailCheck::Done(10));
    assert_eq!(tail_check(10, Some(4)), TailCheck::Done(4));
    assert_eq!(tail_check(10, Some(10)), TailCheck::Done(10));
    assert_eq!(tail_check(10, Some(11)), TailCheck::Read);
}

#[test]
fn appended_events_are_parsed() {
    let old = "{\"kind\":\"old\"}\n";
    let new = "{\"kind\":\"agent.start\",\"payload\":{\"a\":1}}\n\n   \nnot json\n{\"x\":2}\n";
    let bytes = format!("{old}{new}").into_bytes();
    let (events, next) = tail_events(&bytes, old.len() as u64, bytes.len() as u64, "agent.activity", true);
    assert_eq!(next, bytes.len() as u64);
    assert_eq!(events.len(), 2);
    assert_eq!(events[0].kind, "agent.start");
    match &events[0].payload {
        JsonNode::Object(m) => {
            assert_eq!(m.len(), 1);
            assert_eq!(m[0].0, "a");
        },
        other => panic!("unexpected payload {other:?}"),
    }
    assert_eq!(events[1].kind, "agent.activity");
    match &events[1].payload {
        JsonNode::Object(m) => assert_eq!(m[0].0, "x"),
        other => panic!("unexpected payload {other:?}"),
    }
}

#[test]
fn whole_document_is_the_payload_without_payload_member() {
    let bytes = b"{\"kind\":\"sentinel.x\",\"payload\":5}\n".to_vec();
    let (events, _) = tail_events(&bytes, 0, bytes.len() as u64, "sentinel.violation", false);
    assert_eq!(events.len(), 1);
    assert_eq!(events[0].kind, "sentinel.x");
    match &events[0].payload {
        JsonNode::Object(m) => assert_eq!(m.len(), 2),
        other => panic!("unexpected payload {other:?}"),
    }
}

#[test]
fn invalid_utf8_or_no_new_bytes_give_nothing() {
    let bytes = vec![b'{', 0xff, b'}', b'\n'];
    let (events, next) = tail_events(&bytes, 0, 4, "k", false);
    assert!(events.is_empty());
    assert_eq!(next, 4);
    let (events, next) = tail_events(b"abc", 3, 9, "k", false);
    assert!(events.is_empty());
    assert_eq!(next, 9);
}
