//! The Slack adapter.

use reel::adapters::slack::{
    redact_text, settle_fire, MockTransport, SlackAdapter, SlackError, SlackOp, TransportRecord,
    SLACK_PATH_PREFIX_BASE,
};
use reel::capability::{Capability, OpKind, OpSet};
use reel::effect::EffectDescriptor;
use reel::error::ReelError;

type Adapter = SlackAdapter<MockTransport>;

fn cap(prefix: &str, ops: &[OpKind], ttl: u64) -> Capability {
    Capability { path_prefix: prefix.to_owned(), op_set: OpSet::of(ops), ttl }
}

fn text<'a>(v: &'a serde_json::Value, key: &str) -> Option<&'a str> {
    v.get(key).and_then(|f| f.as_str())
}

#[test]
fn operations_name_channel_and_verb() {
    let post = SlackOp::PostMessage { channel: "#general".into(), text: "hi".into() };
    let edit =
        SlackOp::EditMessage { channel: "#a".into(), ts: "1.2".into(), text: "bye".into() };
    let delete = SlackOp::DeleteMessage { channel: "#b".into(), ts: "3.4".into() };
    assert_eq!((post.channel(), post.verb()), ("#general", "post_message"));
    assert_eq!((edit.channel(), edit.verb()), ("#a", "edit_message"));
    assert_eq!((delete.channel(), delete.verb()), ("#b", "delete_message"));
    for op in [post, edit, delete] {
        let v = op.to_json();
        assert_eq!(text(&v, "action"), Some(op.verb()));
        assert_eq!(SlackOp::from_json(&v), Some(op.clone()));
    }
}

#[test]
fn json_without_an_operation_is_refused() {
    let parse = |s: &str| -> Option<SlackOp> {
        SlackOp::from_json(&serde_json::from_str(s).expect("is JSON"))
    };
    assert_eq!(parse("null"), None);
    assert_eq!(parse("{}"), None);
    assert_eq!(parse(r##"{"action":"shout","channel":"#a","text":"x"}"##), None);
    assert_eq!(parse(r##"{"action":"post_message","channel":"#a"}"##), None);
    assert_eq!(parse(r##"{"action":"post_message","channel":"#a","text":5}"##), None);
    let post = SlackOp::PostMessage { channel: "#a".into(), text: "x".into() };
    assert_eq!(
        parse(r##"{"action":"post_message","channel":"#a","text":"x","more":1}"##),
        Some(post.clone())
    );
    assert_eq!(parse(r##"["post_message","#a","x"]"##), Some(post));
    assert_eq!(parse(r##"["post_message","#a","x","y"]"##), None);
    assert_eq!(parse(r##"["post_message","#a"]"##), None);
    assert_eq!(parse("[]"), None);
}

#[test]
fn effects_are_numbered_in_order() {
    let mut a = Adapter::new(MockTransport::new());
    let first = a.post_message("#general", "hi").expect("described");
    let second = a.edit_message("#general", "1.2", "bye").expect("described");
    let third = a.delete_message("#general", "1.2").expect("described");
    for (d, id) in [first, second, third].iter().zip(0u64..) {
        match d {
            EffectDescriptor::C { effect_id, op } => {
                assert_eq!(*effect_id, id);
                assert_eq!(text(op, "channel"), Some("#general"));
            }
            other => panic!("expected Class C, got {other:?}"),
        }
    }
    assert_eq!(a.transport().send_count(), 0, "describing sends nothing");
}

#[test]
fn long_messages_are_cut_in_previews() {
    assert_eq!(redact_text("short"), "short");
    let exact = "é".repeat(80);
    assert_eq!(redact_text(&exact), exact);
    let long = "é".repeat(81);
    assert_eq!(redact_text(&long), format!("{exact}…"));
    let mut a = Adapter::new(MockTransport::new());
    let d = a.post_message("#general", &long).expect("described");
    let p = Adapter::describe_preview(&d).expect("previewed");
    assert_eq!(text(&p, "action"), Some("post_message"));
    assert_eq!(text(&p, "channel"), Some("#general"));
    assert_eq!(text(&p, "text_excerpt"), Some(format!("{exact}…").as_str()));
    assert_eq!(p.get("effect_id").and_then(|v| v.as_u64()), Some(0));
    assert!(p.get("text").is_none());
    let d = a.delete_message("#general", "9.9").expect("described");
    let p = Adapter::describe_preview(&d).expect("previewed");
    assert_eq!(text(&p, "ts"), Some("9.9"));
    let d = a.edit_message("#general", "9.9", "new").expect("described");
    let p = Adapter::describe_preview(&d).expect("previewed");
    assert_eq!((text(&p, "ts"), text(&p, "text_excerpt")), (Some("9.9"), Some("new")));
}

#[test]
fn only_described_operations_are_used() {
    let a = EffectDescriptor::A { effect_id: 1, op: serde_json::Value::Null };
    match Adapter::describe_preview(&a) {
        Err(ReelError::Storage(m)) => {
            assert_eq!(m, "expected Class C descriptor, got A { effect_id: 1, op: Null }");
        }
        other => panic!("expected Storage, got {other:?}"),
    }
    let c = EffectDescriptor::C { effect_id: 1, op: serde_json::Value::Null };
    let k = cap("slack:", &[OpKind::FireC], 60);
    match Adapter::prepare_fire(&c, &k) {
        Err(ReelError::Storage(m)) => assert_eq!(
            m,
            "decode op for fire: invalid type: null, expected internally tagged enum SlackOp"
        ),
        other => panic!("expected Storage, got {other:?}"),
    }
}

fn reason(op: serde_json::Value) -> String {
    let d = EffectDescriptor::C { effect_id: 1, op };
    match Adapter::describe_preview(&d) {
        Err(ReelError::Storage(m)) => {
            m.strip_prefix("decode op for preview: ").expect("says what for").to_owned()
        }
        other => panic!("expected Storage, got {other:?}"),
    }
}

fn parsed(s: &str) -> serde_json::Value {
    serde_json::from_str(s).expect("is JSON")
}

#[test]
fn a_payload_of_the_wrong_type_says_what_it_is() {
    for (payload, found) in [
        ("true", "boolean `true`"),
        ("false", "boolean `false`"),
        ("7", "integer `7`"),
        ("-7", "integer `-7`"),
        ("1.5", "floating point `1.5`"),
        ("\"a\\\"b\"", "string \"a\\\"b\""),
    ] {
        assert_eq!(
            reason(parsed(payload)),
            format!("invalid type: {found}, expected internally tagged enum SlackOp")
        );
    }
    assert_eq!(
        reason(parsed("{\"action\": []}")),
        "invalid type: sequence, expected variant identifier"
    );
    assert_eq!(
        reason(parsed("[{}]")),
        "invalid type: map, expected variant identifier"
    );
}

#[test]
fn a_payload_with_bad_fields_says_which() {
    let unknown = "unknown variant `shout`, expected one of `post_message`, `edit_message`, \
                   `delete_message`";
    for (payload, why) in [
        ("{}", "missing field `action`"),
        ("{\"action\": \"shout\"}", unknown),
        ("{\"action\": \"post_message\"}", "missing field `channel`"),
        ("{\"action\": \"post_message\", \"channel\": \"c\"}", "missing field `text`"),
        ("{\"action\": \"edit_message\", \"channel\": \"c\"}", "missing field `ts`"),
        (
            "{\"action\": \"edit_message\", \"ts\": 1, \"text\": null}",
            "invalid type: null, expected a string",
        ),
        (
            "{\"action\": \"delete_message\", \"ts\": 1, \"text\": null}",
            "invalid type: integer `1`, expected a string",
        ),
    ] {
        assert_eq!(reason(parsed(payload)), why, "{payload}");
    }
}

#[test]
fn a_payload_with_bad_items_says_which() {
    for (payload, why) in [
        ("[]", "missing field `action`"),
        (
            "[\"post_message\"]",
            "invalid length 0, expected struct variant SlackOp::PostMessage with 2 elements",
        ),
        (
            "[\"edit_message\", \"c\", \"1\"]",
            "invalid length 2, expected struct variant SlackOp::EditMessage with 3 elements",
        ),
        ("[\"delete_message\", \"c\", 1]", "invalid type: integer `1`, expected a string"),
        (
            "[\"delete_message\", \"c\", \"1\", 2]",
            "invalid length 3, expected 2 elements in sequence",
        ),
    ] {
        assert_eq!(reason(parsed(payload)), why, "{payload}");
    }
}

#[test]
fn capability_rules_are_checked_in_order() {
    let op = SlackOp::PostMessage { channel: "#general".into(), text: "hi".into() };
    let check = |c: &Capability| Adapter::check_capability(&op, c);
    assert!(check(&cap(SLACK_PATH_PREFIX_BASE, &[OpKind::FireC], 60)).is_ok());
    assert!(check(&cap("slack:channel:#gen", &[OpKind::FireC], 1)).is_ok());
    let denied = |c: &Capability| match check(c) {
        Err(SlackError::CapabilityDenied(m)) => m,
        other => panic!("expected a denial, got {other:?}"),
    };
    assert_eq!(
        denied(&cap("ws/", &[OpKind::Read, OpKind::FireB], 0)),
        "I-003: op_set missing FireC; supplied set has 2 entries"
    );
    assert_eq!(
        denied(&cap("slack:channel:#random", &[OpKind::FireC], 0)),
        "I-003: channel target 'slack:channel:#general' is not covered by path_prefix \
         'slack:channel:#random'"
    );
    assert!(denied(&cap("slack:channel:", &[OpKind::FireC], 0)).contains("ttl"));
}

#[test]
fn fire_sends_what_is_permitted() {
    let record = TransportRecord {
        message_ts: "42.0".into(),
        diagnostic: serde_json::Value::from("fine"),
    };
    let transport = MockTransport::new()
        .with_responses(vec![Ok(record.clone()), Err(SlackError::Timeout)]);
    let mut a = Adapter::new(transport);
    let d = a.post_message("#general", "hi").expect("described");
    let good = cap("slack:channel:#general", &[OpKind::FireC], 60);
    let bad = cap("slack:channel:#other", &[OpKind::FireC], 60);

    let err = a.fire(&d, &bad).expect_err("not covered");
    assert!(matches!(err, ReelError::CapabilityViolation(_)));
    assert_eq!(a.transport().send_count(), 0, "a refused effect is not sent");

    assert_eq!(a.fire(&d, &good).expect("sent"), record);
    assert!(matches!(a.fire(&d, &good), Err(ReelError::EffectDrainTimeout)));
    let last = a.fire(&d, &good).expect("the script is over");
    assert_eq!(last.message_ts, "1700000000.000100");
    assert_eq!(last.diagnostic.get("http_status").and_then(|v| v.as_u64()), Some(200));
    assert_eq!(last.diagnostic.get("ok").and_then(|v| v.as_bool()), Some(true));
    let post = SlackOp::PostMessage { channel: "#general".into(), text: "hi".into() };
    assert_eq!(a.transport().captured(), vec![post.clone(), post.clone(), post]);
}

#[test]
fn transport_errors_map_to_protocol_errors() {
    assert!(matches!(
        settle_fire(Err(SlackError::CapabilityDenied("x".into()))),
        Err(ReelError::CapabilityViolation(m)) if m == "x"
    ));
    assert!(matches!(settle_fire(Err(SlackError::Timeout)), Err(ReelError::EffectDrainTimeout)));
    assert!(matches!(
        settle_fire(Err(SlackError::Api("no".into()))),
        Err(ReelError::Storage(m)) if m == "no"
    ));
    assert!(matches!(
        settle_fire(Err(SlackError::Codec("bad".into()))),
        Err(ReelError::Storage(m)) if m == "bad"
    ));
    assert_eq!(SlackError::Timeout.to_string(), "slack api timeout");
    assert_eq!(SlackError::Api("no".into()).to_string(), "slack api rejected request: no");
    assert_eq!(SlackError::Codec("x".into()).to_string(), "slack payload codec error: x");
    assert_eq!(
        SlackError::CapabilityDenied("x".into()).to_string(),
        "capability does not authorise this slack operation: x"
    );
}

#[test]
fn a_wider_capability_fires_what_a_narrower_one_does() {
    let op = SlackOp::PostMessage { channel: "#general".into(), text: "hi".into() };
    let wide = cap("slack:", &[OpKind::Read, OpKind::FireC], 100);
    let narrow = cap("slack:channel:#general", &[OpKind::FireC], 10);
    assert!(wide.covers(&narrow));
    assert!(Adapter::check_capability(&op, &narrow).is_ok());
    assert!(Adapter::check_capability(&op, &wide).is_ok());
}
