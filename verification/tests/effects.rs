//! The effect classes, narrowing, markers and the fake adapter.

use reel::capability::{Capability as Granted, OpKind, OpSet};
use reel::delta::{Mutation, Op};
use reel::drain::{Drain, DrainStep};
use reel::effect::{VersionKind, VersionRef};
use reel::effects::boxed::BoxedA;
use reel::effects::capability::{Capability, NarrowArgs};
use reel::effects::class_a::ClassA;
use reel::effects::class_b::PreconditionCtx;
use reel::effects::fake::{
    FakeAdapter, FakeAdapterEvent, FakeAdapterLog, FakeFsWrite, FakeSlackPost, FakeSlackUpdate,
};
use reel::effects::fire_capability::FireCapability;
use reel::effects::marker::{
    check_args, expand, expand_source, Class, ItemShape, RefusedPart,
};
use reel::effects::receipt::EffectReceipt;
use reel::effects::sealed::Sealed;
use reel::error::ReelError;

type Digest = reel::hash::Hash;

fn granted(prefix: &str, ops: &[OpKind], ttl: u64) -> Capability {
    Capability::from_kernel(Granted { path_prefix: prefix.into(), op_set: OpSet::of(ops), ttl })
}

fn root_cap() -> Capability {
    granted(
        "ws/",
        &[OpKind::Read, OpKind::Write, OpKind::Delete, OpKind::FireB, OpKind::FireC],
        3600,
    )
}

// --- narrowing -----------------------------------------------------------

#[test]
fn narrow_prefix_valid() {
    let root = root_cap();
    let sub = root
        .narrow(NarrowArgs { path_prefix: Some("ws/docs/".into()), op_set: None, ttl: None })
        .unwrap_or_else(|e| panic!("valid prefix narrowing failed: {e:?}"));
    assert_eq!(sub.inner().path_prefix, "ws/docs/");
}

#[test]
fn narrow_op_set_valid() {
    let root = root_cap();
    let sub = root
        .narrow(NarrowArgs {
            path_prefix: None,
            op_set: Some(OpSet::of(&[OpKind::Read])),
            ttl: None,
        })
        .unwrap_or_else(|e| panic!("valid op_set narrowing failed: {e:?}"));
    assert_eq!(sub.inner().op_set, OpSet::of(&[OpKind::Read]));
}

#[test]
fn narrow_ttl_valid() {
    let root = root_cap();
    let sub = root
        .narrow(NarrowArgs { path_prefix: None, op_set: None, ttl: Some(600) })
        .unwrap_or_else(|e| panic!("valid ttl narrowing failed: {e:?}"));
    assert_eq!(sub.inner().ttl, 600);
}

#[test]
fn narrow_all_fields() {
    let root = root_cap();
    let sub = root
        .narrow(NarrowArgs {
            path_prefix: Some("ws/docs/".into()),
            op_set: Some(OpSet::of(&[OpKind::Read, OpKind::Write])),
            ttl: Some(1800),
        })
        .unwrap_or_else(|e| panic!("all-field narrowing failed: {e:?}"));
    assert_eq!(sub.inner().path_prefix, "ws/docs/");
    assert_eq!(sub.inner().op_set, OpSet::of(&[OpKind::Read, OpKind::Write]));
    assert_eq!(sub.inner().ttl, 1800);
}

#[test]
fn reject_prefix_amplification() {
    let parent = granted("ws/docs/", &[OpKind::Read], 60);
    let err = parent.narrow(NarrowArgs {
        path_prefix: Some("ws/".into()),
        op_set: None,
        ttl: None,
    });
    assert!(
        matches!(err, Err(ReelError::CapabilityViolation(_))),
        "expected E-009, got {err:?}"
    );
}

#[test]
fn reject_op_set_amplification() {
    let parent = granted("/", &[OpKind::Read], 60);
    let err = parent.narrow(NarrowArgs {
        path_prefix: None,
        op_set: Some(OpSet::of(&[OpKind::Read, OpKind::Write])),
        ttl: None,
    });
    assert!(
        matches!(err, Err(ReelError::CapabilityViolation(_))),
        "expected E-009, got {err:?}"
    );
}

#[test]
fn reject_ttl_amplification() {
    let parent = granted("/", &[OpKind::Read], 60);
    let err = parent.narrow(NarrowArgs { path_prefix: None, op_set: None, ttl: Some(120) });
    assert!(
        matches!(err, Err(ReelError::CapabilityViolation(_))),
        "expected E-009, got {err:?}"
    );
}

#[test]
fn unbounded_ttl_allows_any_narrowing() {
    let parent = granted("/", &[OpKind::Read], 0);
    let sub = parent
        .narrow(NarrowArgs { path_prefix: None, op_set: None, ttl: Some(999_999) })
        .unwrap_or_else(|e| panic!("unbounded-parent ttl narrowing failed: {e:?}"));
    assert_eq!(sub.inner().ttl, 999_999);
}

#[test]
fn narrow_keeps_same_prefix_is_valid() {
    let root = root_cap();
    let sub = root
        .narrow(NarrowArgs { path_prefix: Some("ws/".into()), op_set: None, ttl: None })
        .unwrap_or_else(|e| panic!("same-prefix narrowing failed: {e:?}"));
    assert_eq!(sub.inner().path_prefix, "ws/");
}

#[test]
fn empty_op_set_is_valid_narrowing() {
    let root = root_cap();
    let sub = root
        .narrow(NarrowArgs { path_prefix: None, op_set: Some(OpSet::new()), ttl: None })
        .unwrap_or_else(|e| panic!("empty op_set narrowing failed: {e:?}"));
    assert!(sub.inner().op_set.is_empty());
}

#[test]
fn unbounded_child_of_bounded_parent_is_refused() {
    let parent = granted("/", &[OpKind::Read], 60);
    match parent.narrow(NarrowArgs { path_prefix: None, op_set: None, ttl: Some(0) }) {
        Err(ReelError::CapabilityViolation(m)) => {
            assert_eq!(m, "I-003 violation: requested ttl 0 exceeds parent ttl 60");
        }
        other => panic!("expected E-009, got {other:?}"),
    }
}

#[test]
fn narrow_happy_path() {
    let root = granted("/", &[OpKind::Read, OpKind::Write], 3600);
    let child = root
        .narrow(NarrowArgs {
            path_prefix: Some("/docs/".into()),
            op_set: Some(OpSet::of(&[OpKind::Read])),
            ttl: Some(600),
        })
        .unwrap_or_else(|e| panic!("valid narrowing failed: {e:?}"));
    assert_eq!(child.inner().path_prefix, "/docs/");
    assert_eq!(child.inner().ttl, 600);
}

#[test]
fn narrow_rejects_op_amplification() {
    let parent = granted("/", &[OpKind::Read], 60);
    let err = parent.narrow(NarrowArgs {
        path_prefix: None,
        op_set: Some(OpSet::of(&[OpKind::Read, OpKind::Delete])),
        ttl: None,
    });
    assert!(matches!(err, Err(ReelError::CapabilityViolation(_))), "expected E-009");
}

// --- pure local effects --------------------------------------------------

struct TestPutEffect {
    name: String,
    hash: Digest,
}

impl Sealed for TestPutEffect {}

impl ClassA for TestPutEffect {
    type Witness = ();

    fn mutation(&self) -> Mutation {
        unreachable!("ghost code never runs")
    }

    fn witnessed(&self, _before: (), _after: ()) -> bool {
        unreachable!("ghost code never runs")
    }

    fn apply(&self, _witness: &mut ()) -> Op {
        Op::Put { name: self.name.clone(), hash: self.hash }
    }
}

struct TestRemoveEffect {
    name: String,
}

impl Sealed for TestRemoveEffect {}

impl ClassA for TestRemoveEffect {
    type Witness = ();

    fn mutation(&self) -> Mutation {
        unreachable!("ghost code never runs")
    }

    fn witnessed(&self, _before: (), _after: ()) -> bool {
        unreachable!("ghost code never runs")
    }

    fn apply(&self, _witness: &mut ()) -> Op {
        Op::Remove { name: self.name.clone() }
    }
}

#[test]
fn class_a_produces_put_op() {
    let h = Digest::from_bytes([42u8; 32]);
    let eff = TestPutEffect { name: "docs/readme.md".into(), hash: h };
    let op = eff.apply(&mut ());
    assert!(
        matches!(op, Op::Put { ref name, .. } if name == "docs/readme.md"),
        "expected Put op, got {op:?}"
    );
}

#[test]
fn class_a_produces_remove_op() {
    let eff = TestRemoveEffect { name: "old.txt".into() };
    let op = eff.apply(&mut ());
    assert!(
        matches!(op, Op::Remove { ref name } if name == "old.txt"),
        "expected Remove op, got {op:?}"
    );
}

#[test]
fn boxed_a_apply() {
    let h = Digest::from_bytes([1u8; 32]);
    let boxed = BoxedA::new(TestPutEffect { name: "x.txt".into(), hash: h });
    let op = boxed.apply(&mut ());
    assert!(matches!(op, Op::Put { .. }));
}

struct CountedEffect;

impl Sealed for CountedEffect {}

impl ClassA for CountedEffect {
    type Witness = u32;

    fn mutation(&self) -> Mutation {
        unreachable!("ghost code never runs")
    }

    fn witnessed(&self, _before: u32, _after: u32) -> bool {
        unreachable!("ghost code never runs")
    }

    fn apply(&self, count: &mut u32) -> Op {
        *count += 1;
        Op::Remove { name: format!("run {count}") }
    }
}

#[test]
fn a_boxed_effect_runs_once_per_apply() {
    let boxed = BoxedA::new(CountedEffect);
    let mut count = 0;
    for n in 1..4u32 {
        assert_eq!(boxed.apply(&mut count), Op::Remove { name: format!("run {n}") });
        assert_eq!(count, n);
    }
    assert_eq!(boxed.debug_string(), "BoxedA { .. }");
}

#[test]
fn a_boxed_write_leaves_one_event_per_apply() {
    let mut adapter = FakeAdapter::new();
    let log = FakeAdapterLog::new(&mut adapter);
    let h = Digest::from_bytes([5u8; 32]);
    let boxed = BoxedA::new(FakeFsWrite::new("a.txt".into(), h, log.clone()));
    assert!(log.snapshot(&adapter).is_empty(), "boxing applies nothing");
    for n in 1..3usize {
        assert_eq!(boxed.apply(&mut adapter), Op::Put { name: "a.txt".into(), hash: h });
        assert_eq!(log.snapshot(&adapter).len(), n);
    }
}

#[test]
fn effect_receipt_fields() {
    let receipt = EffectReceipt {
        effect_id: 7,
        version_ref_after: Some(VersionRef {
            kind: VersionKind::CommitSha,
            value: "abc123".into(),
        }),
        adapter_diagnostic: serde_json::Value::from(true),
    };
    assert_eq!(receipt.effect_id, 7);
    assert!(receipt.version_ref_after.is_some());
}

// --- declaring effects ---------------------------------------------------

struct MacroPutEffect {
    name: String,
    hash: Digest,
}

impl Sealed for MacroPutEffect {}

impl ClassA for MacroPutEffect {
    type Witness = ();

    fn mutation(&self) -> Mutation {
        unreachable!("ghost code never runs")
    }

    fn witnessed(&self, _before: (), _after: ()) -> bool {
        unreachable!("ghost code never runs")
    }

    fn apply(&self, _witness: &mut ()) -> Op {
        Op::Put { name: self.name.clone(), hash: self.hash }
    }
}

#[test]
fn macro_class_a_round_trips_via_apply() {
    let eff = MacroPutEffect { name: "macros.txt".into(), hash: Digest::from_bytes([7u8; 32]) };
    let op = eff.apply(&mut ());
    assert!(
        matches!(op, Op::Put { ref name, .. } if name == "macros.txt"),
        "expected Put op, got {op:?}"
    );
    let added = expand(Class::A, ItemShape::Struct, "MacroPutEffect", false).expect("accepted");
    assert_eq!(added.sealed_type, "MacroPutEffect");
    assert_eq!(added.marker, "__REEL_EFFECT_CLASS_A__MacroPutEffect");
    assert_eq!(added.letter, "A");
}

#[test]
fn a_post_is_described_and_its_class_marked() {
    let mut adapter = FakeAdapter::new();
    let log = FakeAdapterLog::new(&mut adapter);
    let desc = FakeSlackPost::new("#general: ship it".into(), log).describe();
    assert_eq!(desc.get("label").and_then(|v| v.as_str()), Some("#general: ship it"));
    assert_eq!(desc.get("class").and_then(|v| v.as_str()), Some("C"));
    let added = expand(Class::C, ItemShape::Struct, "MacroSlackPost", false).expect("accepted");
    assert_eq!(added.marker, "__REEL_EFFECT_CLASS_C__MacroSlackPost");
    assert_eq!(added.letter, "C");
}

#[test]
fn declarations_are_refused_part_by_part() {
    let e = check_args(Class::B, false).expect_err("arguments are refused");
    assert_eq!(e.part, RefusedPart::Args);
    assert_eq!(
        e.message,
        "#[reel::class_b] does not accept attribute arguments (got: see invocation site)"
    );
    assert!(check_args(Class::B, true).is_ok());
    let e = expand(Class::A, ItemShape::Other, "f", false).expect_err("no function");
    assert_eq!(e.part, RefusedPart::Item);
    assert_eq!(e.message, "#[reel::class_a] may only be applied to a struct or enum");
    let e = expand(Class::C, ItemShape::Enum, "E", true).expect_err("no generics");
    assert_eq!(e.part, RefusedPart::Generics);
    assert!(e.message.starts_with("#[reel::class_c] does not currently support generic"));
    assert_ne!(Class::A.marker_ident_for("X"), Class::B.marker_ident_for("X"));
}

#[test]
fn declarations_are_read_from_source() {
    let x = expand_source(Class::A, true, "pub struct MacroPutEffect { name: String }")
        .expect("a struct");
    assert_eq!(
        x.source(),
        "#[doc(hidden)] impl ::reel_effects::__private::Sealed for MacroPutEffect {} \
         #[doc(hidden)] #[allow(non_upper_case_globals, reason = \"compiler-generated drift \
         marker\")] const __REEL_EFFECT_CLASS_A__MacroPutEffect: &str = \"A\";"
    );
    let x = expand_source(Class::B, true, "enum E { One, Two }").expect("an enum");
    assert_eq!((x.sealed_type.as_str(), x.letter), ("E", "B"));
    let part = |args_empty: bool, item: &str| -> RefusedPart {
        expand_source(Class::C, args_empty, item).expect_err("refused").part
    };
    assert_eq!(part(false, "struct S;"), RefusedPart::Args);
    assert_eq!(part(true, "struct S<T>(T);"), RefusedPart::Generics);
    assert_eq!(part(true, "fn f() {}"), RefusedPart::Item);
    assert_eq!(part(true, "struct S; struct T;"), RefusedPart::Source);
    assert_eq!(part(true, "struct"), RefusedPart::Source);
}

#[test]
fn fire_capability_new_only_pub_crate() {
    let cap = FireCapability::new();
    assert_eq!(cap.debug_string(), "FireCapability { .. }");
}

// --- the fake adapter ----------------------------------------------------

#[test]
fn fake_effects_write_to_the_log() {
    let mut adapter = FakeAdapter::new();
    let log = FakeAdapterLog::new(&mut adapter);
    let cap = FireCapability::new_for_skeleton();
    let version = VersionRef { kind: VersionKind::Etag, value: "e1".into() };
    let write = FakeFsWrite::new("a.txt".into(), Digest::from_bytes([5u8; 32]), log.clone());
    assert!(matches!(write.apply(&mut adapter), Op::Put { ref name, .. } if name == "a.txt"));

    let update = FakeSlackUpdate::new("m1".into(), version.clone(), log.clone());
    assert!(update.assert_precondition(&PreconditionCtx { drain_budget_ms: 0 }).is_ok());
    assert_eq!(update.version_ref(), version);
    let receipt = update.fire(&cap, &mut adapter).expect("fires");
    assert_eq!(receipt.version_ref_after, Some(version.clone()));
    assert_eq!(receipt.adapter_diagnostic.get("class").and_then(|v| v.as_str()), Some("B"));
    assert!(!log.has_class_c_fired(&adapter));

    let post = FakeSlackPost::new("hi".into(), log.clone());
    let receipt = post.fire(&cap, &mut adapter).expect("fires");
    assert_eq!(receipt.version_ref_after, None);
    assert_eq!(receipt.adapter_diagnostic.get("fake").and_then(|v| v.as_bool()), Some(true));
    assert!(log.has_class_c_fired(&adapter));
    assert_eq!(
        log.snapshot(&adapter),
        vec![
            FakeAdapterEvent::ClassAApplied { label: "fs.write(a.txt)".into() },
            FakeAdapterEvent::ClassBFired {
                label: "slack.update(m1)".into(),
                version_ref: version
            },
            FakeAdapterEvent::ClassCFired { label: "slack.post(hi)".into() },
        ]
    );
}

#[test]
fn clones_of_a_log_share_it_and_other_logs_do_not() {
    let event = |label: &str| FakeAdapterEvent::ClassCFired { label: label.into() };
    let mut adapter = FakeAdapter::default();
    let log = FakeAdapterLog::new(&mut adapter);
    let other = FakeAdapterLog::new(&mut adapter);
    assert!(log.snapshot(&adapter).is_empty());
    let twin = log.clone();
    log.append(&mut adapter, event("one"));
    twin.append(&mut adapter, event("two"));
    assert_eq!(log.snapshot(&adapter), vec![event("one"), event("two")]);
    assert_eq!(twin.snapshot(&adapter), log.snapshot(&adapter));
    assert!(other.snapshot(&adapter).is_empty());
    assert!(!other.has_class_c_fired(&adapter));
    let late = FakeAdapterLog::new(&mut adapter);
    assert!(late.snapshot(&adapter).is_empty());
}

#[test]
fn drain_fires_b_then_c_and_stops_on_failure() {
    let mut d = Drain::new(2, 1);
    assert_eq!(d.next(), DrainStep::FireB(0));
    d.record(true);
    assert_eq!(d.next(), DrainStep::FireB(1));
    d.record(true);
    assert_eq!(d.next(), DrainStep::FireC(0));
    d.record(true);
    assert_eq!(d.next(), DrainStep::Publish);

    let mut d = Drain::new(1, 1);
    d.record(false);
    assert_eq!(d.next(), DrainStep::Stop);
}
