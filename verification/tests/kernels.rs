//! The kernel's verbs and the walking skeleton.

use reel::block::{content_hash, Block};
use reel::capability::{Capability, OpKind, OpSet};
use reel::delta::Op;
use reel::effect::{VersionKind, VersionRef};
use reel::effects::fake::{
    FakeAdapter, FakeAdapterEvent, FakeAdapterLog, FakeFsWrite, FakeSlackPost, FakeSlackUpdate,
};
use reel::error::ReelError;
use reel::kernel::Kernel;
use reel::skeleton::{build_delta_block, compute_effects_hash, SkeletonKernel};
use reel::status::Status;
use reel::store::mem::MemStore;
use reel::store::store_trait::Store;
use reel::view::View;

type Digest = reel::hash::Hash;

fn kernel() -> Kernel<MemStore> {
    Kernel::new(MemStore::new())
}

fn pending_hash() -> Digest {
    Digest::from_bytes(*blake3::hash(b"pending-effects-block").as_bytes())
}

fn put_op(name: &str) -> Op {
    Op::Put { name: name.to_owned(), hash: Digest::from_bytes([1u8; 32]) }
}

fn cap(prefix: &str, ops: &[OpKind], ttl: u64) -> Capability {
    Capability { path_prefix: prefix.to_owned(), op_set: OpSet::of(ops), ttl }
}

#[test]
fn kernel_holds_working_store() {
    let mut k = kernel();
    let block = Block::new(b"t-007 store wiring".to_vec()).expect("block");
    let hash = block.hash();
    k.store_mut().write_block(&block).expect("write_block");
    let got = k.store().raw_lookup_by_hash(&hash).expect("raw lookup");
    assert_eq!(got.hash(), hash, "store must round-trip the Block by content hash");
}

#[test]
fn fresh_store_not_recovered() {
    assert!(!kernel().store().was_recovered());
}

#[test]
fn kernel_debug_names_the_type() {
    let rendered = format!("{:?}", kernel());
    assert!(rendered.contains("Kernel"), "Debug must name the type: {rendered}");
}

#[test]
fn fork_accepts_attenuation() {
    let parent = View::root(vec![cap("/", &[OpKind::Read, OpKind::Write], 0)]);
    let mut k = kernel();
    let child = k
        .fork(&parent, vec![cap("/sub", &[OpKind::Read], 100)])
        .expect("attenuation is permitted");
    assert_eq!(child.parent, Some(parent.id), "child records its parent");
    assert!(child.is_active());
}

#[test]
fn fork_rejects_op_widening() {
    let parent = View::root(vec![cap("/a", &[OpKind::Read], 0)]);
    let mut k = kernel();
    let err = k
        .fork(&parent, vec![cap("/a", &[OpKind::Read, OpKind::Write], 0)])
        .expect_err("op-set widening must be rejected");
    assert!(matches!(err, ReelError::CapabilityViolation(_)), "E-009 on widening");
}

#[test]
fn fork_rejects_terminal_parent() {
    let mut parent = View::root(vec![]);
    parent.transition_to(Status::Committed).expect("Active to Committed");
    let mut k = kernel();
    let err = k.fork(&parent, vec![]).expect_err("terminal parent must reject fork");
    assert!(matches!(err, ReelError::ViewTerminal(Status::Committed)));
}

#[test]
fn fork_inherits_namespace_independently() {
    let mut parent = View::root(vec![]);
    parent.namespace.insert("main", Digest::from_bytes([7u8; 32]));
    let mut k = kernel();
    let mut child = k.fork(&parent, vec![]).expect("fork ok");
    assert_eq!(child.namespace, parent.namespace, "child inherits parent namespace");
    child.delta.ops.push(put_op("child-only.txt"));
    assert!(parent.delta.ops.is_empty(), "parent delta unaffected by child");
}

#[test]
fn fork_narrowing_matches_i003_rule() {
    let kinds: [&[OpKind]; 3] = [&[], &[OpKind::Read], &[OpKind::Read, OpKind::FireC]];
    for p_ops in kinds {
        for c_ops in kinds {
            for (p_ttl, c_ttl) in [(0u64, 0u64), (0, 9), (9, 0), (9, 9), (9, 10), (10, 9)] {
                for c_prefix in ["/a/b", "/x"] {
                    let parent = View::root(vec![cap("/a", p_ops, p_ttl)]);
                    let result = kernel().fork(&parent, vec![cap(c_prefix, c_ops, c_ttl)]);
                    let prefix_ok = c_prefix.starts_with("/a");
                    let ops_ok = c_ops.iter().all(|o| p_ops.contains(o));
                    let ttl_ok = match (p_ttl, c_ttl) {
                        (0, _) => true,
                        (_, 0) => false,
                        (p, c) => c <= p,
                    };
                    assert_eq!(result.is_ok(), prefix_ok && ops_ok && ttl_ok);
                }
            }
        }
    }
}

#[test]
fn abort_drops_effects_hash() {
    let mut v = View::root(vec![]);
    v.effects_hash = Some(pending_hash());
    let mut k = kernel();
    k.abort(&mut v).expect("Active to Aborted");
    assert!(v.effects_hash.is_none(), "pending-effects reference must be dropped");
    assert!(v.is_aborted(), "View must reach Aborted state");
}

#[test]
fn abort_clears_delta_ops() {
    let mut v = View::root(vec![]);
    v.delta.ops.push(put_op("a.txt"));
    v.delta.ops.push(put_op("b.txt"));
    assert_eq!(v.delta.ops.len(), 2);
    let mut k = kernel();
    k.abort(&mut v).expect("Active to Aborted");
    assert!(v.delta.ops.is_empty(), "delta ops must be cleared on abort");
}

#[test]
fn abort_is_synchronous() {
    let mut v = View::root(vec![]);
    let mut k = kernel();
    k.abort(&mut v).expect("ok");
    assert!(v.is_aborted());
}

#[test]
fn abort_rejects_committed_view() {
    let mut v = View::root(vec![]);
    v.transition_to(Status::Committed).expect("Active to Committed");
    let snapshot = v.clone();
    let mut k = kernel();
    let err = k.abort(&mut v).expect_err("committed View must reject abort");
    assert!(matches!(err, ReelError::ViewTerminal(Status::Committed)));
    assert_eq!(v, snapshot, "View must be unchanged after rejected abort");
}

#[test]
fn abort_rejects_already_aborted_view() {
    let mut v = View::root(vec![]);
    v.transition_to(Status::Aborted).expect("Active to Aborted");
    let snapshot = v.clone();
    let mut k = kernel();
    let err = k.abort(&mut v).expect_err("aborted View must reject re-abort");
    assert!(matches!(err, ReelError::ViewTerminal(Status::Aborted)));
    assert_eq!(v, snapshot, "View must be unchanged after rejected re-abort");
}

#[test]
fn i_002_no_class_c_reachable_after_abort() {
    let pending = pending_hash();
    let mut v = View::root(vec![]);
    v.effects_hash = Some(pending);
    assert_eq!(v.effects_hash, Some(pending), "precondition: effects buffered");
    let mut k = kernel();
    k.abort(&mut v).expect("ok");
    assert!(v.effects_hash.is_none(), "I-002: no path to drain Class C");
    assert!(v.is_aborted(), "I-002: drain gate also requires Active");
}

#[test]
fn i_002_no_resubmit_after_abort() {
    let mut v = View::root(vec![]);
    v.effects_hash = Some(pending_hash());
    let mut k = kernel();
    k.abort(&mut v).expect("ok");
    let err = k.abort(&mut v).expect_err("Aborted to Aborted is rejected");
    assert!(matches!(err, ReelError::ViewTerminal(Status::Aborted)));
    v.status = Status::Active;
    v.effects_hash = Some(pending_hash());
    k.abort(&mut v).expect("Active again to Aborted");
    assert!(v.is_aborted());
    assert!(v.effects_hash.is_none());
}

#[test]
fn abort_post_state_is_normal_form() {
    let mut a = View::root(vec![]);
    a.delta.ops.push(put_op("only-in-a"));
    a.effects_hash = Some(pending_hash());

    let mut b = View::root(vec![cap("/", &[OpKind::Read], 0)]);
    b.delta.ops.push(put_op("only-in-b-1"));
    b.delta.ops.push(put_op("only-in-b-2"));
    b.effects_hash = Some(Digest::from_bytes([0xAB; 32]));

    let mut k = kernel();
    k.abort(&mut a).expect("ok");
    k.abort(&mut b).expect("ok");
    for v in [&a, &b] {
        assert!(v.is_aborted());
        assert!(v.delta.ops.is_empty());
        assert!(v.effects_hash.is_none());
    }
}

// --- the walking skeleton ------------------------------------------------

fn version(value: &str) -> VersionRef {
    VersionRef { kind: VersionKind::Etag, value: value.to_owned() }
}

fn seeded() -> (SkeletonKernel, View) {
    let mut k = SkeletonKernel::new(MemStore::new());
    let base = Block::new(b"base".to_vec()).expect("small");
    k.write_block(&base).expect("write");
    k.seed_ref("main", base.hash()).expect("seed");
    let root = View::root(vec![cap("ws/", &[OpKind::Write, OpKind::FireB, OpKind::FireC], 0)]);
    let view = k.fork(&root, vec![]).expect("fork");
    (k, view)
}

#[test]
fn commit_fires_b_before_c_and_publishes() {
    let (mut k, mut view) = seeded();
    let mut adapter = FakeAdapter::new();
    let log = FakeAdapterLog::new(&mut adapter);
    let file = Block::new(b"contents".to_vec()).expect("small");
    k.write_block(&file).expect("write");
    let write = FakeFsWrite::new("ws/a.txt".into(), file.hash(), log.clone());
    k.submit_a(&mut view, write, &mut adapter).expect("submit_a");
    assert!(view.effects_hash.is_none(), "a pure local effect is never pending");
    k.submit_c(&mut view, FakeSlackPost::new("done".into(), log.clone())).expect("submit_c");
    let update = FakeSlackUpdate::new("card".into(), version("v1"), log.clone());
    k.submit_b(&mut view, update).expect("submit_b");
    assert_eq!(k.pending_count(view.id), 2);
    let effects = view.effects_hash.expect("pending effects are named");
    assert!(k.store().raw_lookup_by_hash(&effects).is_ok());
    assert!(!log.has_class_c_fired(&adapter));

    let expected = build_delta_block(&view.delta).expect("small").hash();
    let committed = k.commit(&mut view, "main", &mut adapter).expect("commit");
    assert_eq!(committed, expected);
    assert!(view.is_committed());
    assert!(view.effects_hash.is_none());
    assert_eq!(k.pending_count(view.id), 0);
    assert_eq!(k.namespace().get("main"), Some(committed));
    assert_eq!(k.namespace().get("__delta-put/ws/a.txt"), Some(file.hash()));
    assert!(k.reachable(&committed).expect("ok"));
    assert!(k.reachable(&file.hash()).expect("ok"));
    assert!(!k.reachable(&Digest::from_bytes([9; 32])).expect("ok"));
    assert_eq!(
        log.snapshot(&adapter),
        vec![
            FakeAdapterEvent::ClassAApplied { label: "fs.write(ws/a.txt)".into() },
            FakeAdapterEvent::ClassBFired {
                label: "slack.update(card)".into(),
                version_ref: version("v1")
            },
            FakeAdapterEvent::ClassCFired { label: "slack.post(done)".into() },
        ]
    );
}

#[test]
fn abort_fires_nothing() {
    let (mut k, mut view) = seeded();
    let mut adapter = FakeAdapter::new();
    let log = FakeAdapterLog::new(&mut adapter);
    k.submit_c(&mut view, FakeSlackPost::new("never".into(), log.clone())).expect("submit_c");
    assert_eq!(k.pending_count(view.id), 1);
    k.abort(&mut view).expect("abort");
    assert_eq!(k.pending_count(view.id), 0);
    assert!(view.is_aborted());
    assert!(view.effects_hash.is_none());
    let err = k.commit(&mut view, "main", &mut adapter).expect_err("aborted views do not commit");
    assert!(matches!(err, ReelError::ViewTerminal(Status::Aborted)));
    assert!(log.snapshot(&adapter).is_empty());
    assert_ne!(k.namespace().get("main"), None);
}

#[test]
fn ended_views_take_no_effects() {
    let (mut k, mut view) = seeded();
    let mut adapter = FakeAdapter::new();
    let log = FakeAdapterLog::new(&mut adapter);
    k.commit(&mut view, "main", &mut adapter).expect("commit");
    let h = Digest::from_bytes([1; 32]);
    assert!(matches!(
        k.submit_a(&mut view, FakeFsWrite::new("x".into(), h, log.clone()), &mut adapter),
        Err(ReelError::ViewTerminal(Status::Committed))
    ));
    assert!(matches!(
        k.submit_b(&mut view, FakeSlackUpdate::new("x".into(), version("v"), log.clone())),
        Err(ReelError::ViewTerminal(Status::Committed))
    ));
    assert!(matches!(
        k.submit_c(&mut view, FakeSlackPost::new("x".into(), log.clone())),
        Err(ReelError::ViewTerminal(Status::Committed))
    ));
    assert!(matches!(k.abort(&mut view), Err(ReelError::ViewTerminal(Status::Committed))));
    assert!(log.snapshot(&adapter).is_empty());
}

#[test]
fn seeding_needs_a_block_and_a_name() {
    let mut k = SkeletonKernel::new(MemStore::new());
    let missing = Digest::from_bytes([4; 32]);
    assert!(matches!(k.seed_ref("main", missing), Err(ReelError::BlockNotFound(h)) if h == missing));
    let b = Block::new(b"b".to_vec()).expect("small");
    k.write_block(&b).expect("write");
    match k.seed_ref("", b.hash()) {
        Err(ReelError::Storage(m)) => assert!(m.starts_with("seed_ref(): E-007 Storage: "), "{m}"),
        other => panic!("expected Storage, got {other:?}"),
    }
    assert!(k.namespace().is_empty());
}

#[test]
fn a_commit_with_a_pin_that_fails_does_nothing() {
    let (mut k, mut view) = seeded();
    let mut adapter = FakeAdapter::new();
    let log = FakeAdapterLog::new(&mut adapter);
    let file = Block::new(b"contents".to_vec()).expect("small");
    k.write_block(&file).expect("write");
    let missing = Digest::from_bytes([8; 32]);
    for (path, hash) in [("a", file.hash()), ("b", missing)] {
        let write = FakeFsWrite::new(path.into(), hash, log.clone());
        k.submit_a(&mut view, write, &mut adapter).expect("submit");
    }
    k.submit_c(&mut view, FakeSlackPost::new("x".into(), log.clone())).expect("submit_c");
    let seen = log.snapshot(&adapter);
    let effects = view.effects_hash;
    let main = k.namespace().get("main");
    match k.commit(&mut view, "main", &mut adapter) {
        Err(ReelError::Storage(m)) => assert_eq!(
            m,
            format!("commit pin __delta-put/b: E-001 BlockNotFound: {}", missing.to_hex())
        ),
        other => panic!("expected Storage, got {other:?}"),
    }
    assert!(view.is_active(), "the view stays as it was");
    assert_eq!(view.effects_hash, effects);
    assert_eq!(log.snapshot(&adapter), seen);
    assert_eq!(k.pending_count(view.id), 1);
    assert_eq!(k.namespace().get("main"), main);
    assert_eq!(k.namespace().get("__delta-put/a"), None);
    let delta = build_delta_block(&view.delta).expect("small");
    assert!(k.store().raw_lookup_by_hash(&delta.hash()).is_err());

    view.delta.ops.pop();
    k.commit(&mut view, "main", &mut adapter).expect("the commit can be made good");
    assert!(log.has_class_c_fired(&adapter));
}

#[test]
fn a_commit_under_a_bad_name_does_nothing() {
    let mut k = SkeletonKernel::new(MemStore::new());
    let mut view = View::root(vec![]);
    let mut adapter = FakeAdapter::new();
    let log = FakeAdapterLog::new(&mut adapter);
    k.submit_c(&mut view, FakeSlackPost::new("x".into(), log.clone())).expect("submit_c");
    match k.commit(&mut view, "", &mut adapter) {
        Err(ReelError::Storage(m)) => assert!(m.starts_with("commit put_ref(): E-007"), "{m}"),
        other => panic!("expected Storage, got {other:?}"),
    }
    assert!(!log.has_class_c_fired(&adapter));
    assert!(view.is_active());
    assert_eq!(k.pending_count(view.id), 1);
    assert!(k.namespace().is_empty());
    k.abort(&mut view).expect("abort");
    assert!(log.snapshot(&adapter).is_empty(), "an aborted view never fired");
}

#[test]
fn an_oversize_commit_does_nothing() {
    let (mut k, mut view) = seeded();
    let mut adapter = FakeAdapter::new();
    let log = FakeAdapterLog::new(&mut adapter);
    k.submit_c(&mut view, FakeSlackPost::new("x".into(), log.clone())).expect("submit_c");
    view.delta.ops.push(Op::Remove { name: "n".repeat(reel::block::MAX_BLOCK_SIZE) });
    match k.commit(&mut view, "main", &mut adapter) {
        Err(ReelError::Storage(_)) => {}
        other => panic!("expected Storage, got {other:?}"),
    }
    assert!(view.is_active());
    assert_eq!(k.pending_count(view.id), 1);
    assert!(log.snapshot(&adapter).is_empty());
}

#[test]
fn a_refused_submission_leaves_nothing_pending() {
    let (mut k, mut view) = seeded();
    let mut adapter = FakeAdapter::new();
    let log = FakeAdapterLog::new(&mut adapter);
    let huge = "n".repeat(reel::block::MAX_BLOCK_SIZE);
    let big_post = FakeSlackPost::new(huge.clone(), log.clone());
    assert!(matches!(k.submit_c(&mut view, big_post), Err(ReelError::Storage(_))));
    assert_eq!(k.pending_count(view.id), 0);
    assert!(view.effects_hash.is_none());
    k.submit_c(&mut view, FakeSlackPost::new("kept".into(), log.clone())).expect("submit_c");
    let effects = view.effects_hash;
    let big_update = FakeSlackUpdate::new("u".into(), version(&huge), log.clone());
    assert!(matches!(k.submit_b(&mut view, big_update), Err(ReelError::Storage(_))));
    assert_eq!(k.pending_count(view.id), 1);
    assert_eq!(view.effects_hash, effects);
    k.commit(&mut view, "main", &mut adapter).expect("commit");
    assert_eq!(
        log.snapshot(&adapter),
        vec![FakeAdapterEvent::ClassCFired { label: "slack.post(kept)".into() }]
    );
}

#[test]
fn effects_digest_follows_the_descriptors() {
    let (mut k, mut view) = seeded();
    let log = FakeAdapterLog::new(&mut FakeAdapter::new());
    k.submit_c(&mut view, FakeSlackPost::new("one".into(), log.clone())).expect("submit_c");
    let first = view.effects_hash.expect("named");
    k.submit_c(&mut view, FakeSlackPost::new("two".into(), log.clone())).expect("submit_c");
    let second = view.effects_hash.expect("named");
    assert_ne!(first, second);
    let payload = k.store().raw_get_payload(&second).expect("ok").expect("stored");
    assert_eq!(content_hash(&payload), second);
    let empty = compute_effects_hash(&vec![]).expect("small");
    assert_eq!(empty, content_hash(&[0x80]), "an empty list is one byte");
}

#[test]
fn a_second_commit_fires_nothing() {
    let (mut k, mut view) = seeded();
    let mut adapter = FakeAdapter::new();
    let log = FakeAdapterLog::new(&mut adapter);
    k.submit_c(&mut view, FakeSlackPost::new("once".into(), log.clone())).expect("submit_c");
    k.commit(&mut view, "main", &mut adapter).expect("commit");
    let seen = log.snapshot(&adapter);
    assert_eq!(seen.len(), 1);
    let before = k.namespace().get("main");
    let err = k.commit(&mut view, "other", &mut adapter).expect_err("committed views have ended");
    assert!(matches!(err, ReelError::ViewTerminal(Status::Committed)));
    assert_eq!(log.snapshot(&adapter), seen);
    assert_eq!(k.namespace().get("main"), before);
    assert_eq!(k.namespace().get("other"), None);
}

#[test]
fn views_keep_their_effects_apart() {
    let (mut k, mut first) = seeded();
    let mut second = View::root(vec![]);
    let mut adapter = FakeAdapter::new();
    let log = FakeAdapterLog::new(&mut adapter);
    k.submit_c(&mut first, FakeSlackPost::new("kept".into(), log.clone())).expect("submit_c");
    k.submit_c(&mut second, FakeSlackPost::new("dropped".into(), log.clone())).expect("submit_c");
    k.abort(&mut second).expect("abort");
    assert_eq!(k.pending_count(first.id), 1);
    k.commit(&mut first, "main", &mut adapter).expect("commit");
    assert_eq!(
        log.snapshot(&adapter),
        vec![FakeAdapterEvent::ClassCFired { label: "slack.post(kept)".into() }]
    );
}
