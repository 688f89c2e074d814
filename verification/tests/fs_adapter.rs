//! The filesystem adapter.

use reel::adapters::fs::{
    authorise, decide_put, resolve, settle_remove, stays_within, ApplyOutcome, ApplyStep,
    EffectClass, FsAdapter, FsAdapterError, FsPut, FsRemove, Removal, RootState,
};
use reel::block::Block;
use reel::capability::{Capability, OpKind, OpSet};
use reel::delta::{Delta, Op};
use reel::effects::class_a::ClassA;
use reel::error::ReelError;
use std::collections::BTreeMap;

type Digest = reel::hash::Hash;

fn cap(prefix: &str, ops: &[OpKind], ttl: u64) -> Capability {
    Capability { path_prefix: prefix.to_owned(), op_set: OpSet::of(ops), ttl }
}

fn full_cap(prefix: &str) -> Capability {
    cap(prefix, &[OpKind::Read, OpKind::Write, OpKind::Delete], 3600)
}

fn read_only_cap(prefix: &str) -> Capability {
    cap(prefix, &[OpKind::Read], 3600)
}

fn make_block(data: &[u8]) -> Block {
    Block::new(data.to_vec()).expect("small payload")
}

fn rooted() -> FsAdapter {
    FsAdapter::with_root("ws/", "/srv/root", RootState::Directory).expect("ok")
}

fn delta(ops: Vec<Op>) -> Delta {
    Delta { base_hash: Digest::from_bytes([0u8; 32]), ops }
}

/// Applies a delta to files in memory, step by step.
fn run(
    adapter: &FsAdapter,
    d: &Delta,
    c: &Capability,
    blocks: &[Block],
    disk: &mut BTreeMap<String, Vec<u8>>,
) -> Result<Vec<ApplyOutcome>, FsAdapterError> {
    let mut run = adapter.apply_delta(d, c)?;
    loop {
        match run.next()? {
            ApplyStep::Done => return Ok(run.finish()),
            ApplyStep::Put { path, hash } => {
                let on_disk = disk.get(&path).cloned();
                let block = blocks.iter().find(|b| b.hash() == hash);
                let outcome = decide_put(&path, &hash, block, &on_disk)?;
                if outcome == ApplyOutcome::Changed {
                    disk.insert(path, block.expect("decided").data.to_vec());
                }
                run.record(outcome);
            }
            ApplyStep::Remove { path } => {
                let answer = match disk.remove(&path) {
                    Some(_) => Removal::Removed,
                    None => Removal::Missing,
                };
                run.record(settle_remove(answer)?);
            }
        }
    }
}

#[test]
fn empty_scope_rejected() {
    let err = FsAdapter::new("").expect_err("must reject");
    assert!(matches!(err, FsAdapterError::CapabilityViolation(_)));
}

#[test]
fn new_holds_scope() {
    let adapter = FsAdapter::new("ws/").expect("ok");
    assert_eq!(adapter.scope(), "ws/");
    assert!(adapter.root().is_none());
}

#[test]
fn with_root_requires_directory() {
    let err = FsAdapter::with_root("ws/", "/srv/file", RootState::NotDirectory)
        .expect_err("must reject file");
    assert!(matches!(err, FsAdapterError::Io(_)), "expected Io, got {err:?}");
    assert_eq!(err.to_string(), "E-007 Storage: root /srv/file is not a directory");
    let err = FsAdapter::with_root("ws/", "/srv/x", RootState::Unavailable("gone".into()))
        .expect_err("must reject");
    assert_eq!(err.to_string(), "E-007 Storage: root /srv/x: gone");
    let err = FsAdapter::with_root("", "/srv/x", RootState::Directory).expect_err("must reject");
    assert!(matches!(err, FsAdapterError::CapabilityViolation(_)));
    assert_eq!(rooted().root(), Some("/srv/root"));
}

#[test]
fn classify_always_class_a() {
    let adapter = FsAdapter::new("ws/").expect("ok");
    let put = Op::Put { name: "ws/x".into(), hash: Digest::from_bytes([0u8; 32]) };
    assert_eq!(adapter.classify(&put), EffectClass::A);
    let rm = Op::Remove { name: "ws/y".into() };
    assert_eq!(adapter.classify(&rm), EffectClass::A);
}

#[test]
fn i003_path_prefix_violation_put() {
    let adapter = rooted();
    let block = make_block(b"data");
    let d = delta(vec![Op::Put { name: "other/escape.txt".into(), hash: block.hash() }]);
    let err = adapter.apply_delta(&d, &full_cap("ws/")).expect_err("must reject");
    assert!(matches!(err, FsAdapterError::CapabilityViolation(_)), "expected E-009, got {err:?}");
}

#[test]
fn i003_path_prefix_violation_remove() {
    let adapter = rooted();
    let d = delta(vec![Op::Remove { name: "outside/file.txt".into() }]);
    let err = adapter.apply_delta(&d, &full_cap("ws/")).expect_err("must reject");
    assert!(matches!(err, FsAdapterError::CapabilityViolation(_)), "expected E-009, got {err:?}");
}

#[test]
fn i003_op_set_violation_write_missing() {
    let adapter = rooted();
    let block = make_block(b"data");
    let d = delta(vec![Op::Put { name: "ws/file.txt".into(), hash: block.hash() }]);
    let err = adapter.apply_delta(&d, &read_only_cap("ws/")).expect_err("must reject");
    assert!(matches!(err, FsAdapterError::CapabilityViolation(_)), "expected E-009, got {err:?}");
}

#[test]
fn i003_op_set_violation_delete_missing() {
    let adapter = rooted();
    let d = delta(vec![Op::Remove { name: "ws/file.txt".into() }]);
    let c = cap("ws/", &[OpKind::Read, OpKind::Write], 3600);
    let err = adapter.apply_delta(&d, &c).expect_err("must reject");
    assert!(matches!(err, FsAdapterError::CapabilityViolation(_)), "expected E-009, got {err:?}");
}

#[test]
fn i003_positive_write_succeeds() {
    let adapter = rooted();
    let block = make_block(b"hello reel");
    let d = delta(vec![Op::Put { name: "ws/greeting.txt".into(), hash: block.hash() }]);
    let mut disk = BTreeMap::new();
    let outcomes = run(&adapter, &d, &full_cap("ws/"), &[block], &mut disk).expect("must apply");
    assert_eq!(outcomes, vec![ApplyOutcome::Changed]);
    assert_eq!(disk["ws/greeting.txt"], b"hello reel");
}

#[test]
fn idempotency_identical_content_is_unchanged() {
    let adapter = rooted();
    let block = make_block(b"payload v1");
    let d = delta(vec![Op::Put { name: "ws/a.txt".into(), hash: block.hash() }]);
    let c = full_cap("ws/");
    let blocks = [block];
    let mut disk = BTreeMap::new();
    let first = run(&adapter, &d, &c, &blocks, &mut disk).expect("first ok");
    assert_eq!(first, vec![ApplyOutcome::Changed]);
    let second = run(&adapter, &d, &c, &blocks, &mut disk).expect("second ok");
    assert_eq!(
        second,
        vec![ApplyOutcome::Unchanged],
        "second apply must be a no-op (content idempotent)"
    );
    assert_eq!(disk["ws/a.txt"], b"payload v1");
}

#[test]
fn idempotency_changed_content_overwrites() {
    let adapter = rooted();
    let c = full_cap("ws/");
    let v1 = make_block(b"version 1");
    let v2 = make_block(b"version 2");
    let put_v1 = delta(vec![Op::Put { name: "ws/file".into(), hash: v1.hash() }]);
    let put_v2 = delta(vec![Op::Put { name: "ws/file".into(), hash: v2.hash() }]);
    let blocks = [v1, v2];
    let mut disk = BTreeMap::new();
    run(&adapter, &put_v1, &c, &blocks, &mut disk).expect("v1 ok");
    let outcomes = run(&adapter, &put_v2, &c, &blocks, &mut disk).expect("v2 ok");
    assert_eq!(outcomes, vec![ApplyOutcome::Changed]);
    assert_eq!(disk["ws/file"], b"version 2");
}

#[test]
fn remove_missing_file_is_unchanged() {
    let adapter = rooted();
    let d = delta(vec![Op::Remove { name: "ws/never_existed.txt".into() }]);
    let mut disk = BTreeMap::new();
    let outcomes = run(&adapter, &d, &full_cap("ws/"), &[], &mut disk).expect("ok");
    assert_eq!(outcomes, vec![ApplyOutcome::Unchanged]);
}

#[test]
fn remove_existing_file_is_changed() {
    let adapter = rooted();
    let block = make_block(b"to be removed");
    let put = delta(vec![Op::Put { name: "ws/doomed".into(), hash: block.hash() }]);
    let mut disk = BTreeMap::new();
    run(&adapter, &put, &full_cap("ws/"), &[block], &mut disk).expect("put ok");
    let rm = delta(vec![Op::Remove { name: "ws/doomed".into() }]);
    let outcomes = run(&adapter, &rm, &full_cap("ws/"), &[], &mut disk).expect("remove ok");
    assert_eq!(outcomes, vec![ApplyOutcome::Changed]);
    assert!(!disk.contains_key("ws/doomed"));
}

#[test]
fn rejects_parent_dir_traversal() {
    let adapter = rooted();
    let block = make_block(b"x");
    let c = cap("ws/", &[OpKind::Write], 60);
    let d = delta(vec![Op::Put { name: "ws/../escape.txt".into(), hash: block.hash() }]);
    let mut disk = BTreeMap::new();
    let err = run(&adapter, &d, &c, &[block], &mut disk).expect_err("must reject");
    assert!(
        matches!(err, FsAdapterError::NamespaceEscape(_)),
        "expected namespace escape, got {err:?}"
    );
    assert!(disk.is_empty());
}

#[test]
fn rejects_absolute_path() {
    let adapter = rooted();
    let mut disk = BTreeMap::new();
    let d = delta(vec![Op::Remove { name: "ws/whatever".into() }]);
    run(&adapter, &d, &full_cap("ws/"), &[], &mut disk).expect("ok");
    let wide = cap("/", &[OpKind::Delete, OpKind::Write], 60);
    let escape = delta(vec![Op::Remove { name: "/etc/passwd".into() }]);
    let err = run(&adapter, &escape, &wide, &[], &mut disk).expect_err("must reject");
    assert!(
        matches!(err, FsAdapterError::NamespaceEscape(_)),
        "expected namespace escape, got {err:?}"
    );
}

#[test]
fn no_root_empty_delta_ok() {
    let adapter = FsAdapter::new("ws/").expect("ok");
    let d = delta(vec![]);
    let mut disk = BTreeMap::new();
    let outcomes = run(&adapter, &d, &full_cap("ws/"), &[], &mut disk).expect("ok");
    assert!(outcomes.is_empty());
}

#[test]
fn no_root_non_empty_delta_errors() {
    let adapter = FsAdapter::new("ws/").expect("ok");
    let block = make_block(b"x");
    let d = delta(vec![Op::Put { name: "ws/file".into(), hash: block.hash() }]);
    let err = adapter.apply_delta(&d, &full_cap("ws/")).expect_err("must reject without root");
    assert!(matches!(err, FsAdapterError::Io(_)), "expected E-007, got {err:?}");
}

#[test]
fn t_002_fork_write_abort_base_unchanged() {
    let adapter = rooted();
    let c = full_cap("ws/");
    let block = make_block(b"speculative content");
    let mut disk: BTreeMap<String, Vec<u8>> = BTreeMap::new();
    assert!(!disk.contains_key("ws/spec.txt"));
    let child = delta(vec![adapter.put("ws/spec.txt".into(), block.hash()).apply(&mut ())]);
    drop(child);
    assert!(!disk.contains_key("ws/spec.txt"), "base must be unchanged after abort");
    let committed = delta(vec![adapter.put("ws/committed.txt".into(), block.hash()).apply(&mut ())]);
    run(&adapter, &committed, &c, &[block], &mut disk).expect("commit ok");
    assert!(disk.contains_key("ws/committed.txt"));
}

#[test]
fn fs_effects_are_class_a_only() {
    let h = Digest::from_bytes([0u8; 32]);
    let put = FsPut { name: "ws/x".into(), hash: h };
    let rm = FsRemove { name: "ws/y".into() };
    assert!(matches!(ClassA::apply(&put, &mut ()), Op::Put { .. }));
    assert!(matches!(ClassA::apply(&rm, &mut ()), Op::Remove { .. }));
}

#[test]
fn put_emits_op_put() {
    let h = Digest::from_bytes([7u8; 32]);
    let eff = FsPut { name: "a/b.txt".to_owned(), hash: h };
    match eff.apply(&mut ()) {
        Op::Put { name, hash } => {
            assert_eq!(name, "a/b.txt");
            assert_eq!(hash, h);
        }
        other @ Op::Remove { .. } => panic!("expected Put, got {other:?}"),
    }
    assert_eq!(eff.clone(), eff);
}

#[test]
fn remove_emits_op_remove() {
    let eff = FsRemove { name: "stale.tmp".to_owned() };
    match eff.apply(&mut ()) {
        Op::Remove { name } => assert_eq!(name, "stale.tmp"),
        other @ Op::Put { .. } => panic!("expected Remove, got {other:?}"),
    }
    let adapter = FsAdapter::new("ws/").expect("ok");
    assert_eq!(adapter.remove("stale.tmp".into()), eff);
}

#[test]
fn apply_has_no_io_signature() {
    let h = Digest::from_bytes([0u8; 32]);
    assert!(matches!(FsPut { name: "x".into(), hash: h }.apply(&mut ()), Op::Put { .. }));
    assert!(matches!(FsRemove { name: "y".into() }.apply(&mut ()), Op::Remove { .. }));
}

#[test]
fn cap_violation_maps_to_e009() {
    let err = FsAdapterError::CapabilityViolation("outside prefix".into());
    let reel: ReelError = err.into();
    assert!(matches!(reel, ReelError::CapabilityViolation(_)), "expected E-009");
}

#[test]
fn namespace_escape_maps_to_e009() {
    let err = FsAdapterError::NamespaceEscape("../etc/passwd".into());
    let reel: ReelError = err.into();
    assert!(matches!(reel, ReelError::CapabilityViolation(_)), "expected E-009");
}

#[test]
fn io_maps_to_e007() {
    let err = FsAdapterError::Io("disk full".into());
    let reel: ReelError = err.into();
    assert!(matches!(reel, ReelError::Storage(_)), "expected E-007");
}

#[test]
fn display_contains_code() {
    assert!(FsAdapterError::CapabilityViolation("x".into()).to_string().contains("E-009"));
    assert!(FsAdapterError::NamespaceEscape("x".into()).to_string().contains("E-009"));
    assert!(FsAdapterError::Io("x".into()).to_string().contains("E-007"));
}

#[test]
fn refusals_say_why() {
    let op = Op::Put { name: "a".into(), hash: Digest::from_bytes([0; 32]) };
    let e = authorise(&op, &full_cap("ws/")).expect_err("outside");
    assert_eq!(
        e.to_string(),
        "E-009 CapabilityViolation: I-003 violation: op name 'a' does not start with cap \
         path_prefix 'ws/'"
    );
    let e = authorise(&op, &read_only_cap("a")).expect_err("read only");
    assert_eq!(
        e.to_string(),
        "E-009 CapabilityViolation: I-003 violation: op requires Write which is absent from \
         cap.op_set {Read}"
    );
    assert!(authorise(&op, &full_cap("")).is_ok());
}

#[test]
fn names_resolve_below_the_root() {
    for good in ["a", "a/b", "a..b/c..", "...", ".", "a/./b", "..a", "a/...", "a//b"] {
        assert_eq!(resolve(good).expect("stays below"), good);
    }
    for bad in ["..", "../a", "a/..", "a/../b", "a//../b"] {
        let e = resolve(bad).expect_err("escapes");
        assert_eq!(
            e.to_string(),
            format!("E-009 NamespaceEscape: parent-dir traversal not allowed: '{bad}'")
        );
    }
    assert_eq!(
        resolve("").expect_err("empty").to_string(),
        "E-009 NamespaceEscape: empty op name"
    );
    assert_eq!(
        resolve("/a/..").expect_err("absolute").to_string(),
        "E-009 NamespaceEscape: absolute path not allowed: '/a/..'"
    );
}

#[test]
fn a_missing_block_is_an_error_and_a_failed_removal_too() {
    let h = Digest::from_bytes([3; 32]);
    let e = decide_put("f", &h, None, &None).expect_err("no block");
    assert_eq!(
        e.to_string(),
        format!("E-007 Storage: block {} not supplied to apply_delta for op_put 'f'", h.to_hex())
    );
    let e = settle_remove(Removal::Failed("busy".into())).expect_err("failed");
    assert_eq!(e.to_string(), "E-007 Storage: busy");
}

#[test]
fn a_wider_capability_permits_what_a_narrower_one_does() {
    let wide = full_cap("ws/");
    let narrow = cap("ws/docs/", &[OpKind::Write], 60);
    assert!(wide.covers(&narrow));
    let op = Op::Put { name: "ws/docs/a".into(), hash: Digest::from_bytes([0; 32]) };
    assert!(authorise(&op, &narrow).is_ok());
    assert!(authorise(&op, &wide).is_ok());
    let outside = Op::Put { name: "ws/x".into(), hash: Digest::from_bytes([0; 32]) };
    assert!(authorise(&outside, &wide).is_ok());
    assert!(authorise(&outside, &narrow).is_err());
}

#[test]
fn a_second_run_over_several_files_changes_nothing() {
    let adapter = rooted();
    let kept = make_block(b"kept");
    let fresh = make_block(b"fresh");
    let d = delta(vec![
        Op::Put { name: "ws/kept".into(), hash: kept.hash() },
        Op::Remove { name: "ws/stale".into() },
        Op::Put { name: "ws/dir/fresh".into(), hash: fresh.hash() },
        Op::Remove { name: "ws/absent".into() },
    ]);
    let c = full_cap("ws/");
    let blocks = [kept, fresh];
    let mut disk = BTreeMap::new();
    disk.insert("ws/kept".to_owned(), b"kept".to_vec());
    disk.insert("ws/stale".to_owned(), b"old".to_vec());
    disk.insert("ws/other".to_owned(), b"untouched".to_vec());
    let first = run(&adapter, &d, &c, &blocks, &mut disk).expect("first ok");
    assert_eq!(
        first,
        vec![
            ApplyOutcome::Unchanged,
            ApplyOutcome::Changed,
            ApplyOutcome::Changed,
            ApplyOutcome::Unchanged
        ]
    );
    let left = disk.clone();
    let second = run(&adapter, &d, &c, &blocks, &mut disk).expect("second ok");
    assert_eq!(second, vec![ApplyOutcome::Unchanged; 4]);
    assert_eq!(disk, left);
    assert_eq!(disk["ws/other"], b"untouched");
}

#[test]
fn a_run_keeps_the_mutations_that_were_permitted() {
    let adapter = rooted();
    let mut d = delta(vec![Op::Remove { name: "ws/a".into() }]);
    let run = adapter.clone().apply_delta(&d, &full_cap("ws/")).expect("permitted");
    d.ops.clear();
    d.ops.push(Op::Remove { name: "elsewhere".into() });
    assert!(matches!(run.next(), Ok(ApplyStep::Remove { ref path }) if path == "ws/a"));
}

#[test]
fn directories_stay_within_the_root() {
    for (root, parent) in
        [("/srv/ws", "/srv/ws"), ("/srv/ws", "/srv/ws/a/b"), ("/", "/"), ("/", "/etc")]
    {
        assert!(stays_within(root, parent, "x").is_ok(), "{parent} is within {root}");
    }
    for (root, parent) in [("/srv/ws", "/srv"), ("/srv/ws", "/srv/ws2"), ("/srv/ws", "/etc")] {
        let e = stays_within(root, parent, "link/x").expect_err("leads out");
        assert_eq!(
            e.to_string(),
            "E-009 NamespaceEscape: path leads out of the root: 'link/x'"
        );
    }
}
