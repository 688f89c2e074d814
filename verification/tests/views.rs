//! Views: roots, children, transitions and ancestry.

use reel::capability::{Capability, OpKind, OpSet};
use reel::error::ReelError;
use reel::status::Status;
use reel::view::{
    closest_parent, common_prefix_len, diagnose_widening, validate_narrowing, View, ViewId,
    MAX_FORK_DEPTH,
};
use std::collections::HashMap;

type Digest = reel::hash::Hash;

fn root_view() -> View {
    View::root(vec![])
}

fn cap(prefix: &str, ops: &[OpKind], ttl: u64) -> Capability {
    Capability { path_prefix: prefix.to_owned(), op_set: OpSet::of(ops), ttl }
}

fn parent_root_cap() -> Capability {
    cap("/", &[OpKind::Read, OpKind::Write, OpKind::Delete], 3600)
}

#[test]
fn active_view_not_terminal() {
    let v = root_view();
    assert!(v.is_active());
    assert!(!v.is_terminal());
}

#[test]
fn aborted_view_is_terminal() {
    let mut v = root_view();
    v.status = Status::Aborted;
    assert!(!v.is_active());
    assert!(v.is_terminal());
}

#[test]
fn committed_view_is_terminal() {
    let mut v = root_view();
    v.status = Status::Committed;
    assert!(v.is_terminal());
}

#[test]
fn view_id_uniqueness() {
    let a = ViewId::new_v7();
    let b = ViewId::new_v7();
    assert_ne!(a, b);
}

#[test]
fn view_ids_are_version_seven_and_print_with_hyphens() {
    let a = ViewId::new_v7();
    let id = uuid::Uuid::from_u128(a.0);
    assert_eq!(id.get_version_num(), 7);
    assert_eq!(a.to_string(), id.to_string());
    assert_eq!(a.to_string().len(), 36);
}

#[test]
fn root_initial_state() {
    let v = View::root(vec![]);
    assert!(v.is_active());
    assert!(v.parent.is_none());
    assert!(v.namespace.is_empty());
    assert!(v.delta.ops.is_empty());
    assert_eq!(v.delta.base_hash, Digest::from_bytes([0u8; 32]));
    assert!(v.caps.is_empty());
    assert!(v.effects_hash.is_none());
}

#[test]
fn root_carries_caps() {
    let c = cap("/", &[OpKind::Read], 0);
    let v = View::root(vec![c.clone()]);
    assert_eq!(v.caps, vec![c]);
}

#[test]
fn root_ids_are_unique() {
    let a = View::root(vec![]);
    let b = View::root(vec![]);
    assert_ne!(a.id, b.id, "fresh roots must have distinct ids");
}

#[test]
fn isolated_boundary_fork_write_abort_leaves_parent_untouched() {
    let mut parent = View::root(vec![parent_root_cap()]);
    let h_parent = Digest::from_bytes(*blake3::hash(b"parent").as_bytes());
    parent.namespace.insert("shared", h_parent);
    let parent_namespace_before = parent.namespace.clone();

    let mut child = View::child_of(&parent, vec![]).expect("empty caps narrowing always permitted");

    let h_child = Digest::from_bytes(*blake3::hash(b"child").as_bytes());
    child.namespace.insert("k1", h_child);
    child.namespace.insert("shared", h_child);
    assert_eq!(child.namespace.get("k1"), Some(h_child));
    assert_eq!(child.namespace.get("shared"), Some(h_child));

    child.transition_to(Status::Aborted).expect("Active to Aborted");

    assert_eq!(
        parent.namespace, parent_namespace_before,
        "parent namespace leaked from aborted child"
    );
    assert_eq!(parent.namespace.get("k1"), None);
    assert_eq!(parent.namespace.get("shared"), Some(h_parent));
}

#[test]
fn child_of_inherits_namespace_and_links_parent() {
    let mut parent = View::root(vec![parent_root_cap()]);
    let h = Digest::from_bytes(*blake3::hash(b"v").as_bytes());
    parent.namespace.insert("k", h);

    let child_cap = cap("/", &[OpKind::Read], 60);
    let child = View::child_of(&parent, vec![child_cap]).expect("narrowing");
    assert_eq!(child.parent, Some(parent.id));
    assert_eq!(child.namespace.get("k"), Some(h), "namespace inherited");
    assert!(child.delta.ops.is_empty(), "child delta is empty");
    assert!(child.effects_hash.is_none(), "child effects_hash is empty");
    assert!(child.is_active());
}

#[test]
fn child_of_rejects_terminal_parent() {
    let mut parent = View::root(vec![parent_root_cap()]);
    parent.status = Status::Aborted;
    let err = View::child_of(&parent, vec![]).expect_err("terminal parent must be rejected");
    match err {
        ReelError::ViewTerminal(s) => assert_eq!(s, Status::Aborted),
        other => panic!("expected ViewTerminal, got {other:?}"),
    }
}

#[test]
fn child_of_rejects_committed_parent() {
    let mut parent = View::root(vec![parent_root_cap()]);
    parent.status = Status::Committed;
    let err = View::child_of(&parent, vec![]).expect_err("committed parent rejected");
    assert!(matches!(err, ReelError::ViewTerminal(Status::Committed)));
}

#[test]
fn child_of_rejects_amplification_op_set() {
    let parent = View::root(vec![cap("/", &[OpKind::Read], 3600)]);
    let amplified = cap("/", &[OpKind::Read, OpKind::Write], 3600);
    let err = View::child_of(&parent, vec![amplified])
        .expect_err("op_set amplification must be rejected");
    assert!(matches!(err, ReelError::CapabilityViolation(_)));
}

#[test]
fn child_of_rejects_amplification_prefix() {
    let parent = View::root(vec![cap("ws/docs/", &[OpKind::Read], 3600)]);
    let amplified = cap("ws/", &[OpKind::Read], 3600);
    let err = View::child_of(&parent, vec![amplified])
        .expect_err("prefix amplification must be rejected");
    assert!(matches!(err, ReelError::CapabilityViolation(_)));
}

#[test]
fn child_of_rejects_amplification_ttl() {
    let parent = View::root(vec![cap("/", &[OpKind::Read], 60)]);
    let amplified = cap("/", &[OpKind::Read], 3600);
    let err = View::child_of(&parent, vec![amplified])
        .expect_err("ttl amplification must be rejected");
    assert!(matches!(err, ReelError::CapabilityViolation(_)));
}

#[test]
fn child_of_rejects_unbounded_when_parent_bounded() {
    let parent = View::root(vec![cap("/", &[OpKind::Read], 60)]);
    let amplified = cap("/", &[OpKind::Read], 0);
    let err = View::child_of(&parent, vec![amplified])
        .expect_err("unbounded child against bounded parent must be rejected");
    assert!(matches!(err, ReelError::CapabilityViolation(_)));
}

#[test]
fn child_of_accepts_unbounded_parent() {
    let parent = View::root(vec![cap("/", &[OpKind::Read], 0)]);
    let bounded = cap("/", &[OpKind::Read], 60);
    View::child_of(&parent, vec![bounded]).expect("unbounded parent covers bounded child");
    let unbounded = cap("/", &[OpKind::Read], 0);
    View::child_of(&parent, vec![unbounded]).expect("unbounded parent covers unbounded child");
}

#[test]
fn child_of_accepts_narrowing() {
    let parent_cap = cap("ws/", &[OpKind::Read, OpKind::Write, OpKind::Delete], 3600);
    let parent = View::root(vec![parent_cap]);
    let narrow = cap("ws/docs/", &[OpKind::Read], 1800);
    View::child_of(&parent, vec![narrow]).expect("narrowing accepted");
}

#[test]
fn child_of_accepts_equal_prefix() {
    let parent = View::root(vec![cap("ws/", &[OpKind::Read], 60)]);
    let same = cap("ws/", &[OpKind::Read], 30);
    View::child_of(&parent, vec![same]).expect("equal prefix counts as sub-prefix");
}

#[test]
fn child_of_accepts_empty_caps() {
    let parent = View::root(vec![cap("/", &[OpKind::Read], 60)]);
    View::child_of(&parent, vec![]).expect("empty child caps always valid");
}

#[test]
fn child_of_rejects_nonempty_against_empty_parent() {
    let parent = View::root(vec![]);
    let any_cap = cap("/", &[OpKind::Read], 60);
    let err = View::child_of(&parent, vec![any_cap])
        .expect_err("child cap without parent cap is amplification");
    assert!(matches!(err, ReelError::CapabilityViolation(_)));
}

#[test]
fn is_active_committed_aborted_partition() {
    let mut v = root_view();
    assert!(v.is_active());
    assert!(!v.is_committed());
    assert!(!v.is_aborted());

    v.status = Status::Committed;
    assert!(!v.is_active());
    assert!(v.is_committed());
    assert!(!v.is_aborted());

    v.status = Status::Aborted;
    assert!(!v.is_active());
    assert!(!v.is_committed());
    assert!(v.is_aborted());
}

#[test]
fn transition_active_to_committed() {
    let mut v = root_view();
    v.transition_to(Status::Committed).expect("Active to Committed");
    assert!(v.is_committed());
}

#[test]
fn transition_active_to_aborted() {
    let mut v = root_view();
    v.transition_to(Status::Aborted).expect("Active to Aborted");
    assert!(v.is_aborted());
}

#[test]
fn transition_active_to_active_rejected() {
    let mut v = root_view();
    let err = v.transition_to(Status::Active).expect_err("Active to Active is not legal");
    assert!(matches!(err, ReelError::ViewTerminal(Status::Active)));
}

#[test]
fn transition_committed_is_one_way() {
    let mut v = root_view();
    v.transition_to(Status::Committed).expect("ok");
    for target in [Status::Active, Status::Committed, Status::Aborted] {
        let err = v
            .transition_to(target)
            .expect_err("committed View is terminal; no further transitions");
        assert!(matches!(err, ReelError::ViewTerminal(Status::Committed)));
    }
    assert!(v.is_committed(), "status unchanged after rejected transition");
}

#[test]
fn transition_aborted_is_one_way() {
    let mut v = root_view();
    v.transition_to(Status::Aborted).expect("ok");
    for target in [Status::Active, Status::Committed, Status::Aborted] {
        let err = v
            .transition_to(target)
            .expect_err("aborted View is terminal; no further transitions");
        assert!(matches!(err, ReelError::ViewTerminal(Status::Aborted)));
    }
    assert!(v.is_aborted(), "status unchanged after rejected transition");
}

#[test]
fn root_depth_is_zero() {
    let v = root_view();
    let d = v
        .depth(|_id: ViewId| panic!("lookup must not fire for a root View"))
        .expect("root depth is computable without lookup");
    assert_eq!(d, 0);
}

#[test]
fn linear_chain_depth() {
    let root = View::root(vec![parent_root_cap()]);
    let child_cap = || cap("/", &[OpKind::Read], 60);
    let c1 = View::child_of(&root, vec![child_cap()]).expect("ok");
    let c2 = View::child_of(&c1, vec![child_cap()]).expect("ok");
    let c3 = View::child_of(&c2, vec![child_cap()]).expect("ok");

    let mut table: HashMap<u128, View> = HashMap::new();
    table.insert(root.id.0, root.clone());
    table.insert(c1.id.0, c1.clone());
    table.insert(c2.id.0, c2.clone());

    let lookup = |id: ViewId| -> Result<View, ReelError> {
        table
            .get(&id.0)
            .cloned()
            .ok_or_else(|| ReelError::Storage(format!("missing View {}", id.to_string())))
    };

    assert_eq!(root.depth(lookup).expect("root"), 0);
    assert_eq!(c1.depth(lookup).expect("c1"), 1);
    assert_eq!(c2.depth(lookup).expect("c2"), 2);
    assert_eq!(c3.depth(lookup).expect("c3"), 3);
}

#[test]
fn depth_propagates_lookup_failure() {
    let root = View::root(vec![parent_root_cap()]);
    let c1 = View::child_of(&root, vec![cap("/", &[OpKind::Read], 60)]).expect("ok");
    let err = c1
        .depth(|_id| Err(ReelError::Storage("missing".to_owned())))
        .expect_err("missing parent must propagate as Storage error");
    assert!(matches!(err, ReelError::Storage(_)));
}

#[test]
fn depth_rejects_cycle_beyond_max() {
    let mut v = View::root(vec![]);
    v.parent = Some(v.id);
    let cycle = v.clone();
    let lookup = |_id: ViewId| -> Result<View, ReelError> { Ok(cycle.clone()) };
    let err = v.depth(lookup).expect_err("cycle must trip MAX_FORK_DEPTH");
    match err {
        ReelError::ForkDepthExceeded(d) => {
            assert!(d > MAX_FORK_DEPTH, "depth {d} must exceed MAX_FORK_DEPTH");
        }
        other => panic!("expected ForkDepthExceeded, got {other:?}"),
    }
}

#[test]
fn fork_then_abort_preserves_parent() {
    let mut parent = View::root(vec![cap("/", &[OpKind::Read, OpKind::FireC], 0)]);
    parent.namespace.insert("a/b", Digest::from_bytes([3u8; 32]));
    let before = parent.clone();
    let mut child = View::child_of(&parent, vec![]).expect("empty caps always permitted");
    child.transition_to(Status::Aborted).expect("Active to Aborted");
    assert_eq!(parent, before, "parent unchanged by child abort");
}

#[test]
fn child_namespace_writes_do_not_propagate_to_parent() {
    let mut parent = View::root(vec![cap("/", &[OpKind::Read], 0)]);
    parent.namespace.insert("k", Digest::from_bytes([3u8; 32]));
    let snapshot = parent.namespace.clone();
    let mut child = View::child_of(&parent, vec![]).expect("empty caps always permitted");
    child.namespace.insert("fresh", Digest::from_bytes([9u8; 32]));
    child.namespace.insert("k", Digest::from_bytes([9u8; 32]));
    assert_eq!(parent.namespace, snapshot, "child writes leaked into parent namespace");
}

#[test]
fn status_transitions_are_one_way() {
    for terminal in [Status::Aborted, Status::Committed] {
        let mut v = View::root(vec![]);
        v.transition_to(terminal).expect("Active to terminal");
        assert_eq!(v.status, terminal);
        for target in [Status::Active, Status::Committed, Status::Aborted] {
            assert!(v.transition_to(target).is_err());
            assert_eq!(v.status, terminal);
        }
    }
}

#[test]
fn widening_names_the_axes() {
    let parents = vec![cap("ws/docs/", &[OpKind::Read], 60), cap("tmp/", &[OpKind::Write], 0)];
    let child = cap("ws/docs/a", &[OpKind::Read, OpKind::Write], 120);
    let near = closest_parent(&parents, &child).expect("there are parents");
    assert_eq!(near.path_prefix, "ws/docs/");
    assert_eq!(common_prefix_len("ws/docs/", "ws/docs/a"), 8);
    let m = diagnose_widening(&parents, &child);
    assert!(m.contains("op_set"), "{m}");
    assert!(m.contains("[Write]"), "{m}");
    assert!(m.contains("ttl"), "{m}");
    assert!(m.contains("{Read, Write}"), "{m}");
    assert!(m.contains("\"ws/docs/a\""), "{m}");
    let err = validate_narrowing(&parents, &vec![child]).expect_err("widening is refused");
    assert!(matches!(err, ReelError::CapabilityViolation(_)));
    assert!(validate_narrowing(&parents, &vec![]).is_ok());
    let fine = vec![cap("tmp/x", &[OpKind::Write], 5), cap("ws/docs/", &[], 60)];
    assert!(validate_narrowing(&parents, &fine).is_ok());
}

#[test]
fn narrowing_holds_along_a_chain() {
    let root = View::root(vec![cap("a", &[OpKind::Read, OpKind::Write], 0)]);
    let child = View::child_of(&root, vec![cap("a/b", &[OpKind::Read], 100)]).expect("narrows");
    let grandchild = View::child_of(&child, vec![cap("a/b/c", &[], 9)]).expect("narrows");
    assert!(validate_narrowing(&root.caps, &grandchild.caps).is_ok());
    assert!(validate_narrowing(&grandchild.caps, &root.caps).is_err());
}

#[test]
fn fresh_views_have_marked_identifiers() {
    let root = View::root(vec![]);
    let child = View::child_of(&root, vec![]).expect("nothing is asked for");
    for v in [&root, &child] {
        assert_eq!((v.id.0 >> 76) & 0xf, 7, "the version");
        assert_eq!((v.id.0 >> 62) & 0x3, 2, "the variant");
    }
}
