//! The in-memory store, reachability and the rules of persistent backends.

use reel::block::Block;
use reel::delta::{Delta, Op};
use reel::error::ReelError;
use reel::namespace::Namespace;
use reel::store::error::StoreError;
use reel::store::mem::MemStore;
use reel::store::reachability::{
    extract_outgoing_hashes, ReachabilityWalker, DEFAULT_REACHABILITY_DEPTH_LIMIT,
};
use reel::store::rules::{
    admit_lookup, admit_open, is_recovery, plan_gc, prepare_ref, Config, GcStats, SyncMode,
};
use reel::store::store_trait::Store;
use std::collections::HashMap;

type Digest = reel::hash::Hash;
type Payloads = HashMap<[u8; 32], Vec<u8>>;

fn small_block(payload: &[u8]) -> Block {
    Block::new(payload.to_vec()).expect("small payload")
}

fn found(map: &Payloads, h: &Digest) -> Result<Option<Vec<u8>>, StoreError> {
    Ok(map.get(h.as_bytes()).cloned())
}

fn store_block_raw(map: &mut Payloads, payload: Vec<u8>) -> Digest {
    let b = Block::new(payload.clone()).expect("small payload");
    map.insert(*b.hash().as_bytes(), payload);
    b.hash()
}

// --- errors --------------------------------------------------------------

#[test]
fn from_reel_error() {
    let h = Digest::from_bytes([1u8; 32]);
    let inner = ReelError::ReachabilityViolation(h);
    let outer: StoreError = inner.into();
    assert!(matches!(outer, StoreError::Protocol(_)));
}

#[test]
fn helpers_construct_protocol_variants() {
    let h = Digest::from_bytes([2u8; 32]);
    let nf = StoreError::block_not_found(h);
    let nf_msg = nf.to_string();
    assert!(nf_msg.contains("E-001"), "msg: {nf_msg}");
    let rv = StoreError::reachability_violation(h);
    let rv_msg = rv.to_string();
    assert!(rv_msg.contains("E-010"), "msg: {rv_msg}");
}

#[test]
fn engine_error_displays() {
    let e = StoreError::Engine("table not found".to_owned());
    let s = e.to_string();
    assert!(s.contains("redb engine"), "msg: {s}");
    assert!(s.contains("table not found"), "msg: {s}");
}

#[test]
fn codec_error_displays() {
    let e = StoreError::Codec("unexpected EOF".to_owned());
    let s = e.to_string();
    assert!(s.contains("cbor"), "msg: {s}");
}

// --- the in-memory store -------------------------------------------------

#[test]
fn write_then_raw_lookup_round_trips() {
    let mut s = MemStore::new();
    let b = small_block(b"hello");
    s.write_block(&b).expect("write");
    let got = s.raw_lookup_by_hash(&b.hash()).expect("lookup");
    assert_eq!(got.hash(), b.hash());
    assert_eq!(got.data, b.data);
}

#[test]
fn mem_write_dedupes_identical_block() {
    let mut s = MemStore::new();
    let b = small_block(b"x");
    s.write_block(&b).expect("write");
    s.write_block(&b).expect("write");
    assert_eq!(s.block_count(), 1, "identical Block must dedupe");
}

#[test]
fn mem_lookup_unreachable_block_returns_e010() {
    let mut s = MemStore::new();
    let b = small_block(b"orphan");
    s.write_block(&b).expect("write");
    let ns = Namespace::default();
    let err = s.lookup_by_hash(&b.hash(), &ns).expect_err("must reject unreachable");
    if let StoreError::Protocol(ReelError::ReachabilityViolation(h)) = &err {
        assert_eq!(*h, b.hash(), "E-010 carries the offending hash");
    } else {
        panic!("expected E-010, got {err:?}");
    }
}

#[test]
fn mem_lookup_missing_block_returns_e001() {
    let s = MemStore::new();
    let h = Digest::from_bytes([0xff; 32]);
    let mut ns = Namespace::default();
    ns.insert("k", h);
    let err = s.lookup_by_hash(&h, &ns).expect_err("must reject missing");
    if let StoreError::Protocol(ReelError::BlockNotFound(got)) = &err {
        assert_eq!(*got, h, "E-001 carries the offending hash");
    } else {
        panic!("expected E-001, got {err:?}");
    }
}

#[test]
fn mem_lookup_reachable_block_succeeds() {
    let mut s = MemStore::new();
    let b = small_block(b"reachable");
    s.write_block(&b).expect("write");
    s.put_ref("main", &b.hash(), None).expect("put");
    let mut ns = Namespace::default();
    ns.insert("main", b.hash());
    let got = s.lookup_by_hash(&b.hash(), &ns).expect("reachable");
    assert_eq!(got.hash(), b.hash());
}

#[test]
fn mem_put_ref_rejects_dangling_hash() {
    let mut s = MemStore::new();
    let h = Digest::from_bytes([0x42; 32]);
    let err = s.put_ref("dangling", &h, None).expect_err("dangling hash rejected");
    if let StoreError::Protocol(ReelError::BlockNotFound(got)) = &err {
        assert_eq!(*got, h, "E-001 carries the dangling hash");
    } else {
        panic!("expected BlockNotFound, got {err:?}");
    }
}

#[test]
fn mem_put_ref_replaces_existing_ref() {
    let mut s = MemStore::new();
    let b1 = small_block(b"one");
    let b2 = small_block(b"two");
    s.write_block(&b1).expect("write");
    s.write_block(&b2).expect("write");
    s.put_ref("main", &b1.hash(), None).expect("put");
    s.put_ref("main", &b2.hash(), None).expect("put");
    let got = s.get_ref("main").expect("get").expect("ref present");
    assert_eq!(got.hash, b2.hash(), "later put_ref must replace");
    assert_eq!(s.ref_count(), 1);
}

#[test]
fn get_ref_absent_returns_none() {
    let s = MemStore::new();
    let got = s.get_ref("nothing").expect("get");
    assert!(got.is_none());
}

#[test]
fn mem_remove_ref_reports_existence() {
    let mut s = MemStore::new();
    let b = small_block(b"x");
    s.write_block(&b).expect("write");
    s.put_ref("main", &b.hash(), None).expect("put");
    assert!(s.remove_ref("main").expect("remove"), "first remove must report true");
    assert!(!s.remove_ref("main").expect("remove"), "second remove must report false");
}

#[test]
fn mem_list_refs_returns_name_sorted() {
    let mut s = MemStore::new();
    let b = small_block(b"x");
    s.write_block(&b).expect("write");
    for name in ["zeta", "alpha", "mu", "beta"] {
        s.put_ref(name, &b.hash(), None).expect("put");
    }
    let listed = s.list_refs().expect("list");
    let names: Vec<&str> = listed.iter().map(|r| r.name()).collect();
    assert_eq!(names, vec!["alpha", "beta", "mu", "zeta"]);
}

#[test]
fn was_recovered_false_for_memory_backend() {
    let s = MemStore::new();
    assert!(!s.was_recovered());
}

#[test]
fn mem_i_001_reachability_conformance_drop_ref_then_lookup() {
    let mut s = MemStore::new();
    let b = small_block(b"hello");
    s.write_block(&b).expect("write");
    s.put_ref("/probe", &b.hash(), None).expect("put");
    let mut ns = Namespace::default();
    ns.insert("/probe", b.hash());
    assert!(s.lookup_by_hash(&b.hash(), &ns).is_ok());

    s.remove_ref("/probe").expect("remove");
    let empty_ns = Namespace::default();
    let err = s.lookup_by_hash(&b.hash(), &empty_ns).expect_err("dropped ref must trigger E-010");
    assert!(
        matches!(err, StoreError::Protocol(ReelError::ReachabilityViolation(_))),
        "expected E-010, got {err:?}"
    );
}

#[test]
fn gc_keeps_reachable_deletes_orphaned() {
    let mut s = MemStore::new();
    let b_keep = small_block(b"keep");
    let b_drop = small_block(b"drop");
    s.write_block(&b_keep).expect("write");
    s.write_block(&b_drop).expect("write");
    s.put_ref("main", &b_keep.hash(), None).expect("put");
    let mut ns = Namespace::default();
    ns.insert("main", b_keep.hash());

    let stats = s.gc(&ns).expect("gc");
    assert_eq!(stats.kept, 1);
    assert_eq!(stats.deleted, 1);

    let err = s.raw_lookup_by_hash(&b_drop.hash()).expect_err("dropped block gone");
    assert!(matches!(err, StoreError::Protocol(ReelError::BlockNotFound(_))), "got {err:?}");
    let got = s.lookup_by_hash(&b_keep.hash(), &ns).expect("kept");
    assert_eq!(got.hash(), b_keep.hash());
}

#[test]
fn pointer_names_are_checked_after_the_block() {
    let mut s = MemStore::new();
    let b = small_block(b"x");
    let err = s.put_ref("", &b.hash(), None).expect_err("no block yet");
    assert!(matches!(err, StoreError::Protocol(ReelError::BlockNotFound(_))));
    s.write_block(&b).expect("write");
    let err = s.put_ref("", &b.hash(), None).expect_err("empty name");
    assert!(matches!(err, StoreError::Protocol(ReelError::Storage(_))));
    assert_eq!(s.ref_count(), 0);
}

#[test]
fn stored_delta_leads_to_its_targets() {
    let mut s = MemStore::new();
    let leaf = small_block(b"leaf");
    s.write_block(&leaf).expect("write");
    let delta = Delta {
        base_hash: Digest::from_bytes([0; 32]),
        ops: vec![Op::Put { name: "x".into(), hash: leaf.hash() }],
    };
    let d = Block::new(delta.to_cbor().expect("encodes")).expect("small");
    s.write_block(&d).expect("write");
    let mut ns = Namespace::new();
    ns.insert("main", d.hash());
    assert!(s.lookup_by_hash(&leaf.hash(), &ns).is_ok(), "reached through the delta");
    let closure = s.closure(&ns).expect("closure");
    assert_eq!(closure.len(), 3, "the delta, its base and its target");
    assert_eq!(s.raw_get_payload(&leaf.hash()).expect("ok"), Some(b"leaf".to_vec()));
    assert_eq!(s.stored_hashes().len(), 2);
}

// --- reachability --------------------------------------------------------

#[test]
fn empty_namespace_yields_empty_closure() {
    let store = Payloads::new();
    let w = ReachabilityWalker::default();
    let closure = w.walk(&[], |h: &Digest| found(&store, h)).expect("walk");
    assert!(closure.is_empty(), "no roots, empty closure");
}

#[test]
fn root_hash_in_closure_if_in_store() {
    let mut store = Payloads::new();
    let h = store_block_raw(&mut store, b"leaf".to_vec());
    let w = ReachabilityWalker::default();
    let closure = w.walk(&[h], |k: &Digest| found(&store, k)).expect("walk");
    assert!(closure.contains(&h), "root in store must be reachable");
    assert_eq!(closure.len(), 1, "only root reachable");
}

#[test]
fn root_hash_missing_from_store_not_returned() {
    let store = Payloads::new();
    let h = Digest::from_bytes([0xab; 32]);
    let w = ReachabilityWalker::default();
    let closure = w.walk(&[h], |k: &Digest| found(&store, k)).expect("walk");
    assert!(closure.contains(&h), "root visit recorded");
}

#[test]
fn delta_op_put_extends_closure() {
    let mut store = Payloads::new();
    let leaf = store_block_raw(&mut store, b"leaf bytes".to_vec());
    let delta = Delta { base_hash: leaf, ops: vec![Op::Put { name: "x".into(), hash: leaf }] };
    let delta_bytes = delta.to_cbor().expect("encode");
    let delta_block = Block::new(delta_bytes.clone()).expect("small");
    let delta_hash = delta_block.hash();
    store.insert(*delta_hash.as_bytes(), delta_bytes);

    let w = ReachabilityWalker::default();
    let closure = w.walk(&[delta_hash], |k: &Digest| found(&store, k)).expect("walk");
    assert!(closure.contains(&delta_hash), "root Delta reachable");
    assert!(closure.contains(&leaf), "Op::Put target reachable through Delta");
}

#[test]
fn opaque_payload_does_not_extend_closure() {
    let mut store = Payloads::new();
    store.insert([7; 32], b"opaque junk".to_vec());
    let leaf = Digest::from_bytes([7; 32]);
    let w = ReachabilityWalker::default();
    let closure = w.walk(&[leaf], |k: &Digest| found(&store, k)).expect("walk");
    assert_eq!(closure.len(), 1, "opaque payload yields no outgoing edges");
}

#[test]
fn depth_limit_caps_expansion() {
    let mut store = Payloads::new();
    let leaf_c = store_block_raw(&mut store, b"c".to_vec());

    let delta_b = Delta { base_hash: leaf_c, ops: vec![] };
    let b_hash = store_block_raw(&mut store, delta_b.to_cbor().expect("ok"));

    let delta_a = Delta { base_hash: b_hash, ops: vec![] };
    let a_hash = store_block_raw(&mut store, delta_a.to_cbor().expect("ok"));

    let w = ReachabilityWalker::with_depth_limit(1);
    let closure = w.walk(&[a_hash], |k: &Digest| found(&store, k)).expect("walk");
    assert!(closure.contains(&a_hash));
    assert!(closure.contains(&b_hash));
    assert!(!closure.contains(&leaf_c), "depth-1 must NOT reach grandparent");
}

#[test]
fn cycle_does_not_loop() {
    let mut store = Payloads::new();
    let leaf = store_block_raw(&mut store, b"leaf".to_vec());
    let self_ref =
        Delta { base_hash: leaf, ops: vec![Op::Put { name: "self".into(), hash: leaf }] };
    store.insert(*leaf.as_bytes(), self_ref.to_cbor().expect("ok"));

    let w = ReachabilityWalker::with_depth_limit(64);
    let closure = w.walk(&[leaf], |k: &Digest| found(&store, k)).expect("walk");
    assert!(closure.contains(&leaf), "walker terminates on self-ref");
}

#[test]
fn walk_passes_on_a_backend_failure() {
    let w = ReachabilityWalker::default();
    assert_eq!(w.depth_limit(), DEFAULT_REACHABILITY_DEPTH_LIMIT);
    let h = Digest::from_bytes([1; 32]);
    let err = w
        .walk(&[h], |_k: &Digest| Err(StoreError::Engine("gone".to_owned())))
        .expect_err("the failure comes out");
    assert!(matches!(err, StoreError::Engine(_)));
}

#[test]
fn edges_are_the_base_and_the_puts() {
    let a = Digest::from_bytes([1; 32]);
    let b = Digest::from_bytes([2; 32]);
    let delta = Delta {
        base_hash: a,
        ops: vec![
            Op::Put { name: "x".into(), hash: b },
            Op::Remove { name: "y".into() },
            Op::Put { name: "z".into(), hash: a },
        ],
    };
    assert_eq!(extract_outgoing_hashes(&delta.to_cbor().expect("ok")), vec![a, b, a]);
    assert!(extract_outgoing_hashes(b"junk").is_empty());
}

// --- rules of persistent backends ----------------------------------------

#[test]
fn default_configuration() {
    let c = Config::default();
    assert!(c.create_if_missing);
    assert_eq!(c.block_cache_entries, 1024);
    assert_eq!(c.sync_mode, SyncMode::Default);
    assert_eq!(GcStats::default(), GcStats { kept: 0, deleted: 0 });
}

#[test]
fn missing_store_is_only_created_on_request() {
    let no = Config { create_if_missing: false, ..Config::default() };
    let err = admit_open("absent.redb", false, &no).expect_err("must refuse");
    assert!(matches!(err, StoreError::Config(_)), "got {err:?}");
    assert!(admit_open("absent.redb", true, &no).is_ok());
    assert!(admit_open("absent.redb", false, &Config::default()).is_ok());
    assert!(is_recovery(true, true));
    assert!(!is_recovery(false, false));
}

#[test]
fn lookups_are_admitted_by_the_closure() {
    let a = Digest::from_bytes([1; 32]);
    let b = Digest::from_bytes([2; 32]);
    let closure = vec![a];
    assert!(admit_lookup(&a, true, &closure).is_ok());
    assert!(matches!(
        admit_lookup(&b, true, &closure),
        Err(StoreError::Protocol(ReelError::ReachabilityViolation(_)))
    ));
    assert!(matches!(
        admit_lookup(&a, false, &closure),
        Err(StoreError::Protocol(ReelError::BlockNotFound(_)))
    ));
    assert!(prepare_ref(true, "main", &a, None).is_ok());
    assert!(prepare_ref(false, "main", &a, None).is_err());
}

#[test]
fn collection_deletes_exactly_the_orphans() {
    let a = Digest::from_bytes([1; 32]);
    let b = Digest::from_bytes([2; 32]);
    let c = Digest::from_bytes([3; 32]);
    let plan = plan_gc(&vec![a, b, c], &vec![b]);
    assert_eq!(plan.delete, vec![a, c]);
    assert_eq!(plan.stats, GcStats { kept: 1, deleted: 2 });
}

#[test]
fn collection_keeps_what_a_delta_reaches() {
    let mut s = MemStore::new();
    let leaf = small_block(b"leaf");
    let stray = small_block(b"stray");
    s.write_block(&leaf).expect("write");
    s.write_block(&stray).expect("write");
    let delta = Delta {
        base_hash: Digest::from_bytes([0; 32]),
        ops: vec![Op::Put { name: "x".into(), hash: leaf.hash() }],
    };
    let d = Block::new(delta.to_cbor().expect("encodes")).expect("small");
    s.write_block(&d).expect("write");
    let mut ns = Namespace::new();
    ns.insert("main", d.hash());
    let before = s.closure(&ns).expect("closure");
    let stats = s.gc(&ns).expect("gc");
    assert_eq!(stats, GcStats { kept: 2, deleted: 1 });
    assert_eq!(s.closure(&ns).expect("closure"), before, "the closure is the same");
    assert!(s.lookup_by_hash(&leaf.hash(), &ns).is_ok());
    assert!(s.raw_lookup_by_hash(&stray.hash()).is_err());
}
