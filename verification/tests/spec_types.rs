//! Digests, blocks, capabilities, deltas, effects, errors, names, pointers and
//! lineage.

use reel::block::{content_hash, Block, MAX_BLOCK_SIZE};
use reel::capability::{Capability, OpKind, OpSet};
use reel::delta::{Delta, Op};
use reel::effect::{encode_descriptors, EffectDescriptor, VersionKind, VersionRef};
use reel::error::ReelError;
use reel::hash::{bytes_to_hex, hex_nibble, hex_to_bytes, HexError};
use reel::namespace::{namespace_roots, Namespace};
use reel::provenance::{Provenance, Timestamp, KERNEL_VERSION};
use reel::ref_type::{validate_name, Ref, MAX_REF_NAME_BYTES};
use reel::status::Status;
use std::cmp::Ordering;

type Digest = reel::hash::Hash;

fn cap(prefix: &str, ops: &[OpKind], ttl: u64) -> Capability {
    Capability { path_prefix: prefix.to_owned(), op_set: OpSet::of(ops), ttl }
}

// --- digests -------------------------------------------------------------

#[test]
fn round_trip_hex() {
    let raw: [u8; 32] = *blake3::hash(b"reel test").as_bytes();
    let h = Digest::from_bytes(raw);
    let recovered = Digest::from_hex(&h.to_hex()).expect("own hex reads back");
    assert_eq!(h, recovered);
}

#[test]
fn from_blake3() {
    let b3 = blake3::hash(b"hello");
    let h: Digest = b3.into();
    assert_eq!(h.as_bytes(), b3.as_bytes());
}

#[test]
fn array_conversions_keep_the_bytes() {
    let raw: [u8; 32] = *blake3::hash(b"raw").as_bytes();
    let h: Digest = raw.into();
    assert_eq!(h.as_bytes(), &raw);
    let back: [u8; 32] = h.into();
    assert_eq!(back, raw);
}

#[test]
fn invalid_hex_rejected() {
    assert!(Digest::from_hex("not-hex-at-all").is_err());
    assert!(Digest::from_hex("abc").is_err());
}

#[test]
fn hex_errors_say_what_is_wrong() {
    match Digest::from_hex("abc") {
        Err(ReelError::Storage(m)) => {
            assert_eq!(m, "Hash::from_hex: expected 64 hex chars, got 3");
        }
        other => panic!("expected Storage, got {other:?}"),
    }
    let bad = format!("{}g{}", "0".repeat(10), "z".repeat(53));
    match Digest::from_hex(&bad) {
        Err(ReelError::Storage(m)) => assert_eq!(m, "invalid hex character: 0x67"),
        other => panic!("expected Storage, got {other:?}"),
    }
    assert!(matches!(hex_to_bytes("ab"), Err(HexError::Length(2))));
    assert!(matches!(hex_nibble(b'x'), Err(HexError::Char(b'x'))));
    assert_eq!(HexError::Char(b'x').to_string(), "invalid hex character: 0x78");
    assert!(matches!(hex_nibble(b'F'), Ok(15)));
}

#[test]
fn hex_is_lowercase_and_short_is_a_prefix() {
    let mut raw = [0u8; 32];
    raw[0] = 0xAB;
    raw[1] = 0x05;
    raw[31] = 0xFF;
    let h = Digest::from_bytes(raw);
    let hex = h.to_hex();
    assert_eq!(hex.len(), 64);
    assert!(hex.starts_with("ab0500"));
    assert!(hex.ends_with("00ff"));
    assert_eq!(bytes_to_hex(&raw), hex);
    assert_eq!(h.short(), "Hash(ab050000…)");
    let upper = hex.to_uppercase();
    assert_eq!(Digest::from_hex(&upper).expect("either case reads"), h);
}

// --- blocks --------------------------------------------------------------

fn small_block() -> Block {
    Block::new(b"test block data".to_vec()).expect("small payload")
}

#[test]
fn block_new_computes_content_hash() {
    let data = b"hello reel".to_vec();
    let block = Block::new(data.clone()).expect("construction succeeds");
    assert_eq!(block.hash, content_hash(&data), "Block::new must store BLAKE3(data)");
    assert_eq!(block.hash.as_bytes(), blake3::hash(b"hello reel").as_bytes());
    assert_eq!(&block.data[..], b"hello reel");
}

#[test]
fn identical_content_is_identical_block() {
    let a = Block::new(b"identical logical content".to_vec()).expect("ok");
    let b = Block::new(b"identical logical content".to_vec()).expect("ok");
    assert_eq!(a.hash(), b.hash(), "identical content gives identical hash");
    assert_eq!(a, b, "identical content gives an equal block");
}

#[test]
fn different_data_different_hash() {
    let a = Block::new(b"payload A".to_vec()).expect("ok");
    let b = Block::new(b"payload B".to_vec()).expect("ok");
    assert_ne!(a.hash(), b.hash(), "distinct data gives distinct hash");
}

#[test]
fn block_new_rejects_oversized() {
    let big = vec![0u8; MAX_BLOCK_SIZE + 1];
    let err = Block::new(big).expect_err("must reject oversized");
    match err {
        ReelError::Storage(msg) => {
            assert!(msg.contains("MAX_BLOCK_SIZE"), "should mention MAX_BLOCK_SIZE: {msg}");
            assert_eq!(
                msg,
                "Block payload exceeds MAX_BLOCK_SIZE (16777217 > 16777216 bytes)"
            );
        }
        other => panic!("expected Storage, got {other:?}"),
    }
}

#[test]
fn block_new_accepts_max_size() {
    Block::new(vec![0u8; MAX_BLOCK_SIZE]).expect("exact MAX_BLOCK_SIZE is allowed");
}

#[test]
fn max_block_size_value() {
    assert_eq!(MAX_BLOCK_SIZE, 16 * 1024 * 1024, "MAX_BLOCK_SIZE must be exactly 16 MiB");
}

#[test]
fn hash_accessor_idempotent() {
    let b = small_block();
    assert_eq!(b.hash(), b.hash(), "hash() idempotent");
    assert_eq!(b.hash(), b.hash, "hash() matches the stored field");
}

#[test]
fn hash_equals_blake3_data() {
    for n in [0usize, 1, 31, 32, 33, 4096] {
        let data: Vec<u8> = (0..n).map(|i| (i % 251) as u8).collect();
        let block = Block::new(data.clone()).expect("within the limit");
        assert_eq!(block.hash().as_bytes(), blake3::hash(&data).as_bytes());
    }
}

#[test]
fn cloned_block_shares_content() {
    let a = small_block();
    let b = a.clone();
    assert_eq!(a, b);
    assert_eq!(&b.data[..], b"test block data");
}

// --- capabilities --------------------------------------------------------

#[test]
fn narrowing_subset() {
    let parent = cap("/", &[OpKind::Read, OpKind::Write, OpKind::Delete], 3600);
    let child = cap("/docs/", &[OpKind::Read], 600);
    assert!(child.op_set.is_subset(&parent.op_set));
    assert!(child.ttl <= parent.ttl);
}

#[test]
fn covers_is_reflexive() {
    let c = cap("ws/", &[OpKind::Read, OpKind::Write], 60);
    assert!(c.covers(&c), "a Capability is a valid narrowing of itself");
}

#[test]
fn narrow_accepts_equal_and_strict() {
    let parent = cap("ws/", &[OpKind::Read, OpKind::Write], 3600);
    assert!(parent
        .narrow("ws/".into(), OpSet::of(&[OpKind::Read, OpKind::Write]), 3600)
        .is_some());
    let n = parent.narrow("ws/docs/".into(), OpSet::of(&[OpKind::Read]), 600);
    assert!(
        matches!(&n, Some(c) if parent.covers(c)),
        "strict narrowing must succeed and be covered by self"
    );
}

#[test]
fn narrow_rejects_wider_op_set() {
    let parent = cap("ws/", &[OpKind::Read], 60);
    assert!(parent.narrow("ws/".into(), OpSet::of(&[OpKind::Read, OpKind::Write]), 60).is_none());
}

#[test]
fn narrow_rejects_broader_prefix() {
    let parent = cap("ws/docs/", &[OpKind::Read], 60);
    assert!(parent.narrow("ws/".into(), OpSet::of(&[OpKind::Read]), 60).is_none());
}

#[test]
fn narrow_rejects_longer_ttl() {
    let parent = cap("ws/", &[OpKind::Read], 60);
    assert!(parent.narrow("ws/".into(), OpSet::of(&[OpKind::Read]), 120).is_none());
}

#[test]
fn narrow_ttl_unbounded_semantics() {
    let bounded = cap("ws/", &[OpKind::Read], 60);
    assert!(bounded.narrow("ws/".into(), OpSet::of(&[OpKind::Read]), 0).is_none());
    let unbounded = cap("ws/", &[OpKind::Read], 0);
    assert!(unbounded.narrow("ws/".into(), OpSet::of(&[OpKind::Read]), 999).is_some());
    assert!(unbounded.narrow("ws/".into(), OpSet::of(&[OpKind::Read]), 0).is_some());
}

#[test]
fn covers_transitive() {
    let a = cap("a", &[OpKind::Read, OpKind::Write, OpKind::FireC], 0);
    let b = cap("a/b", &[OpKind::Read, OpKind::FireC], 100);
    let c = cap("a/b/c", &[OpKind::FireC], 7);
    assert!(a.covers(&b) && b.covers(&c));
    assert!(a.covers(&c));
    assert!(!c.covers(&a));
}

#[test]
fn op_sets_are_sets() {
    let mut s = OpSet::new();
    assert!(s.is_empty());
    s.insert(OpKind::FireC);
    s.insert(OpKind::Read);
    s.insert(OpKind::Read);
    assert_eq!(s.len(), 2);
    assert_eq!(s.members(), vec![OpKind::Read, OpKind::FireC]);
    assert_eq!(s.names(), vec!["Read".to_owned(), "FireC".to_owned()]);
    let d = s.difference(&OpSet::of(&[OpKind::Read, OpKind::Delete]));
    assert_eq!(d, OpSet::of(&[OpKind::FireC]));
    assert!(!d.contains(&OpKind::Read));
}

// --- deltas --------------------------------------------------------------

#[test]
fn empty_delta() {
    let delta = Delta { base_hash: Digest::from_bytes([0u8; 32]), ops: vec![] };
    assert!(delta.ops.is_empty());
}

#[test]
fn delta_cbor_round_trip() {
    let base = Digest::from_bytes([0u8; 32]);
    let h = Digest::from_bytes(*blake3::hash(b"data").as_bytes());
    let delta = Delta {
        base_hash: base,
        ops: vec![
            Op::Put { name: "a.txt".into(), hash: h },
            Op::Remove { name: "b.txt".into() },
        ],
    };
    let bytes = delta.to_cbor().expect("encodes");
    let back = Delta::from_cbor(&bytes).expect("decodes");
    assert_eq!(delta, back);
    assert!(Delta::from_cbor(b"opaque junk").is_none());
    assert!(Delta::from_cbor(&[]).is_none());
}

#[test]
fn delta_cbor_is_a_map_of_base_and_ops() {
    let h = Digest::from_bytes([1u8; 32]);
    let delta = Delta {
        base_hash: h,
        ops: vec![Op::Put { name: "f".into(), hash: h }, Op::Remove { name: "g".into() }],
    };
    let bytes = delta.to_cbor().expect("encodes");
    let value: ciborium::Value = ciborium::de::from_reader(&bytes[..]).expect("is CBOR");
    let map = value.as_map().expect("is a map");
    assert_eq!(map[0].0.as_text(), Some("base_hash"));
    assert_eq!(map[0].1.as_text(), Some(h.to_hex().as_str()));
    assert_eq!(map[1].0.as_text(), Some("ops"));
    let ops = map[1].1.as_array().expect("is a list");
    let first = ops[0].as_map().expect("is a map");
    assert_eq!(first[0].0.as_text(), Some("kind"));
    assert_eq!(first[0].1.as_text(), Some("put"));
    let second = ops[1].as_map().expect("is a map");
    assert_eq!(second[0].1.as_text(), Some("remove"));
}

// --- effects -------------------------------------------------------------

#[test]
fn descriptors_encode_with_their_class_first() {
    let op = serde_json::Value::from("msg");
    let list = vec![
        EffectDescriptor::A { effect_id: 42, op: op.clone() },
        EffectDescriptor::B {
            effect_id: 1,
            version_ref: VersionRef { kind: VersionKind::ObjectVersionId, value: "v1".into() },
            op: op.clone(),
        },
        EffectDescriptor::C { effect_id: 99, op },
    ];
    let bytes = encode_descriptors(&list).expect("encodes");
    let value: ciborium::Value = ciborium::de::from_reader(&bytes[..]).expect("is CBOR");
    let items = value.as_array().expect("is a list");
    assert_eq!(items.len(), 3);
    for (item, class) in items.iter().zip(["A", "B", "C"]) {
        let map = item.as_map().expect("is a map");
        assert_eq!(map[0].0.as_text(), Some("class"));
        assert_eq!(map[0].1.as_text(), Some(class));
        assert_eq!(map[1].0.as_text(), Some("effect_id"));
    }
    let b = items[1].as_map().expect("is a map");
    assert_eq!(b[2].0.as_text(), Some("version_ref"));
    let version = b[2].1.as_map().expect("is a map");
    assert_eq!(version[0].1.as_text(), Some("object_version_id"));
    let cloned = list[1].clone();
    assert_eq!(cloned, list[1]);
}

#[test]
fn version_kinds_have_wire_names() {
    assert_eq!(VersionKind::Etag.wire_name(), "etag");
    assert_eq!(VersionKind::CommitSha.wire_name(), "commit_sha");
    assert_eq!(VersionKind::ObjectVersionId.wire_name(), "object_version_id");
    assert_eq!(VersionKind::Opaque.wire_name(), "opaque");
}

#[test]
fn descriptor_diagnostics_quote_texts() {
    let d = EffectDescriptor::B {
        effect_id: 3,
        version_ref: VersionRef { kind: VersionKind::Etag, value: "\"v\"".into() },
        op: serde_json::Value::Null,
    };
    assert_eq!(
        d.debug_string(),
        "B { effect_id: 3, version_ref: VersionRef { kind: Etag, value: \"\\\"v\\\"\" }, op: Null }"
    );
    assert_eq!(d.debug_string(), format!("{d:?}"));
}

// --- errors --------------------------------------------------------------

#[test]
fn error_codes_in_messages() {
    let h = Digest::from_bytes([0u8; 32]);
    assert!(ReelError::BlockNotFound(h).to_string().contains("E-001"));
    assert!(ReelError::CommitConflict("conflict reason".into()).to_string().contains("E-002"));
    assert!(ReelError::ClassCAfterAbort.to_string().contains("E-003"));
    let e005 = ReelError::ForkDepthExceeded(65);
    assert!(e005.to_string().contains("E-005"));
    assert!(e005.to_string().contains("65"), "depth in msg");
    assert!(ReelError::EffectDrainTimeout.to_string().contains("E-006"));
    assert!(ReelError::Storage("disk full".into()).to_string().contains("E-007"));
    assert!(ReelError::ViewTerminal(Status::Aborted).to_string().contains("E-008"));
    assert!(ReelError::CapabilityViolation("op not in set".into()).to_string().contains("E-009"));
    assert!(ReelError::ReachabilityViolation(h).to_string().contains("E-010"));
}

#[test]
fn code_accessor_matches_display_prefix() {
    let h = Digest::from_bytes([0u8; 32]);
    let cases: &[(ReelError, &str)] = &[
        (ReelError::BlockNotFound(h), "E-001"),
        (ReelError::CommitConflict("x".into()), "E-002"),
        (ReelError::ClassCAfterAbort, "E-003"),
        (ReelError::ForkDepthExceeded(1), "E-005"),
        (ReelError::EffectDrainTimeout, "E-006"),
        (ReelError::Storage("io".into()), "E-007"),
        (ReelError::ViewTerminal(Status::Committed), "E-008"),
        (ReelError::CapabilityViolation("y".into()), "E-009"),
        (ReelError::ReachabilityViolation(h), "E-010"),
    ];
    for (err, code) in cases {
        assert_eq!(err.code(), *code, "code() != expected for {err:?}");
        assert!(err.to_string().starts_with(code), "prefix != code: {err:?}");
    }
}

#[test]
fn severity_classes_align_with_errors_yaml() {
    let h = Digest::from_bytes([0u8; 32]);
    assert!(ReelError::BlockNotFound(h).is_recoverable());
    assert!(ReelError::CommitConflict("x".into()).is_recoverable());
    assert!(ReelError::ForkDepthExceeded(1).is_recoverable());
    assert!(ReelError::ViewTerminal(Status::Committed).is_recoverable());
    assert!(ReelError::CapabilityViolation("y".into()).is_recoverable());
    assert!(ReelError::ReachabilityViolation(h).is_recoverable());
    assert!(!ReelError::ClassCAfterAbort.is_recoverable());
    assert!(!ReelError::EffectDrainTimeout.is_recoverable());
    assert!(!ReelError::Storage("disk".into()).is_recoverable());
}

#[test]
fn nine_variants_count() {
    let h = Digest::from_bytes([0u8; 32]);
    let variants: &[&str] = &[
        &ReelError::BlockNotFound(h).to_string(),
        &ReelError::CommitConflict("x".into()).to_string(),
        &ReelError::ClassCAfterAbort.to_string(),
        &ReelError::ForkDepthExceeded(1).to_string(),
        &ReelError::EffectDrainTimeout.to_string(),
        &ReelError::Storage("io".into()).to_string(),
        &ReelError::ViewTerminal(Status::Committed).to_string(),
        &ReelError::CapabilityViolation("y".into()).to_string(),
        &ReelError::ReachabilityViolation(h).to_string(),
    ];
    assert_eq!(variants.len(), 9);
    let mut distinct: Vec<&str> = variants.to_vec();
    distinct.sort_unstable();
    distinct.dedup();
    assert_eq!(distinct.len(), 9);
}

// --- names ---------------------------------------------------------------

fn h(byte: u8) -> Digest {
    Digest::from_bytes([byte; 32])
}

#[test]
fn empty_namespace_is_empty() {
    let ns = Namespace::new();
    assert!(ns.is_empty());
    assert_eq!(ns.len(), 0);
}

#[test]
fn insert_then_get() {
    let mut ns = Namespace::new();
    ns.insert("k", h(1));
    assert_eq!(ns.get("k"), Some(h(1)));
    assert_eq!(ns.len(), 1);
}

#[test]
fn clone_preserves_bindings() {
    let mut parent = Namespace::new();
    parent.insert("a", h(1));
    parent.insert("b", h(2));
    let child = parent.clone();
    assert_eq!(child.get("a"), Some(h(1)));
    assert_eq!(child.get("b"), Some(h(2)));
    assert_eq!(child.len(), 2);
}

#[test]
fn child_writes_do_not_mutate_parent() {
    let mut parent = Namespace::new();
    parent.insert("shared", h(1));
    let mut child = parent.clone();
    child.insert("only-in-child", h(2));
    assert_eq!(parent.get("shared"), Some(h(1)));
    assert_eq!(parent.get("only-in-child"), None);
    assert_eq!(parent.len(), 1);
    assert_eq!(child.get("shared"), Some(h(1)));
    assert_eq!(child.get("only-in-child"), Some(h(2)));
    assert_eq!(child.len(), 2);
}

#[test]
fn iteration_is_sorted() {
    let mut ns = Namespace::new();
    ns.insert("c", h(3));
    ns.insert("a", h(1));
    ns.insert("b", h(2));
    let keys: Vec<String> = ns.entries().into_iter().map(|(k, _)| k).collect();
    assert_eq!(keys, vec!["a", "b", "c"]);
}

#[test]
fn refname_short_string_inline() {
    let mut ns = Namespace::new();
    ns.insert("ws/docs/readme.md", h(9));
    let entries = ns.entries();
    assert_eq!(entries[0].0.as_str(), "ws/docs/readme.md");
    assert_eq!(entries[0].0.len(), 17);
}

#[test]
fn remove_hands_out_the_binding() {
    let mut ns = Namespace::default();
    ns.insert("k", h(1));
    ns.insert("k", h(2));
    assert_eq!(ns.remove("k"), Some(h(2)));
    assert_eq!(ns.remove("k"), None);
    assert!(ns.is_empty());
}

#[test]
fn namespace_roots_dedup_and_sort() {
    let h1 = Digest::from_bytes([1; 32]);
    let h2 = Digest::from_bytes([2; 32]);
    let mut ns = Namespace::new();
    ns.insert("a", h2);
    ns.insert("b", h1);
    ns.insert("c", h2);
    let roots = namespace_roots(&ns);
    assert_eq!(roots, vec![h1, h2]);
}

// --- lineage -------------------------------------------------------------

#[test]
fn current_has_pkg_version_and_no_signer() {
    let p = Provenance::current();
    assert_eq!(p.kernel_version, KERNEL_VERSION);
    assert_eq!(p.kernel_version, "0.1.0");
    assert!(p.signer.is_none(), "signer MUST be None in v0.1");
    assert!(p.created_at.seconds > 1_600_000_000, "the clock is past 2020");
    let at = Timestamp { seconds: 7, nanos: 123_456_789 };
    assert_eq!(Provenance::at(at).created_at, at);
    assert_eq!(Provenance::at(at).clone(), Provenance::at(at));
    assert_eq!(p.clone(), p);
}

// --- pointers ------------------------------------------------------------

fn fixed_hash() -> Digest {
    Digest::from_bytes([0xAB; 32])
}

fn fixed_version_ref() -> VersionRef {
    VersionRef { kind: VersionKind::Etag, value: "\"abc123\"".into() }
}

#[test]
fn new_accepts_simple_name() {
    let r = Ref::new("main", fixed_hash()).expect("accepted");
    assert_eq!(r.name(), "main");
    assert_eq!(r.hash(), &fixed_hash());
    assert!(r.version_constraint().is_none());
}

#[test]
fn new_accepts_path_style_name() {
    let r = Ref::new("workspace/feature/branch", fixed_hash()).expect("accepted");
    assert_eq!(r.name(), "workspace/feature/branch");
}

#[test]
fn new_accepts_utf8_multibyte() {
    let r = Ref::new("αβγ/测试/🎬", fixed_hash()).expect("accepted");
    assert_eq!(r.name(), "αβγ/测试/🎬");
}

#[test]
fn new_rejects_empty_name() {
    let err = Ref::new("", fixed_hash()).expect_err("empty must be rejected");
    match err {
        ReelError::Storage(msg) => {
            assert!(msg.contains("non-empty"), "msg must mention non-empty, got: {msg}");
        }
        other => panic!("expected ReelError::Storage, got {other:?}"),
    }
}

#[test]
fn new_accepts_name_at_max_length() {
    let name = "a".repeat(MAX_REF_NAME_BYTES);
    assert_eq!(name.len(), MAX_REF_NAME_BYTES);
    let r = Ref::new(&name, fixed_hash()).expect("accepted");
    assert_eq!(r.name().len(), MAX_REF_NAME_BYTES);
}

#[test]
fn new_rejects_name_over_max_length() {
    let name = "a".repeat(MAX_REF_NAME_BYTES + 1);
    let err = Ref::new(&name, fixed_hash()).expect_err("oversize must be rejected");
    match err {
        ReelError::Storage(msg) => {
            assert!(
                msg.contains("MAX_REF_NAME_BYTES"),
                "msg must mention MAX_REF_NAME_BYTES, got: {msg}"
            );
        }
        other => panic!("expected ReelError::Storage, got {other:?}"),
    }
    assert!(validate_name(&name).is_err());
}

#[test]
fn new_max_length_uses_byte_count_not_char_count() {
    let glyph = "🎬";
    assert_eq!(glyph.len(), 4);
    let name = glyph.repeat(MAX_REF_NAME_BYTES / 4);
    assert_eq!(name.len(), MAX_REF_NAME_BYTES);
    Ref::new(&name, fixed_hash()).expect("accepted");
    let oversize = glyph.repeat((MAX_REF_NAME_BYTES / 4) + 1);
    assert!(oversize.len() > MAX_REF_NAME_BYTES);
    let err = Ref::new(&oversize, fixed_hash()).expect_err("oversize must reject");
    assert!(matches!(err, ReelError::Storage(_)));
}

#[test]
fn with_version_constraint_stores_version_ref() {
    let vr = fixed_version_ref();
    let r = Ref::with_version_constraint("api/items", fixed_hash(), vr.clone()).expect("accepted");
    assert_eq!(r.name(), "api/items");
    assert_eq!(r.version_constraint(), Some(&vr));
}

#[test]
fn with_version_constraint_validates_name() {
    let vr = fixed_version_ref();
    let err = Ref::with_version_constraint("", fixed_hash(), vr)
        .expect_err("empty name must be rejected here too");
    assert!(matches!(err, ReelError::Storage(_)));
}

#[test]
fn accessors_match_fields() {
    let vr = fixed_version_ref();
    let r = Ref::with_version_constraint("k", fixed_hash(), vr.clone()).expect("accepted");
    assert_eq!(r.name(), &r.name);
    assert_eq!(r.hash(), &r.hash);
    assert_eq!(r.version_constraint(), Some(&vr));
}

#[test]
fn ord_sorts_by_name_ascending() {
    let mut refs: Vec<Ref> = (0..10u8)
        .map(|i| Ref::new(&format!("{i:02}"), Digest::from_bytes([i; 32])).expect("accepted"))
        .collect();
    refs.reverse();
    refs.sort_by(|a, b| a.partial_cmp(b).expect("names always compare"));
    for (i, r) in refs.iter().enumerate() {
        assert_eq!(r.name, format!("{i:02}"), "sort by name");
    }
}

#[test]
fn ord_ignores_hash_and_version_constraint() {
    let h1 = Digest::from_bytes([1u8; 32]);
    let h2 = Digest::from_bytes([2u8; 32]);
    let a = Ref::new("same", h1).expect("accepted");
    let b = Ref::with_version_constraint("same", h2, fixed_version_ref()).expect("accepted");
    assert_eq!(a.partial_cmp(&b), Some(Ordering::Equal));
    assert_eq!(b.partial_cmp(&a), Some(Ordering::Equal));
}

#[test]
fn ord_total_ordering_holds() {
    let a = Ref::new("alpha", fixed_hash()).expect("accepted");
    let b = Ref::new("beta", fixed_hash()).expect("accepted");
    let c = Ref::new("gamma", fixed_hash()).expect("accepted");
    assert!(a < b);
    assert!(b < c);
    assert!(a < c, "transitivity");
}

#[test]
fn codes_are_distinct() {
    let h = Digest::from_bytes([0u8; 32]);
    let errors = [
        ReelError::BlockNotFound(h),
        ReelError::CommitConflict("x".into()),
        ReelError::ClassCAfterAbort,
        ReelError::ForkDepthExceeded(1),
        ReelError::EffectDrainTimeout,
        ReelError::Storage("io".into()),
        ReelError::ViewTerminal(Status::Committed),
        ReelError::CapabilityViolation("y".into()),
        ReelError::ReachabilityViolation(h),
    ];
    let mut codes: Vec<&str> = errors.iter().map(|e| e.code()).collect();
    codes.sort_unstable();
    codes.dedup();
    assert_eq!(codes.len(), 9);
    assert!(!codes.contains(&"E-004"), "the retired code is not reused");
}

// --- forms of a delta that are read ---------------------------------------

type Item = ciborium::Value;

fn item_text(s: &str) -> Item {
    Item::Text(s.to_owned())
}

fn item_map(entries: Vec<(Item, Item)>) -> Item {
    Item::Map(entries)
}

fn read_item(item: &Item) -> Option<Delta> {
    let mut bytes = Vec::new();
    ciborium::into_writer(item, &mut bytes).expect("a vector takes every write");
    Delta::from_cbor(&bytes)
}

fn with_ops(ops: Item) -> Item {
    item_map(vec![
        (item_text("base_hash"), item_text(&"07".repeat(32))),
        (item_text("ops"), ops),
    ])
}

fn read_one(op: Item) -> Option<Op> {
    read_item(&with_ops(Item::Array(vec![op]))).map(|mut d| d.ops.remove(0))
}

fn put_entries() -> Vec<(Item, Item)> {
    vec![
        (item_text("kind"), item_text("put")),
        (item_text("name"), item_text("f")),
        (item_text("hash"), item_text(&"01".repeat(32))),
    ]
}

#[test]
fn a_delta_is_read_with_tags_and_byte_string_keys() {
    let plain = with_ops(Item::Array(vec![]));
    let expected = Delta { base_hash: Digest::from_bytes([7; 32]), ops: vec![] };
    assert_eq!(read_item(&plain), Some(expected.clone()));
    let tagged = |x: Item| Item::Tag(77, Box::new(x));
    assert_eq!(read_item(&tagged(tagged(plain))), Some(expected.clone()));
    let base = item_text(&"07".repeat(32));
    let odd = item_map(vec![
        (Item::Bytes(b"ops".to_vec()), tagged(Item::Array(vec![]))),
        (tagged(item_text("base_hash")), tagged(base.clone())),
        (item_text("more"), tagged(Item::Null)),
    ]);
    assert_eq!(read_item(&odd), Some(expected.clone()));
    assert_eq!(read_item(&with_ops(Item::Bytes(vec![]))), Some(expected));
    assert_eq!(read_item(&with_ops(Item::Bytes(vec![0]))), None);
    assert_eq!(read_item(&with_ops(Item::Null)), None);

    let refused = |key: Item| {
        read_item(&item_map(vec![
            (item_text("base_hash"), base.clone()),
            (item_text("ops"), Item::Array(vec![])),
            (key, Item::Null),
        ]))
        .is_none()
    };
    assert!(refused(Item::Bool(true)), "a key is a text or a byte string");
    assert!(refused(item_text("ops")), "a field comes once");
    assert!(refused(Item::Bytes(b"base_hash".to_vec())), "in either form");
    assert!(refused(item_text(&"k".repeat(4097))), "a key is not too long");
    assert!(!refused(item_text(&"k".repeat(4096))));
    let bytes_base = item_map(vec![
        (item_text("base_hash"), Item::Bytes("07".repeat(32).into_bytes())),
        (item_text("ops"), Item::Array(vec![])),
    ]);
    assert_eq!(read_item(&bytes_base), None, "the base is a text");
}

#[test]
fn a_mutation_is_read_as_a_map_or_a_list() {
    let put = Op::Put { name: "f".into(), hash: Digest::from_bytes([1; 32]) };
    let remove = Op::Remove { name: "f".into() };
    let hash = || item_text(&"01".repeat(32));
    assert_eq!(read_one(item_map(put_entries())), Some(put.clone()));
    let list = |items: &[Item]| read_one(Item::Array(items.to_vec()));
    assert_eq!(list(&[item_text("put"), item_text("f"), hash()]), Some(put.clone()));
    assert_eq!(list(&[item_text("remove"), item_text("f")]), Some(remove.clone()));
    assert_eq!(list(&[Item::Bytes(b"remove".to_vec()), item_text("f")]), Some(remove.clone()));
    assert_eq!(list(&[item_text("put"), item_text("f")]), None);
    assert_eq!(list(&[item_text("remove"), item_text("f"), hash()]), None);
    assert_eq!(list(&[]), None);

    let by_place = item_map(vec![
        (Item::from(1), hash()),
        (Item::Bytes(b"kind".to_vec()), Item::Tag(9, Box::new(item_text("put")))),
        (Item::from(0), Item::Bytes(b"f".to_vec())),
        (Item::from(2), Item::Null),
    ]);
    assert_eq!(read_one(by_place), Some(put));
    let other_fields = item_map(vec![
        (item_text("kind"), item_text("remove")),
        (item_text("name"), item_text("f")),
        (item_text("hash"), Item::Null),
        (item_text("hash"), Item::Array(vec![Item::Bool(true)])),
    ]);
    assert_eq!(read_one(other_fields), Some(remove));

    let with = |key: Item, value: Item| {
        let mut entries = put_entries();
        entries.push((key, value));
        read_one(item_map(entries))
    };
    assert!(with(item_text("more"), Item::Array(vec![Item::from(-1)])).is_some());
    assert_eq!(with(item_text("more"), Item::Tag(9, Box::new(Item::Null))), None);
    assert_eq!(
        with(item_text("more"), Item::Array(vec![Item::Tag(9, Box::new(Item::Null))])),
        None
    );
    assert_eq!(with(Item::from(-1), Item::Null), None);
    assert_eq!(with(Item::from(0), item_text("g")), None, "the name comes once");
    assert_eq!(with(item_text("kind"), item_text("put")), None, "the kind comes once");
    assert_eq!(read_one(Item::Tag(9, Box::new(item_map(put_entries())))), None);
    let mut bad_name = put_entries();
    bad_name[1].1 = Item::Bytes(vec![0xff]);
    assert_eq!(read_one(item_map(bad_name)), None, "a name is UTF-8");
}

const MAP_OF_TWO: u8 = 0xa2;
const MAP_OF_THREE: u8 = 0xa3;
const OPEN_MAP: u8 = 0xbf;
const OPEN_ARRAY: u8 = 0x9f;
const OPEN_TEXT: u8 = 0x7f;
const OPEN_BYTES: u8 = 0x5f;
const BREAK: u8 = 0xff;

/// A text in one piece.
fn text_item(s: &str) -> Vec<u8> {
    assert!(s.len() < 256);
    [&[0x78, s.len() as u8][..], s.as_bytes()].concat()
}

/// A text in two chunks.
fn chunked(s: &str) -> Vec<u8> {
    let (a, b) = s.split_at(1);
    [vec![OPEN_TEXT], text_item(a), text_item(b), vec![BREAK]].concat()
}

fn base_entry() -> Vec<u8> {
    [text_item("base_hash"), text_item(&"07".repeat(32))].concat()
}

fn nested(depth: usize) -> Vec<u8> {
    let mut b = vec![0x81; depth - 1];
    b.push(0x80);
    b
}

fn seven() -> Delta {
    Delta { base_hash: Digest::from_bytes([7; 32]), ops: vec![] }
}

#[test]
fn keys_of_a_delta_come_in_one_piece() {
    let whole = [vec![MAP_OF_TWO], base_entry(), text_item("ops"), vec![0x80]].concat();
    assert_eq!(Delta::from_cbor(&whole), Some(seven()));
    let cut = [vec![MAP_OF_TWO], base_entry(), chunked("ops"), vec![0x80]].concat();
    assert_eq!(Delta::from_cbor(&cut), None);
    let cut_other = [
        vec![MAP_OF_THREE],
        base_entry(),
        text_item("ops"),
        vec![0x80],
        chunked("more"),
        vec![0xf6],
    ]
    .concat();
    assert_eq!(Delta::from_cbor(&cut_other), None);
    let cut_values = [
        vec![OPEN_MAP],
        text_item("base_hash"),
        chunked(&"07".repeat(32)),
        text_item("ops"),
        vec![OPEN_BYTES, 0x40, BREAK],
        vec![BREAK],
        b"what follows does not matter".to_vec(),
    ]
    .concat();
    assert_eq!(Delta::from_cbor(&cut_values), Some(seven()));
    let cut_short = &whole[..whole.len() - 1];
    assert_eq!(Delta::from_cbor(cut_short), None);
    let no_utf8 = [vec![MAP_OF_THREE], base_entry(), text_item("ops"), vec![0x80, 0x61, 0xff, 0xf6]]
        .concat();
    assert_eq!(Delta::from_cbor(&no_utf8), None);
    let raw_key = [vec![MAP_OF_THREE], base_entry(), text_item("ops"), vec![0x80, 0x41, 0xff, 0xf6]]
        .concat();
    assert_eq!(Delta::from_cbor(&raw_key), Some(seven()));
}

#[test]
fn a_tag_in_front_of_a_key_of_a_delta_means_nothing() {
    let key = [vec![0xc2, 0x43], b"ops".to_vec()].concat();
    let big = [vec![MAP_OF_TWO], base_entry(), key, vec![0xc3, 0x40]].concat();
    assert_eq!(Delta::from_cbor(&big), Some(seven()));
}

fn one_op(op: Vec<u8>) -> Option<Op> {
    let b = [vec![MAP_OF_TWO], base_entry(), text_item("ops"), vec![OPEN_ARRAY], op, vec![BREAK]];
    Delta::from_cbor(&b.concat()).map(|mut d| d.ops.remove(0))
}

#[test]
fn a_mutation_holds_no_tagged_number() {
    let remove = Some(Op::Remove { name: "f".into() });
    let start = [vec![MAP_OF_TWO], text_item("kind"), text_item("remove")].concat();
    let by_place = |key: &[u8]| one_op([&start[..], key, &text_item("f")[..]].concat());
    assert_eq!(by_place(&[0x00]), remove);
    assert_eq!(by_place(&[0x18, 0x00]), remove, "a long head");
    assert_eq!(by_place(&[0xc2, 0x41, 0x00]), None, "the same number, tagged");
    assert_eq!(by_place(&chunked("name")), remove);

    let more = [vec![MAP_OF_THREE], text_item("kind"), text_item("remove"), text_item("name")];
    let with = |value: &[u8]| {
        one_op([&more.concat()[..], &text_item("f")[..], &text_item("more")[..], value].concat())
    };
    assert_eq!(with(&[0x81, 0x41, 0xc2]), remove, "bytes are no heads");
    assert_eq!(with(&[0x81, 0xc2, 0x41, 0x05]), None);
    assert_eq!(with(&[0x3b, 0x7f, 0xff, 0xff, 0xff, 0xff, 0xff, 0xff, 0xff]), remove);
    assert_eq!(with(&[0x3b, 0x80, 0, 0, 0, 0, 0, 0, 0]), None, "below 64 bits");
    assert_eq!(with(&[0x1b, 0xff, 0xff, 0xff, 0xff, 0xff, 0xff, 0xff, 0xff]), remove);
    let kind = [vec![MAP_OF_TWO], text_item("kind"), chunked("remove"), text_item("name")];
    assert_eq!(one_op([&kind.concat()[..], &text_item("f")[..]].concat()), None);
    let tagged = [vec![MAP_OF_TWO], text_item("kind"), vec![0xc2, 0x46], b"remove".to_vec()];
    assert_eq!(
        one_op([&tagged.concat()[..], &text_item("name")[..], &text_item("f")[..]].concat()),
        remove
    );
}

#[test]
fn a_delta_is_nested_only_so_deep() {
    let with = |value: Vec<u8>| {
        let b = [vec![MAP_OF_THREE], base_entry(), text_item("ops"), vec![0x80], text_item("x")];
        Delta::from_cbor(&[b.concat(), value].concat())
    };
    assert_eq!(with(nested(255)), Some(seven()));
    assert_eq!(with(nested(256)), None);
    let in_op = |value: Vec<u8>| {
        let b = [
            vec![MAP_OF_THREE],
            text_item("kind"),
            text_item("remove"),
            text_item("name"),
            text_item("f"),
            text_item("x"),
        ];
        one_op([b.concat(), value].concat())
    };
    assert!(in_op(nested(253)).is_some());
    assert_eq!(in_op(nested(254)), None);
}

#[test]
fn long_names_are_read_back() {
    for n in [0usize, 23, 24, 255, 256, 4096, 4097, 65535, 65536] {
        let d = Delta {
            base_hash: Digest::from_bytes([9; 32]),
            ops: vec![Op::Remove { name: "é".repeat(n) }; 30],
        };
        assert_eq!(Delta::from_cbor(&d.to_cbor().expect("encodes")), Some(d));
    }
}

#[test]
fn capabilities_that_cover_each_other_are_the_same() {
    let cap = |kinds: &[OpKind]| Capability {
        path_prefix: "/a".into(),
        op_set: OpSet::of(kinds),
        ttl: 9,
    };
    let a = cap(&[OpKind::Read, OpKind::FireC]);
    let b = cap(&[OpKind::FireC, OpKind::Read, OpKind::FireC]);
    assert!(a.covers(&b) && b.covers(&a));
    assert_eq!(a.op_set, b.op_set, "a set is its members");
    let narrower = cap(&[OpKind::Read]);
    assert!(a.covers(&narrower) && !narrower.covers(&a));
    assert_ne!(a.op_set, narrower.op_set);
}
