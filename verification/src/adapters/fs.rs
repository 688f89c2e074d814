//! The filesystem adapter: pure local effects, and the decisions that bring a
//! delta onto a disk.

use vstd::prelude::*;
use vstd::std_specs::convert::FromSpec;

use crate::block::{content_hash, Block};
use crate::capability;
use crate::capability::{Capability, OpKind};
use crate::delta;
use crate::delta::{Delta, Op};
use crate::effects::class_a::ClassA;
use crate::effects::sealed::Sealed;
use crate::error::ReelError;
use crate::hash;
use crate::interop::digest;
use crate::interop::octets;
use crate::text;
use crate::text::{same_text, starts_with};
use crate::view;
use crate::view::set_string;

verus! {

/// How far an effect reaches.
#[derive(Clone, Copy, Debug, PartialEq, Eq, Structural)]
pub enum EffectClass {
    /// Pure local, reversible.
    A,
    /// Idempotent remote.
    B,
    /// Irreversible remote.
    C,
}

/// What applying one mutation did to the disk.
#[derive(Clone, Copy, Debug, PartialEq, Eq, Structural)]
pub enum ApplyOutcome {
    /// The file was written or removed.
    Changed,
    /// The file already was as wanted.
    Unchanged,
}

/// Why the filesystem adapter refused or failed.
#[derive(Debug)]
pub enum FsAdapterError {
    /// The capability does not permit the mutation.
    CapabilityViolation(String),
    /// The name leads out of the root directory.
    NamespaceEscape(String),
    /// The filesystem failed.
    Io(String),
}

impl FsAdapterError {
    /// The message of the error.
    pub open spec fn message(&self) -> Seq<char> {
        match self {
            FsAdapterError::CapabilityViolation(m) => "E-009 CapabilityViolation: "@ + m@,
            FsAdapterError::NamespaceEscape(m) => "E-009 NamespaceEscape: "@ + m@,
            FsAdapterError::Io(m) => "E-007 Storage: "@ + m@,
        }
    }

    /// The error is a capability violation with this text.
    pub open spec fn is_violation(&self, text: Seq<char>) -> bool {
        *self matches FsAdapterError::CapabilityViolation(m) && m@ == text
    }

    /// The error is a namespace escape with this text.
    pub open spec fn is_escape(&self, text: Seq<char>) -> bool {
        *self matches FsAdapterError::NamespaceEscape(m) && m@ == text
    }

    /// The error is a filesystem failure with this text.
    pub open spec fn is_io(&self, text: Seq<char>) -> bool {
        *self matches FsAdapterError::Io(m) && m@ == text
    }

    /// Renders the error with its code.
    pub fn to_string(&self) -> (s: String)
        ensures
            s@ == self.message(),
    {
        match self {
            FsAdapterError::CapabilityViolation(m) => String::from_str(
                "E-009 CapabilityViolation: ",
            ).concat(m.as_str()),
            FsAdapterError::NamespaceEscape(m) => String::from_str("E-009 NamespaceEscape: ").concat(
                m.as_str(),
            ),
            FsAdapterError::Io(m) => String::from_str("E-007 Storage: ").concat(m.as_str()),
        }
    }
}

impl From<FsAdapterError> for ReelError {
    fn from(err: FsAdapterError) -> (e: ReelError) {
        match err {
            FsAdapterError::CapabilityViolation(m) => ReelError::CapabilityViolation(m),
            FsAdapterError::NamespaceEscape(m) => ReelError::CapabilityViolation(m),
            FsAdapterError::Io(m) => ReelError::Storage(m),
        }
    }
}

impl vstd::std_specs::convert::FromSpecImpl<FsAdapterError> for ReelError {
    open spec fn obeys_from_spec() -> bool {
        true
    }

    open spec fn from_spec(err: FsAdapterError) -> ReelError {
        match err {
            FsAdapterError::CapabilityViolation(m) => ReelError::CapabilityViolation(m),
            FsAdapterError::NamespaceEscape(m) => ReelError::CapabilityViolation(m),
            FsAdapterError::Io(m) => ReelError::Storage(m),
        }
    }
}

/// Writes a file: puts a name.
#[derive(Debug, PartialEq, Eq)]
pub struct FsPut {
    /// The name.
    pub name: String,
    /// The block with the content.
    pub hash: crate::hash::Hash,
}

impl Clone for FsPut {
    fn clone(&self) -> (e: Self)
        ensures
            e.mutation() == self.mutation(),
    {
        FsPut { name: self.name.clone(), hash: self.hash }
    }
}

impl Sealed for FsPut {

}

impl ClassA for FsPut {
    type Witness = ();

    open spec fn mutation(&self) -> delta::Mutation {
        delta::Mutation::Put(self.name@, self.hash)
    }

    open spec fn witnessed(&self, before: (), after: ()) -> bool {
        true
    }

    fn apply(&self, witness: &mut ()) -> (op: Op) {
        Op::Put { name: self.name.clone(), hash: self.hash }
    }
}

/// Removes a file: removes a name.
#[derive(Debug, PartialEq, Eq)]
pub struct FsRemove {
    /// The name.
    pub name: String,
}

impl Clone for FsRemove {
    fn clone(&self) -> (e: Self)
        ensures
            e.mutation() == self.mutation(),
    {
        FsRemove { name: self.name.clone() }
    }
}

impl Sealed for FsRemove {

}

impl ClassA for FsRemove {
    type Witness = ();

    open spec fn mutation(&self) -> delta::Mutation {
        delta::Mutation::Remove(self.name@)
    }

    open spec fn witnessed(&self, before: (), after: ()) -> bool {
        true
    }

    fn apply(&self, witness: &mut ()) -> (op: Op) {
        Op::Remove { name: self.name.clone() }
    }
}

/// The name that a mutation is about.
pub open spec fn name_of(m: delta::Mutation) -> Seq<char> {
    match m {
        delta::Mutation::Put(name, _) => name,
        delta::Mutation::Remove(name) => name,
    }
}

/// The operation that a mutation needs.
pub open spec fn needed_kind(m: delta::Mutation) -> OpKind {
    match m {
        delta::Mutation::Put(_, _) => OpKind::Write,
        delta::Mutation::Remove(_) => OpKind::Delete,
    }
}

/// The authority permits the mutation: its name has the prefix and its
/// operation is in the set.
pub open spec fn is_authorised(m: delta::Mutation, a: capability::Authority) -> bool {
    &&& text::has_prefix(name_of(m), a.path_prefix)
    &&& a.op_set.view().contains(needed_kind(m))
}

/// Why the authority does not permit the mutation.
pub open spec fn authorise_refusal(m: delta::Mutation, a: capability::Authority) -> Seq<char> {
    if !text::has_prefix(name_of(m), a.path_prefix) {
        "I-003 violation: op name '"@ + name_of(m) + "' does not start with cap path_prefix '"@
            + a.path_prefix + "'"@
    } else {
        "I-003 violation: op requires "@ + needed_kind(m).spec_name()
            + " which is absent from cap.op_set "@ + view::set_text(a.op_set.view())
    }
}

/// Checks that `cap` permits `op`.
pub fn authorise(op: &Op, cap: &Capability) -> (r: Result<(), FsAdapterError>)
    ensures
        r is Ok <==> is_authorised(op.view(), cap.view()),
        r matches Err(e) ==> e.is_violation(authorise_refusal(op.view(), cap.view())),
{
    let (name, required) = match op {
        Op::Put { name, .. } => (name, OpKind::Write),
        Op::Remove { name } => (name, OpKind::Delete),
    };
    if !starts_with(name.as_str(), cap.path_prefix.as_str()) {
        return Err(
            FsAdapterError::CapabilityViolation(
                String::from_str("I-003 violation: op name '").concat(name.as_str()).concat(
                    "' does not start with cap path_prefix '",
                ).concat(cap.path_prefix.as_str()).concat("'"),
            ),
        );
    }
    if !cap.op_set.contains(&required) {
        return Err(
            FsAdapterError::CapabilityViolation(
                String::from_str("I-003 violation: op requires ").concat(required.name()).concat(
                    " which is absent from cap.op_set ",
                ).concat(set_string(&cap.op_set).as_str()),
            ),
        );
    }
    Ok(())
}

/// The first mutation that the authority does not permit stands at `i`.
pub open spec fn first_refused(
    ops: Seq<delta::Mutation>,
    a: capability::Authority,
    i: int,
) -> bool {
    &&& 0 <= i < ops.len()
    &&& !is_authorised(ops[i], a)
    &&& forall|j: int| 0 <= j < i ==> is_authorised(#[trigger] ops[j], a)
}

/// The authority permits every mutation.
pub open spec fn all_authorised(ops: Seq<delta::Mutation>, a: capability::Authority) -> bool {
    forall|j: int| 0 <= j < ops.len() ==> is_authorised(#[trigger] ops[j], a)
}

/// A path segment `..` stands at position `i` of the name.
pub open spec fn parent_segment_at(name: Seq<char>, i: int) -> bool {
    &&& 0 <= i
    &&& i + 2 <= name.len()
    &&& name[i] == '.'
    &&& name[i + 1] == '.'
    &&& i == 0 || name[i - 1] == '/'
    &&& i + 2 == name.len() || name[i + 2] == '/'
}

/// A path segment of the name is `..`.
pub open spec fn has_parent_segment(name: Seq<char>) -> bool {
    exists|i: int| parent_segment_at(name, i)
}

/// The name leads to a place below the root: it is neither empty nor
/// absolute, and none of its segments is `..`.
pub open spec fn stays_below_root(name: Seq<char>) -> bool {
    &&& name.len() > 0
    &&& name[0] != '/'
    &&& !has_parent_segment(name)
}

/// Why a name leads out of the root.
pub open spec fn escape_refusal(name: Seq<char>) -> Seq<char> {
    if name.len() == 0 {
        "empty op name"@
    } else if name[0] == '/' {
        "absolute path not allowed: '"@ + name + "'"@
    } else {
        "parent-dir traversal not allowed: '"@ + name + "'"@
    }
}

fn finds_parent_segment(name: &str) -> (r: bool)
    ensures
        r == has_parent_segment(name@),
{
    let mut chars = name.chars();
    let ghost s = name@;
    let ghost mut i: int = 0;
    let ghost mut k: int = 0;
    let mut dots: u8 = 0;
    loop
        invariant
            s == name@,
            0 <= k <= i <= s.len(),
            vstd::std_specs::iter::IteratorSpec::obeys_prophetic_iter_laws(&chars),
            vstd::std_specs::iter::IteratorSpec::remaining(&chars) == s.skip(i),
            k == 0 || s[k - 1] == '/',
            forall|j: int| k <= j < i ==> s[j] != '/',
            forall|p: int| 0 <= p < k ==> !parent_segment_at(s, p),
            dots <= 3,
            dots == 0 ==> i == k,
            dots == 1 ==> i == k + 1 && s[k] == '.',
            dots == 2 ==> i == k + 2 && s[k] == '.' && s[k + 1] == '.',
            dots == 3 ==> i > k && !parent_segment_at(s, k),
        decreases s.len() - i,
    {
        match chars.next() {
            None => {
                assert(i == s.len());
                proof {
                    if dots == 2 {
                        assert(parent_segment_at(s, k));
                    } else {
                        assert forall|p: int| !parent_segment_at(s, p) by {
                            if p > k && p < i {
                                assert(s[p - 1] != '/');
                            }
                        }
                    }
                }
                return dots == 2;
            },
            Some(c) => {
                assert(c == s[i]);
                if c == '/' {
                    if dots == 2 {
                        assert(parent_segment_at(s, k));
                        return true;
                    }
                    dots = 0;
                    proof {
                        assert forall|p: int| 0 <= p < i + 1 implies !parent_segment_at(s, p) by {
                            if p > k && p < i {
                                assert(s[p - 1] != '/');
                            }
                        }
                        k = i + 1;
                    }
                } else if c == '.' && dots < 2 {
                    dots = dots + 1;
                } else {
                    dots = 3;
                    assert(!parent_segment_at(s, k));
                }
                proof {
                    assert(s.skip(i).drop_first() =~= s.skip(i + 1));
                    i = i + 1;
                }
            },
        }
    }
}

/// The path of `name` below the root, unless the name leads out of it.
pub fn resolve(name: &str) -> (r: Result<String, FsAdapterError>)
    ensures
        match r {
            Ok(path) => stays_below_root(name@) && path@ == name@,
            Err(e) => !stays_below_root(name@) && e.is_escape(escape_refusal(name@)),
        },
{
    let first = name.chars().next();
    match first {
        None => {
            return Err(FsAdapterError::NamespaceEscape(String::from_str("empty op name")));
        },
        Some(c) => {
            if c == '/' {
                return Err(
                    FsAdapterError::NamespaceEscape(
                        String::from_str("absolute path not allowed: '").concat(name).concat("'"),
                    ),
                );
            }
        },
    }
    if finds_parent_segment(name) {
        return Err(
            FsAdapterError::NamespaceEscape(
                String::from_str("parent-dir traversal not allowed: '").concat(name).concat("'"),
            ),
        );
    }
    Ok(name.to_owned())
}

/// What the disk says of a directory that is to be the root.
#[derive(Debug)]
pub enum RootState {
    /// It is a directory.
    Directory,
    /// It is something else.
    NotDirectory,
    /// It could not be looked at.
    Unavailable(String),
}

/// The filesystem adapter: names below a scope, with or without a directory
/// that they resolve in.
#[derive(Debug)]
pub struct FsAdapter {
    scope: String,
    root: Option<String>,
}

impl Clone for FsAdapter {
    fn clone(&self) -> (a: Self)
        ensures
            a.spec_scope() == self.spec_scope(),
            a.spec_root() == self.spec_root(),
    {
        FsAdapter {
            scope: self.scope.clone(),
            root: match &self.root {
                Some(r) => Some(r.clone()),
                None => None,
            },
        }
    }
}

impl FsAdapter {
    /// The prefix of the names that the adapter manages.
    pub closed spec fn spec_scope(&self) -> Seq<char> {
        self.scope@
    }

    /// The directory that names resolve in.
    pub closed spec fn spec_root(&self) -> Option<Seq<char>> {
        match self.root {
            Some(r) => Some(r@),
            None => None,
        }
    }

    /// An adapter without a directory. The scope must not be empty.
    pub fn new(scope: &str) -> (r: Result<Self, FsAdapterError>)
        ensures
            r is Ok <==> scope@.len() > 0,
            match r {
                Ok(a) => a.spec_scope() == scope@ && a.spec_root() is None,
                Err(e) => e.is_violation("FsAdapter scope must be non-empty"@),
            },
    {
        if scope.is_empty() {
            return Err(
                FsAdapterError::CapabilityViolation(
                    String::from_str("FsAdapter scope must be non-empty"),
                ),
            );
        }
        Ok(FsAdapter { scope: scope.to_owned(), root: None })
    }

    /// An adapter whose names resolve in the directory `root`, of which
    /// `state` is what the disk says. The scope must not be empty and the
    /// root must be a directory.
    pub fn with_root(scope: &str, root: &str, state: RootState) -> (r: Result<
        Self,
        FsAdapterError,
    >)
        ensures
            r is Ok <==> scope@.len() > 0 && state is Directory,
            match r {
                Ok(a) => a.spec_scope() == scope@ && a.spec_root() == Some(root@),
                Err(e) => if scope@.len() == 0 {
                    e.is_violation("FsAdapter scope must be non-empty"@)
                } else {
                    match state {
                        RootState::Unavailable(m) => e.is_io("root "@ + root@ + ": "@ + m@),
                        _ => e.is_io("root "@ + root@ + " is not a directory"@),
                    }
                },
            },
    {
        let bare = match FsAdapter::new(scope) {
            Ok(a) => a,
            Err(e) => return Err(e),
        };
        match state {
            RootState::Directory => Ok(
                FsAdapter { scope: bare.scope, root: Some(root.to_owned()) },
            ),
            RootState::NotDirectory => Err(
                FsAdapterError::Io(
                    String::from_str("root ").concat(root).concat(" is not a directory"),
                ),
            ),
            RootState::Unavailable(m) => Err(
                FsAdapterError::Io(
                    String::from_str("root ").concat(root).concat(": ").concat(m.as_str()),
                ),
            ),
        }
    }

    /// The prefix of the names that the adapter manages.
    #[must_use]
    pub fn scope(&self) -> (s: &str)
        ensures
            s@ == self.spec_scope(),
    {
        self.scope.as_str()
    }

    /// The directory that names resolve in.
    #[must_use]
    pub fn root(&self) -> (r: Option<&str>)
        ensures
            match r {
                Some(s) => self.spec_root() == Some(s@),
                None => self.spec_root() is None,
            },
    {
        match &self.root {
            Some(r) => Some(r.as_str()),
            None => None,
        }
    }

    /// The effect that writes the block `hash` to `name`.
    #[must_use]
    pub fn put(&self, name: String, hash: crate::hash::Hash) -> (e: FsPut)
        ensures
            e.name == name,
            e.hash == hash,
    {
        FsPut { name, hash }
    }

    /// The effect that removes `name`.
    #[must_use]
    pub fn remove(&self, name: String) -> (e: FsRemove)
        ensures
            e.name == name,
    {
        FsRemove { name }
    }

    /// The class of a mutation: always pure local.
    #[must_use]
    pub fn classify(&self, op: &Op) -> (c: EffectClass)
        ensures
            c == EffectClass::A,
    {
        EffectClass::A
    }

    /// Starts to apply `delta` under `cap`. Every mutation must be permitted
    /// before the disk is touched; without a root there must be none.
    pub fn apply_delta(&self, delta: &Delta, cap: &Capability) -> (r: Result<
        ApplyRun,
        FsAdapterError,
    >)
        ensures
            r is Ok <==> all_authorised(delta.view().ops, cap.view()) && (self.spec_root() is Some
                || delta.view().ops.len() == 0),
            match r {
                Ok(run) => run.ops() == delta.view().ops && run.view() == Seq::<
                    ApplyOutcome,
                >::empty(),
                Err(e) => if all_authorised(delta.view().ops, cap.view()) {
                    e.is_io("FsAdapter has no on-disk root; cannot apply Delta ops"@)
                } else {
                    exists|i: int| #[trigger]
                        first_refused(delta.view().ops, cap.view(), i) && e.is_violation(
                            authorise_refusal(delta.view().ops[i], cap.view()),
                        )
                },
            },
    {
        let ghost ops = delta.view().ops;
        let mut permitted: Vec<Op> = Vec::new();
        let mut i: usize = 0;
        while i < delta.ops.len()
            invariant
                permitted@.len() == i,
                forall|j: int| 0 <= j < i ==> (#[trigger] permitted@[j]).view() == ops[j],
                i <= delta.ops@.len(),
                ops == delta.view().ops,
                ops.len() == delta.ops@.len(),
                forall|j: int| 0 <= j < ops.len() ==> #[trigger] ops[j] == delta.ops@[j].view(),
                forall|j: int| 0 <= j < i ==> is_authorised(#[trigger] ops[j], cap.view()),
            decreases delta.ops@.len() - i,
        {
            match authorise(&delta.ops[i], cap) {
                Ok(()) => {
                    assert(ops[i as int] == delta.ops@[i as int].view());
                    permitted.push(delta.ops[i].clone());
                },
                Err(e) => {
                    assert(ops[i as int] == delta.ops@[i as int].view());
                    assert(first_refused(ops, cap.view(), i as int));
                    return Err(e);
                },
            }
            i += 1;
        }
        if self.root.is_none() && delta.ops.len() > 0 {
            return Err(
                FsAdapterError::Io(
                    String::from_str("FsAdapter has no on-disk root; cannot apply Delta ops"),
                ),
            );
        }
        assert(delta::mutations_of(permitted@) =~= ops);
        Ok(ApplyRun { ops: permitted, outcomes: Vec::new() })
    }
}

/// What to do on the disk next.
#[derive(Debug)]
pub enum ApplyStep {
    /// Bring the block `hash` to the file `path`.
    Put {
        /// The path below the root.
        path: String,
        /// The block with the content.
        hash: crate::hash::Hash,
    },
    /// Remove the file `path`.
    Remove {
        /// The path below the root.
        path: String,
    },
    /// Every mutation has been applied.
    Done,
}

/// A permitted delta that is being applied, mutation by mutation.
#[derive(Debug)]
pub struct ApplyRun {
    ops: Vec<Op>,
    outcomes: Vec<ApplyOutcome>,
}

impl ApplyRun {
    /// The mutations.
    pub closed spec fn ops(&self) -> Seq<delta::Mutation> {
        delta::mutations_of(self.ops@)
    }

    /// The outcomes so far.
    pub closed spec fn view(&self) -> Seq<ApplyOutcome> {
        self.outcomes@
    }

    /// A mutation is left, and its name leads to a place below the root.
    pub open spec fn has_step(&self) -> bool {
        &&& self.view().len() < self.ops().len()
        &&& stays_below_root(name_of(self.ops()[self.view().len() as int]))
    }

    /// What to do next. A name that leads out of the root is refused.
    pub fn next(&self) -> (r: Result<ApplyStep, FsAdapterError>)
        ensures
            r matches Ok(ApplyStep::Done) <==> self.view().len() >= self.ops().len(),
            r is Ok && !(r matches Ok(ApplyStep::Done)) <==> self.has_step(),
            ({
                let ops = self.ops();
                let n = self.view().len() as int;
                n < ops.len() ==> if !stays_below_root(name_of(ops[n])) {
                    r matches Err(e) && e.is_escape(escape_refusal(name_of(ops[n])))
                } else {
                    match ops[n] {
                        delta::Mutation::Put(name, h) => r matches Ok(ApplyStep::Put { path, hash })
                            && path@ == name && hash == h,
                        delta::Mutation::Remove(name) => r matches Ok(ApplyStep::Remove { path })
                            && path@ == name,
                    }
                }
            }),
    {
        let n: usize = self.outcomes.len();
        if n >= self.ops.len() {
            return Ok(ApplyStep::Done);
        }
        assert(self.ops()[n as int] == self.ops@[n as int].view());
        match &self.ops[n] {
            Op::Put { name, hash } => match resolve(name.as_str()) {
                Ok(path) => Ok(ApplyStep::Put { path, hash: *hash }),
                Err(e) => Err(e),
            },
            Op::Remove { name } => match resolve(name.as_str()) {
                Ok(path) => Ok(ApplyStep::Remove { path }),
                Err(e) => Err(e),
            },
        }
    }

    /// Takes note of the outcome of the step.
    pub fn record(&mut self, outcome: ApplyOutcome)
        requires
            old(self).has_step(),
        ensures
            final(self).ops() == old(self).ops(),
            final(self).view() == old(self).view().push(outcome),
    {
        self.outcomes.push(outcome);
    }

    /// The outcomes in the order of the mutations, all of which have been
    /// applied.
    pub fn finish(self) -> (v: Vec<ApplyOutcome>)
        requires
            self.view().len() == self.ops().len(),
        ensures
            v@ == self.view(),
            v@.len() == self.ops().len(),
    {
        self.outcomes
    }
}

/// The text that everything below the directory `root` starts with.
pub open spec fn directory_prefix(root: Seq<char>) -> Seq<char> {
    if root.len() > 0 && root.last() == '/' {
        root
    } else {
        root + "/"@
    }
}

/// The directory `parent` is `root` or lies below it. Both are canonical.
pub open spec fn is_within(root: Seq<char>, parent: Seq<char>) -> bool {
    parent == root || text::has_prefix(parent, directory_prefix(root))
}

/// Checks that the file `name`, whose directory has the canonical path
/// `parent`, stays within the directory with the canonical path `root`.
pub fn stays_within(root: &str, parent: &str, name: &str) -> (r: Result<(), FsAdapterError>)
    ensures
        r is Ok <==> is_within(root@, parent@),
        r matches Err(e) ==> e.is_escape("path leads out of the root: '"@ + name@ + "'"@),
{
    let below = if ends_with_slash(root) {
        starts_with(parent, root)
    } else {
        starts_with(parent, String::from_str(root).concat("/").as_str())
    };
    if same_text(parent, root) || below {
        return Ok(());
    }
    Err(
        FsAdapterError::NamespaceEscape(
            String::from_str("path leads out of the root: '").concat(name).concat("'"),
        ),
    )
}

fn ends_with_slash(s: &str) -> (b: bool)
    ensures
        b == (s@.len() > 0 && s@.last() == '/'),
{
    let mut chars = s.chars();
    let ghost mut i: int = 0;
    let mut last = false;
    loop
        invariant
            0 <= i <= s@.len(),
            vstd::std_specs::iter::IteratorSpec::obeys_prophetic_iter_laws(&chars),
            vstd::std_specs::iter::IteratorSpec::remaining(&chars) == s@.skip(i),
            last == (i > 0 && s@[i - 1] == '/'),
        decreases s@.len() - i,
    {
        match chars.next() {
            None => {
                return last;
            },
            Some(c) => {
                assert(c == s@[i]);
                last = c == '/';
                proof {
                    assert(s@.skip(i).drop_first() =~= s@.skip(i + 1));
                    i = i + 1;
                }
            },
        }
    }
}

/// The file needs no write: there is one, and its content has the digest of
/// the wanted content.
pub open spec fn is_up_to_date(on_disk: Option<Seq<u8>>, wanted: Seq<u8>) -> bool {
    on_disk matches Some(d) && digest::blake3_256(d) == digest::blake3_256(wanted)
}

/// The content of a file after a put.
pub open spec fn content_after_put(on_disk: Option<Seq<u8>>, wanted: Seq<u8>) -> Seq<u8> {
    if is_up_to_date(on_disk, wanted) {
        on_disk->0
    } else {
        wanted
    }
}

/// The outcome of a put.
pub open spec fn put_outcome(on_disk: Option<Seq<u8>>, wanted: Seq<u8>) -> ApplyOutcome {
    if is_up_to_date(on_disk, wanted) {
        ApplyOutcome::Unchanged
    } else {
        ApplyOutcome::Changed
    }
}

/// The outcome of a removal.
pub open spec fn remove_outcome(present: bool) -> ApplyOutcome {
    if present {
        ApplyOutcome::Changed
    } else {
        ApplyOutcome::Unchanged
    }
}

/// The bytes of a file, where there is one.
pub open spec fn file_bytes(on_disk: Option<Vec<u8>>) -> Option<Seq<u8>> {
    match on_disk {
        Some(d) => Some(d@),
        None => None,
    }
}

/// Decides on a put of the block `hash`, which is `block` where it was
/// supplied, to the file `name`, which holds `on_disk` where it is there:
/// [`ApplyOutcome::Changed`] asks for a write of the block's payload.
pub fn decide_put(
    name: &str,
    hash: &crate::hash::Hash,
    block: Option<&Block>,
    on_disk: &Option<Vec<u8>>,
) -> (r: Result<ApplyOutcome, FsAdapterError>)
    ensures
        match block {
            None => r matches Err(e) && e.is_io(
                "block "@ + hash::hex_text(hash.view())
                    + " not supplied to apply_delta for op_put '"@ + name@ + "'"@,
            ),
            Some(b) => r == Ok::<ApplyOutcome, FsAdapterError>(
                put_outcome(file_bytes(*on_disk), b.payload()),
            ),
        },
        block matches Some(b) ==> (r == Ok::<ApplyOutcome, FsAdapterError>(ApplyOutcome::Unchanged)
            <==> (*on_disk matches Some(d) && digest::blake3_256(d@) == digest::blake3_256(
            b.payload(),
        ))),
{
    let wanted = match block {
        Some(b) => b,
        None => {
            return Err(
                FsAdapterError::Io(
                    String::from_str("block ").concat(hash.to_hex().as_str()).concat(
                        " not supplied to apply_delta for op_put '",
                    ).concat(name).concat("'"),
                ),
            );
        },
    };
    if let Some(d) = on_disk {
        let actual = content_hash(d.as_slice());
        let want = content_hash(octets::as_slice(&wanted.data));
        if actual == want {
            return Ok(ApplyOutcome::Unchanged);
        }
        proof {
            hash::lemma_hash_ext(actual, want);
        }
    }
    Ok(ApplyOutcome::Changed)
}

/// What the disk says to the removal of a file.
#[derive(Debug)]
pub enum Removal {
    /// The file is gone.
    Removed,
    /// There was no file.
    Missing,
    /// The removal failed.
    Failed(String),
}

/// The outcome of a removal: a missing file is as wanted.
pub fn settle_remove(answer: Removal) -> (r: Result<ApplyOutcome, FsAdapterError>)
    ensures
        match answer {
            Removal::Removed => r == Ok::<ApplyOutcome, FsAdapterError>(remove_outcome(true)),
            Removal::Missing => r == Ok::<ApplyOutcome, FsAdapterError>(remove_outcome(false)),
            Removal::Failed(m) => r matches Err(e) && e.is_io(m@),
        },
        r == Ok::<ApplyOutcome, FsAdapterError>(ApplyOutcome::Changed) <==> answer is Removed,
        r == Ok::<ApplyOutcome, FsAdapterError>(ApplyOutcome::Unchanged) <==> answer is Missing,
{
    match answer {
        Removal::Removed => Ok(ApplyOutcome::Changed),
        Removal::Missing => Ok(ApplyOutcome::Unchanged),
        Removal::Failed(m) => Err(FsAdapterError::Io(m)),
    }
}

/// Putting the same content again changes nothing: the file is up to date.
pub proof fn law_put_is_idempotent(on_disk: Option<Seq<u8>>, wanted: Seq<u8>)
    ensures
        is_up_to_date(Some(content_after_put(on_disk, wanted)), wanted),
        content_after_put(Some(content_after_put(on_disk, wanted)), wanted) == content_after_put(
            on_disk,
            wanted,
        ),
{
}

/// The files on a disk, by place.
pub type Files = Map<int, Seq<u8>>;

/// The content of the file in a place, where there is one.
pub open spec fn file_at(files: Files, place: int) -> Option<Seq<u8>> {
    if files.dom().contains(place) {
        Some(files[place])
    } else {
        None
    }
}

/// The outcome of a mutation of the file in a place.
pub open spec fn step_outcome(
    files: Files,
    place: int,
    m: delta::Mutation,
    payloads: Map<crate::hash::Hash, Seq<u8>>,
) -> ApplyOutcome {
    match m {
        delta::Mutation::Put(_, h) => put_outcome(file_at(files, place), payloads[h]),
        delta::Mutation::Remove(_) => remove_outcome(files.dom().contains(place)),
    }
}

/// The files after a mutation of the one in a place.
pub open spec fn step_files(
    files: Files,
    place: int,
    m: delta::Mutation,
    payloads: Map<crate::hash::Hash, Seq<u8>>,
) -> Files {
    match m {
        delta::Mutation::Put(_, h) => files.insert(
            place,
            content_after_put(file_at(files, place), payloads[h]),
        ),
        delta::Mutation::Remove(_) => files.remove(place),
    }
}

/// The files after a run over `ops`, where `place` says where each name leads
/// and `payloads` what each block holds.
pub open spec fn run_files(
    files: Files,
    place: spec_fn(Seq<char>) -> int,
    ops: Seq<delta::Mutation>,
    payloads: Map<crate::hash::Hash, Seq<u8>>,
) -> Files
    decreases ops.len(),
{
    if ops.len() == 0 {
        files
    } else {
        step_files(
            run_files(files, place, ops.drop_last(), payloads),
            place(name_of(ops.last())),
            ops.last(),
            payloads,
        )
    }
}

/// The outcomes of a run over `ops`.
pub open spec fn run_outcomes(
    files: Files,
    place: spec_fn(Seq<char>) -> int,
    ops: Seq<delta::Mutation>,
    payloads: Map<crate::hash::Hash, Seq<u8>>,
) -> Seq<ApplyOutcome>
    decreases ops.len(),
{
    if ops.len() == 0 {
        Seq::empty()
    } else {
        run_outcomes(files, place, ops.drop_last(), payloads).push(
            step_outcome(
                run_files(files, place, ops.drop_last(), payloads),
                place(name_of(ops.last())),
                ops.last(),
                payloads,
            ),
        )
    }
}

/// The mutations are about files in distinct places.
pub open spec fn are_apart(place: spec_fn(Seq<char>) -> int, ops: Seq<delta::Mutation>) -> bool {
    forall|i: int, j: int|
        0 <= i < j < ops.len() ==> place(name_of(#[trigger] ops[i])) != place(
            name_of(#[trigger] ops[j]),
        )
}

/// The file in the place of a mutation is as the mutation wants it.
spec fn is_settled(
    files: Files,
    place: spec_fn(Seq<char>) -> int,
    m: delta::Mutation,
    payloads: Map<crate::hash::Hash, Seq<u8>>,
) -> bool {
    match m {
        delta::Mutation::Put(_, h) => is_up_to_date(
            file_at(files, place(name_of(m))),
            payloads[h],
        ),
        delta::Mutation::Remove(_) => !files.dom().contains(place(name_of(m))),
    }
}

proof fn lemma_run_settles(
    files: Files,
    place: spec_fn(Seq<char>) -> int,
    ops: Seq<delta::Mutation>,
    payloads: Map<crate::hash::Hash, Seq<u8>>,
)
    requires
        are_apart(place, ops),
    ensures
        forall|i: int|
            0 <= i < ops.len() ==> is_settled(
                run_files(files, place, ops, payloads),
                place,
                #[trigger] ops[i],
                payloads,
            ),
    decreases ops.len(),
{
    if ops.len() > 0 {
        let first = ops.drop_last();
        assert forall|i: int, j: int| 0 <= i < j < first.len() implies place(
            name_of(#[trigger] first[i]),
        ) != place(name_of(#[trigger] first[j])) by {
            assert(first[i] == ops[i] && first[j] == ops[j]);
        }
        lemma_run_settles(files, place, first, payloads);
        let between = run_files(files, place, first, payloads);
        assert forall|i: int| 0 <= i < ops.len() implies is_settled(
            run_files(files, place, ops, payloads),
            place,
            #[trigger] ops[i],
            payloads,
        ) by {
            if i < first.len() {
                assert(first[i] == ops[i]);
                assert(is_settled(between, place, first[i], payloads));
                assert(place(name_of(ops[i])) != place(name_of(ops[ops.len() - 1])));
            }
        }
    }
}

proof fn lemma_settled_run(
    files: Files,
    place: spec_fn(Seq<char>) -> int,
    ops: Seq<delta::Mutation>,
    payloads: Map<crate::hash::Hash, Seq<u8>>,
)
    requires
        forall|i: int|
            0 <= i < ops.len() ==> is_settled(files, place, #[trigger] ops[i], payloads),
    ensures
        run_files(files, place, ops, payloads) == files,
        run_outcomes(files, place, ops, payloads).len() == ops.len(),
        forall|i: int|
            0 <= i < ops.len() ==> #[trigger] run_outcomes(files, place, ops, payloads)[i]
                == ApplyOutcome::Unchanged,
    decreases ops.len(),
{
    if ops.len() > 0 {
        let first = ops.drop_last();
        assert forall|i: int| 0 <= i < first.len() implies is_settled(
            files,
            place,
            #[trigger] first[i],
            payloads,
        ) by {
            assert(first[i] == ops[i]);
        }
        lemma_settled_run(files, place, first, payloads);
        assert(is_settled(files, place, ops[ops.len() - 1], payloads));
        assert(run_files(files, place, ops, payloads) =~= files);
    }
}

/// Applying a delta again changes nothing. Over the files that a run left, a
/// second run over the same mutations has the outcome
/// [`ApplyOutcome::Unchanged`] for each of them and leaves the files as they
/// are. The mutations must be about distinct files.
pub proof fn law_second_run_changes_nothing(
    files: Files,
    place: spec_fn(Seq<char>) -> int,
    ops: Seq<delta::Mutation>,
    payloads: Map<crate::hash::Hash, Seq<u8>>,
)
    requires
        are_apart(place, ops),
    ensures
        ({
            let left = run_files(files, place, ops, payloads);
            let again = run_outcomes(left, place, ops, payloads);
            &&& run_files(left, place, ops, payloads) == left
            &&& again.len() == ops.len()
            &&& run_outcomes(files, place, ops, payloads).len() == ops.len()
            &&& forall|i: int| 0 <= i < ops.len() ==> #[trigger] again[i] == ApplyOutcome::Unchanged
        }),
{
    lemma_run_settles(files, place, ops, payloads);
    lemma_settled_run(run_files(files, place, ops, payloads), place, ops, payloads);
    lemma_outcome_count(files, place, ops, payloads);
}

proof fn lemma_outcome_count(
    files: Files,
    place: spec_fn(Seq<char>) -> int,
    ops: Seq<delta::Mutation>,
    payloads: Map<crate::hash::Hash, Seq<u8>>,
)
    ensures
        run_outcomes(files, place, ops, payloads).len() == ops.len(),
    decreases ops.len(),
{
    if ops.len() > 0 {
        lemma_outcome_count(files, place, ops.drop_last(), payloads);
    }
}

/// What a narrower authority permits, the wider one permits too.
pub proof fn law_narrowing_permits_no_more(
    wide: capability::Authority,
    narrow: capability::Authority,
    m: delta::Mutation,
)
    requires
        wide.covers(narrow),
        is_authorised(m, narrow),
    ensures
        is_authorised(m, wide),
{
    text::lemma_prefix_transitive(name_of(m), narrow.path_prefix, wide.path_prefix);
}

/// A put leaves the file alone exactly where the whole of it has the digest of
/// the wanted content, and writes the wanted content otherwise. Either way the
/// file has the digest of the wanted content afterwards.
pub proof fn law_put_leaves_the_wanted_content(on_disk: Option<Seq<u8>>, wanted: Seq<u8>)
    ensures
        put_outcome(on_disk, wanted) == ApplyOutcome::Unchanged <==> on_disk is Some
            && digest::blake3_256(on_disk->0) == digest::blake3_256(wanted),
        put_outcome(on_disk, wanted) == ApplyOutcome::Unchanged ==> content_after_put(
            on_disk,
            wanted,
        ) == on_disk->0,
        put_outcome(on_disk, wanted) == ApplyOutcome::Changed ==> content_after_put(on_disk, wanted)
            == wanted,
        digest::blake3_256(content_after_put(on_disk, wanted)) == digest::blake3_256(wanted),
{
}

/// A removal changes something exactly where there is a file.
pub proof fn law_removal_changes_what_is_there(present: bool)
    ensures
        remove_outcome(present) == ApplyOutcome::Changed <==> present,
{
}

/// After a run each file is as the last mutation of its place wants it: with
/// the digest of the block that was put, or gone where it was removed. A file
/// in a place that no mutation is about is as it was.
pub proof fn law_last_mutation_of_a_place_decides(
    files: Files,
    place: spec_fn(Seq<char>) -> int,
    ops: Seq<delta::Mutation>,
    payloads: Map<crate::hash::Hash, Seq<u8>>,
    at: int,
    i: int,
)
    ensures
        ({
            let left = run_files(files, place, ops, payloads);
            let about = |j: int|
                match ops[j] {
                    delta::Mutation::Put(name, _) => place(name) == at,
                    delta::Mutation::Remove(name) => place(name) == at,
                };
            &&& (forall|j: int| 0 <= j < ops.len() ==> !#[trigger] about(j)) ==> left.dom().contains(
                at,
            ) == files.dom().contains(at) && left[at] == files[at]
            &&& 0 <= i < ops.len() && about(i) && (forall|j: int|
                i < j < ops.len() ==> !#[trigger] about(j)) ==> match ops[i] {
                delta::Mutation::Put(_, h) => left.dom().contains(at) && digest::blake3_256(
                    left[at],
                ) == digest::blake3_256(payloads[h]),
                delta::Mutation::Remove(_) => !left.dom().contains(at),
            }
        }),
    decreases ops.len(),
{
    let about = |j: int|
        match ops[j] {
            delta::Mutation::Put(name, _) => place(name) == at,
            delta::Mutation::Remove(name) => place(name) == at,
        };
    if ops.len() > 0 {
        let first = ops.drop_last();
        let earlier = |j: int|
            match first[j] {
                delta::Mutation::Put(name, _) => place(name) == at,
                delta::Mutation::Remove(name) => place(name) == at,
            };
        law_last_mutation_of_a_place_decides(files, place, first, payloads, at, i);
        let last = ops.len() - 1;
        assert forall|j: int| 0 <= j < first.len() implies #[trigger] earlier(j) == about(j) by {}
        if forall|j: int| 0 <= j < ops.len() ==> !#[trigger] about(j) {
            assert(!about(last));
            assert forall|j: int| 0 <= j < first.len() implies !#[trigger] earlier(j) by {
                assert(!about(j));
            }
        }
        if 0 <= i < last && about(i) && (forall|j: int| i < j < ops.len() ==> !#[trigger] about(j)) {
            assert(!about(last));
            assert forall|j: int| i < j < first.len() implies !#[trigger] earlier(j) by {
                assert(!about(j));
            }
            assert(earlier(i));
        }
        if i == last && about(i) {
            let between = run_files(files, place, first, payloads);
            if let delta::Mutation::Put(_, h) = ops[i] {
                law_put_leaves_the_wanted_content(file_at(between, at), payloads[h]);
            }
        }
    }
}

/// An outcome says whether its mutation changed the files: each is
/// [`ApplyOutcome::Unchanged`] exactly where the files are the same before and
/// after it.
pub proof fn law_outcomes_say_what_changed(
    files: Files,
    place: spec_fn(Seq<char>) -> int,
    ops: Seq<delta::Mutation>,
    payloads: Map<crate::hash::Hash, Seq<u8>>,
    m: delta::Mutation,
)
    ensures
        run_outcomes(files, place, Seq::empty(), payloads) == Seq::<ApplyOutcome>::empty(),
        run_outcomes(files, place, ops.push(m), payloads).drop_last() == run_outcomes(
            files,
            place,
            ops,
            payloads,
        ),
        run_outcomes(files, place, ops.push(m), payloads).len() == ops.len() + 1,
        run_outcomes(files, place, ops.push(m), payloads).last() == ApplyOutcome::Unchanged
            <==> run_files(files, place, ops.push(m), payloads) == run_files(
            files,
            place,
            ops,
            payloads,
        ),
{
    let more = ops.push(m);
    let before = run_files(files, place, ops, payloads);
    let after = run_files(files, place, more, payloads);
    assert(more.drop_last() =~= ops);
    lemma_outcome_count(files, place, ops, payloads);
    let outcomes = run_outcomes(files, place, more, payloads);
    assert(outcomes.drop_last() =~= run_outcomes(files, place, ops, payloads));
    let at = place(name_of(m));
    match m {
        delta::Mutation::Put(_, h) => {
            law_put_leaves_the_wanted_content(file_at(before, at), payloads[h]);
            if outcomes.last() == ApplyOutcome::Unchanged {
                assert(after =~= before);
            } else {
                assert(after.dom().contains(at));
                if after == before {
                    assert(before[at] == payloads[h]);
                }
            }
        },
        delta::Mutation::Remove(_) => {
            if outcomes.last() == ApplyOutcome::Unchanged {
                assert(after =~= before);
            } else {
                assert(before.dom().contains(at) && !after.dom().contains(at));
            }
        },
    }
}

/// A put needs permission to write and a removal permission to delete, each at
/// a name below the prefix; nothing else is asked for.
pub proof fn law_mutations_need_their_own_permission(
    name: Seq<char>,
    h: crate::hash::Hash,
    a: capability::Authority,
)
    ensures
        is_authorised(delta::Mutation::Put(name, h), a) <==> {
            &&& a.path_prefix.len() <= name.len()
            &&& name.take(a.path_prefix.len() as int) == a.path_prefix
            &&& a.op_set.view().contains(OpKind::Write)
        },
        is_authorised(delta::Mutation::Remove(name), a) <==> {
            &&& a.path_prefix.len() <= name.len()
            &&& name.take(a.path_prefix.len() as int) == a.path_prefix
            &&& a.op_set.view().contains(OpKind::Delete)
        },
{
}

/// A delta is permitted exactly where each of its mutations is, and refused at
/// the first that is not.
pub proof fn law_delta_is_refused_at_the_first(
    ops: Seq<delta::Mutation>,
    a: capability::Authority,
    i: int,
)
    ensures
        all_authorised(ops, a) && 0 <= i < ops.len() ==> is_authorised(ops[i], a),
        first_refused(ops, a, i) ==> 0 <= i < ops.len() && !is_authorised(ops[i], a)
            && all_authorised(ops.take(i), a),
        0 <= i < ops.len() && !is_authorised(ops[i], a) && all_authorised(ops.take(i), a)
            ==> first_refused(ops, a, i),
        !all_authorised(ops, a) ==> exists|j: int| 0 <= j < ops.len() && !is_authorised(
            #[trigger] ops[j],
            a,
        ),
{
    if first_refused(ops, a, i) {
        assert forall|j: int| 0 <= j < ops.take(i).len() implies is_authorised(
            #[trigger] ops.take(i)[j],
            a,
        ) by {
            assert(is_authorised(ops[j], a));
        }
    }
    if 0 <= i < ops.len() && all_authorised(ops.take(i), a) {
        assert forall|j: int| 0 <= j < i implies is_authorised(#[trigger] ops[j], a) by {
            assert(ops.take(i)[j] == ops[j]);
        }
    }
}

/// A name stays below the root exactly where it is not empty, does not start
/// with a slash, and holds no `..` between slashes, its start and its end.
pub proof fn law_names_below_the_root(name: Seq<char>)
    ensures
        stays_below_root(name) <==> {
            &&& name.len() > 0
            &&& name[0] != '/'
            &&& !exists|a: Seq<char>, b: Seq<char>|
                {
                    &&& name == #[trigger] (a + ".."@ + b)
                    &&& a.len() == 0 || a.last() == '/'
                    &&& b.len() == 0 || b[0] == '/'
                }
        },
{
    reveal_strlit("..");
    let dots = ".."@;
    assert(dots.len() == 2 && dots[0] == '.' && dots[1] == '.');
    if has_parent_segment(name) {
        let i = choose|i: int| parent_segment_at(name, i);
        let a = name.take(i);
        let b = name.skip(i + 2);
        assert(name =~= a + dots + b);
    }
    if exists|a: Seq<char>, b: Seq<char>|
        {
            &&& name == #[trigger] (a + ".."@ + b)
            &&& a.len() == 0 || a.last() == '/'
            &&& b.len() == 0 || b[0] == '/'
        } {
        let (a, b) = choose|a: Seq<char>, b: Seq<char>|
            {
                &&& name == #[trigger] (a + ".."@ + b)
                &&& a.len() == 0 || a.last() == '/'
                &&& b.len() == 0 || b[0] == '/'
            };
        let i = a.len() as int;
        assert(name[i] == '.' && name[i + 1] == '.');
        if a.len() > 0 {
            assert(name[i - 1] == a.last());
        }
        if b.len() > 0 {
            assert(name[i + 2] == b[0]);
        }
        assert(parent_segment_at(name, i));
    }
}

/// A directory is within the root exactly where it is the root, or the root
/// and a slash and something behind them; a root that ends with a slash needs
/// no other.
pub proof fn law_within_is_at_or_below(root: Seq<char>, rest: Seq<char>, parent: Seq<char>)
    ensures
        is_within(root, root),
        is_within(root, root + "/"@ + rest),
        root.len() > 0 && root.last() == '/' ==> is_within(root, root + rest),
        is_within(root, parent) ==> parent == root || (exists|more: Seq<char>|
            parent == #[trigger] (root + "/"@ + more)) || (root.len() > 0 && root.last() == '/'
            && exists|more: Seq<char>| parent == #[trigger] (root + more)),
{
    reveal_strlit("/");
    let slash = "/"@;
    text::law_prefix_is_a_leading_part(root + slash + rest, root + slash, rest);
    text::law_prefix_is_a_leading_part(root + rest, root, rest);
    text::law_prefix_is_a_leading_part(root + slash + rest, root, slash + rest);
    assert(root + slash + rest =~= root + (slash + rest));
    text::law_prefix_is_a_leading_part(parent, directory_prefix(root), rest);
    if is_within(root, parent) && parent != root {
        let more = parent.skip(directory_prefix(root).len() as int);
        assert(parent == directory_prefix(root) + more);
    }
}

/// Errors of the adapter surface as violations where authority or the root was
/// overstepped, and as storage failures otherwise.
pub proof fn law_adapter_errors_surface(m: String)
    ensures
        ReelError::from_spec(FsAdapterError::CapabilityViolation(m))
            == ReelError::CapabilityViolation(m),
        ReelError::from_spec(FsAdapterError::NamespaceEscape(m)) == ReelError::CapabilityViolation(
            m,
        ),
        ReelError::from_spec(FsAdapterError::Io(m)) == ReelError::Storage(m),
{
}

/// The effects of the adapter are the mutations that they are named after, of
/// their own name and block.
pub proof fn law_effects_are_their_mutations(put: FsPut, remove: FsRemove)
    ensures
        put.mutation() == delta::Mutation::Put(put.name@, put.hash),
        remove.mutation() == delta::Mutation::Remove(remove.name@),
{
}

/// Each refusal of the adapter is the error of its kind with its text.
pub proof fn law_refusals_are_of_their_kind(e: FsAdapterError, t: Seq<char>)
    ensures
        e.is_violation(t) <==> (e matches FsAdapterError::CapabilityViolation(m) && m@ == t),
        e.is_escape(t) <==> (e matches FsAdapterError::NamespaceEscape(m) && m@ == t),
        e.is_io(t) <==> (e matches FsAdapterError::Io(m) && m@ == t),
{
}

} // verus!
