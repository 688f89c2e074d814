//! Authority that can only be narrowed.

use vstd::prelude::*;

use crate::capability;
use crate::capability::OpSet;
use crate::error::ReelError;
use crate::text;
use crate::text::{decimal_string, join, starts_with};
use crate::view;

verus! {

/// What to change in a narrowing; what is absent stays as it is.
#[derive(Debug, Default)]
pub struct NarrowArgs {
    /// A prefix that starts with the present one.
    pub path_prefix: Option<String>,
    /// Operations among the present ones.
    pub op_set: Option<OpSet>,
    /// A lifetime no longer than the present one.
    pub ttl: Option<u64>,
}

impl NarrowArgs {
    /// The authority that is asked for, starting from `parent`.
    pub open spec fn wanted(&self, parent: capability::Authority) -> capability::Authority {
        capability::Authority {
            path_prefix: match self.path_prefix {
                Some(p) => p@,
                None => parent.path_prefix,
            },
            op_set: match self.op_set {
                Some(s) => s,
                None => parent.op_set,
            },
            ttl: match self.ttl {
                Some(t) => t,
                None => parent.ttl,
            },
        }
    }
}

/// Why `wanted` is no narrowing of `parent`: the first axis that grows.
pub open spec fn narrow_refusal(
    parent: capability::Authority,
    wanted: capability::Authority,
) -> Seq<char> {
    if !text::has_prefix(wanted.path_prefix, parent.path_prefix) {
        "I-003 violation: requested path_prefix '"@ + wanted.path_prefix
            + "' does not start with parent prefix '"@ + parent.path_prefix + "'"@
    } else if !wanted.op_set.view().subset_of(parent.op_set.view()) {
        "I-003 violation: requested op_set contains operations not present in parent: "@
            + view::list_text(wanted.op_set.view().difference(parent.op_set.view()))
    } else {
        "I-003 violation: requested ttl "@ + text::decimal(wanted.ttl as nat)
            + " exceeds parent ttl "@ + text::decimal(parent.ttl as nat)
    }
}

/// Authority that its holder can narrow and nothing else.
#[derive(Debug)]
pub struct Capability {
    inner: capability::Capability,
}

impl Capability {
    /// What the capability holds.
    pub closed spec fn view(&self) -> capability::Authority {
        self.inner.view()
    }

    /// Wraps a capability that the kernel grants.
    pub fn from_kernel(cap: capability::Capability) -> (c: Self)
        ensures
            c.view() == cap.view(),
    {
        Capability { inner: cap }
    }

    /// The wrapped capability.
    #[must_use]
    pub fn inner(&self) -> (c: &capability::Capability)
        ensures
            c.view() == self.view(),
    {
        &self.inner
    }

    /// Derives a narrower capability. A request that grows on some axis is
    /// refused; an unbounded lifetime is longer than any bounded one.
    pub fn narrow(&self, args: NarrowArgs) -> (r: Result<Self, ReelError>)
        ensures
            ({
                let wanted = args.wanted(self.view());
                match r {
                    Ok(c) => self.view().covers(wanted) && c.view() == wanted,
                    Err(e) => !self.view().covers(wanted) && e.is_capability_violation(
                        narrow_refusal(self.view(), wanted),
                    ),
                }
            }),
    {
        let ghost wanted = args.wanted(self.view());
        proof {
            capability::law_covers_reflexive(self.view());
        }
        let new_prefix = match args.path_prefix {
            Some(p) => {
                if !starts_with(p.as_str(), self.inner.path_prefix.as_str()) {
                    let m = String::from_str("I-003 violation: requested path_prefix '").concat(
                        p.as_str(),
                    ).concat("' does not start with parent prefix '").concat(
                        self.inner.path_prefix.as_str(),
                    ).concat("'");
                    return Err(ReelError::CapabilityViolation(m));
                }
                p
            },
            None => self.inner.path_prefix.clone(),
        };
        let new_ops = match args.op_set {
            Some(ops) => {
                if !ops.is_subset(&self.inner.op_set) {
                    let extra = ops.difference(&self.inner.op_set);
                    let m = String::from_str(
                        "I-003 violation: requested op_set contains operations not present in parent: [",
                    ).concat(join(&extra.names(), ", ").as_str()).concat("]");
                    proof {
                        reveal_strlit(
                            "I-003 violation: requested op_set contains operations not present in parent: [",
                        );
                        reveal_strlit(
                            "I-003 violation: requested op_set contains operations not present in parent: ",
                        );
                        reveal_strlit("[");
                        assert(
                        "I-003 violation: requested op_set contains operations not present in parent: ["@
                            =~= "I-003 violation: requested op_set contains operations not present in parent: "@
                            + "["@);
                        assert(m@ =~= narrow_refusal(self.view(), wanted));
                    }
                    return Err(ReelError::CapabilityViolation(m));
                }
                ops
            },
            None => self.inner.op_set,
        };
        let new_ttl: u64 = match args.ttl {
            Some(t) => {
                if self.inner.ttl != 0 && (t == 0 || t > self.inner.ttl) {
                    let m = String::from_str("I-003 violation: requested ttl ").concat(
                        decimal_string(t).as_str(),
                    ).concat(" exceeds parent ttl ").concat(
                        decimal_string(self.inner.ttl).as_str(),
                    );
                    return Err(ReelError::CapabilityViolation(m));
                }
                t
            },
            None => self.inner.ttl,
        };
        Ok(
            Capability {
                inner: capability::Capability {
                    path_prefix: new_prefix,
                    op_set: new_ops,
                    ttl: new_ttl,
                },
            },
        )
    }
}

impl Clone for Capability {
    fn clone(&self) -> (c: Self)
        ensures
            c.view() == self.view(),
    {
        Capability { inner: self.inner.clone() }
    }
}

/// A narrowing changes what it is asked to change and keeps the rest.
pub proof fn law_narrowing_changes_what_is_asked(args: NarrowArgs, parent: capability::Authority)
    ensures
        args.path_prefix matches Some(p) ==> args.wanted(parent).path_prefix == p@,
        args.path_prefix is None ==> args.wanted(parent).path_prefix == parent.path_prefix,
        args.op_set matches Some(s) ==> args.wanted(parent).op_set == s,
        args.op_set is None ==> args.wanted(parent).op_set == parent.op_set,
        args.ttl matches Some(t) ==> args.wanted(parent).ttl == t,
        args.ttl is None ==> args.wanted(parent).ttl == parent.ttl,
{
}

/// A refused narrowing names the first axis that grows, with what was asked for
/// and what is held.
pub proof fn law_refusal_names_the_first_axis(
    parent: capability::Authority,
    wanted: capability::Authority,
)
    ensures
        ({
            let below = parent.path_prefix.len() <= wanted.path_prefix.len()
                && wanted.path_prefix.take(parent.path_prefix.len() as int) == parent.path_prefix;
            let fewer = wanted.op_set.view().subset_of(parent.op_set.view());
            let m = narrow_refusal(parent, wanted);
            &&& !below ==> m == "I-003 violation: requested path_prefix '"@ + wanted.path_prefix
                + "' does not start with parent prefix '"@ + parent.path_prefix + "'"@
            &&& below && !fewer ==> m
                == "I-003 violation: requested op_set contains operations not present in parent: "@
                + view::list_text(wanted.op_set.view().difference(parent.op_set.view()))
            &&& below && fewer ==> m == "I-003 violation: requested ttl "@ + text::decimal(
                wanted.ttl as nat,
            ) + " exceeds parent ttl "@ + text::decimal(parent.ttl as nat)
        }),
{
}

} // verus!
