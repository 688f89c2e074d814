//! The lexicographic order on byte strings.

use vstd::prelude::*;

verus! {

/// `a` and `b` agree on their first `i` bytes, and at position `i` either `a`
/// has ended before `b` or its byte is the smaller one.
pub open spec fn splits_below(a: Seq<u8>, b: Seq<u8>, i: int) -> bool {
    &&& 0 <= i <= a.len()
    &&& i < b.len()
    &&& forall|j: int| 0 <= j < i ==> a[j] == b[j]
    &&& i == a.len() || a[i] < b[i]
}

/// `a` comes strictly before `b` in lexicographic order.
pub open spec fn lex_lt(a: Seq<u8>, b: Seq<u8>) -> bool {
    exists|i: int| splits_below(a, b, i)
}

/// How two byte strings stand to each other.
#[derive(Clone, Copy, Debug, PartialEq, Eq, Structural)]
pub enum Relation {
    /// The first comes before the second.
    Before,
    /// Both are the same.
    Same,
    /// The first comes after the second.
    After,
}

/// Compares two byte strings lexicographically.
pub fn relate(a: &[u8], b: &[u8]) -> (r: Relation)
    ensures
        match r {
            Relation::Before => lex_lt(a@, b@),
            Relation::Same => a@ == b@,
            Relation::After => lex_lt(b@, a@),
        },
{
    let mut i: usize = 0;
    while i < a.len() && i < b.len()
        invariant
            i <= a@.len(),
            i <= b@.len(),
            forall|j: int| 0 <= j < i ==> a@[j] == b@[j],
        decreases a@.len() - i,
    {
        if a[i] < b[i] {
            assert(splits_below(a@, b@, i as int));
            return Relation::Before;
        }
        if a[i] > b[i] {
            assert(splits_below(b@, a@, i as int));
            return Relation::After;
        }
        i += 1;
    }
    if i < b.len() {
        assert(splits_below(a@, b@, i as int));
        Relation::Before
    } else if i < a.len() {
        assert(splits_below(b@, a@, i as int));
        Relation::After
    } else {
        assert(a@ =~= b@);
        Relation::Same
    }
}

/// Nothing comes before itself.
pub proof fn lex_lt_irreflexive(a: Seq<u8>)
    ensures
        !lex_lt(a, a),
{
}

/// The order is transitive.
pub proof fn lex_lt_transitive(a: Seq<u8>, b: Seq<u8>, c: Seq<u8>)
    requires
        lex_lt(a, b),
        lex_lt(b, c),
    ensures
        lex_lt(a, c),
{
    let i = choose|i: int| splits_below(a, b, i);
    let j = choose|j: int| splits_below(b, c, j);
    let k = if i < j {
        i
    } else {
        j
    };
    assert(splits_below(a, c, k));
}

/// Two different byte strings are ordered one way or the other.
pub proof fn lex_lt_total(a: Seq<u8>, b: Seq<u8>)
    ensures
        a == b || lex_lt(a, b) || lex_lt(b, a),
    decreases a.len(),
{
    if a.len() == 0 || b.len() == 0 {
        if b.len() != 0 {
            assert(splits_below(a, b, 0));
        } else if a.len() != 0 {
            assert(splits_below(b, a, 0));
        } else {
            assert(a =~= b);
        }
    } else if a[0] < b[0] {
        assert(splits_below(a, b, 0));
    } else if b[0] < a[0] {
        assert(splits_below(b, a, 0));
    } else {
        let ta = a.drop_first();
        let tb = b.drop_first();
        lex_lt_total(ta, tb);
        if lex_lt(ta, tb) {
            let i = choose|i: int| splits_below(ta, tb, i);
            assert forall|j: int| 0 <= j < i + 1 implies a[j] == b[j] by {
                if j > 0 {
                    assert(a[j] == ta[j - 1] && b[j] == tb[j - 1]);
                }
            }
            assert(splits_below(a, b, i + 1));
        } else if lex_lt(tb, ta) {
            let i = choose|i: int| splits_below(tb, ta, i);
            assert forall|j: int| 0 <= j < i + 1 implies a[j] == b[j] by {
                if j > 0 {
                    assert(a[j] == ta[j - 1] && b[j] == tb[j - 1]);
                }
            }
            assert(splits_below(b, a, i + 1));
        } else {
            assert(a =~= seq![a[0]] + ta);
            assert(b =~= seq![b[0]] + tb);
        }
    }
}

/// The first difference decides: behind a common start the string with the
/// smaller byte comes first, and a string comes before what continues it.
pub proof fn law_first_difference_decides(
    start: Seq<u8>,
    x: u8,
    a: Seq<u8>,
    y: u8,
    b: Seq<u8>,
)
    ensures
        x < y ==> lex_lt(start.push(x) + a, start.push(y) + b) && !lex_lt(
            start.push(y) + b,
            start.push(x) + a,
        ),
        lex_lt(start, start.push(x) + a),
        !lex_lt(start.push(x) + a, start),
{
    let l = start.push(x) + a;
    let r = start.push(y) + b;
    assert(l[start.len() as int] == x && r[start.len() as int] == y);
    assert forall|j: int| 0 <= j < start.len() implies l[j] == r[j] && l[j] == start[j] by {}
    if x < y {
        assert(splits_below(l, r, start.len() as int));
        lex_lt_irreflexive(l);
        if lex_lt(r, l) {
            lex_lt_transitive(l, r, l);
        }
    }
    assert(splits_below(start, l, start.len() as int));
    lex_lt_irreflexive(start);
    if lex_lt(l, start) {
        lex_lt_transitive(start, l, start);
    }
}

} // verus!
