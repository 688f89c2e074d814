//! The heads of CBOR items: the byte with the major type, and the argument
//! behind it.

use vstd::prelude::*;
use vstd::slice::slice_subrange;

verus! {

/// The major type of byte strings.
pub const BYTES: u8 = 2;

/// The major type of text strings.
pub const TEXT: u8 = 3;

/// The major type of arrays.
pub const ARRAY: u8 = 4;

/// The major type of maps.
pub const MAP: u8 = 5;

/// The major type of tags.
pub const TAG: u8 = 6;

/// The head of an item.
#[derive(Clone, Copy, Debug, PartialEq, Eq, Structural)]
pub struct Head {
    /// The major type.
    pub major: u8,
    /// The argument: for a string its length, for an array or a map its count.
    /// None where the item ends with a break.
    pub arg: Option<u64>,
}

/// The number that bytes write out, most significant first.
pub open spec fn be_value(b: Seq<u8>) -> nat
    decreases b.len(),
{
    if b.len() == 0 {
        0
    } else {
        be_value(b.drop_last()) * 256 + b.last() as nat
    }
}

/// The number of bytes of an argument that does not stand in the first byte.
pub open spec fn arg_size(minor: u8) -> nat {
    if minor == 24 {
        1
    } else if minor == 25 {
        2
    } else if minor == 26 {
        4
    } else {
        8
    }
}

/// The head at the start of `b`, and what stands behind it.
pub open spec fn head(b: Seq<u8>) -> Option<(Head, Seq<u8>)> {
    if b.len() == 0 {
        None
    } else {
        let major = b[0] / 32;
        let minor = b[0] % 32;
        if minor < 24 {
            Some((Head { major, arg: Some(minor as u64) }, b.skip(1)))
        } else if minor == 31 {
            Some((Head { major, arg: None }, b.skip(1)))
        } else if minor > 27 || b.len() <= arg_size(minor) {
            None
        } else {
            let end = 1 + arg_size(minor) as int;
            Some((Head { major, arg: Some(be_value(b.subrange(1, end)) as u64) }, b.skip(end)))
        }
    }
}

spec fn pow256(k: nat) -> nat
    decreases k,
{
    if k == 0 {
        1
    } else {
        256 * pow256((k - 1) as nat)
    }
}

proof fn lemma_be_bound(b: Seq<u8>)
    ensures
        be_value(b) < pow256(b.len()),
    decreases b.len(),
{
    if b.len() > 0 {
        lemma_be_bound(b.drop_last());
    }
}

proof fn lemma_be_fits(b: Seq<u8>)
    requires
        b.len() <= 8,
    ensures
        be_value(b) <= u64::MAX,
{
    lemma_be_bound(b);
    reveal_with_fuel(pow256, 9);
}

fn read_number(b: &[u8]) -> (n: u64)
    requires
        b@.len() <= 8,
    ensures
        n == be_value(b@),
{
    let mut n: u64 = 0;
    let mut i: usize = 0;
    assert(b@.take(0) =~= Seq::empty());
    while i < b.len()
        invariant
            i <= b@.len() <= 8,
            n == be_value(b@.take(i as int)),
        decreases b@.len() - i,
    {
        proof {
            let longer = b@.take(i + 1);
            assert(longer.drop_last() =~= b@.take(i as int));
            assert(longer.last() == b@[i as int]);
            lemma_be_fits(longer);
        }
        n = n * 256 + b[i] as u64;
        i += 1;
    }
    assert(b@.take(i as int) =~= b@);
    n
}

/// Reads the head at the start of `b`.
pub fn read_head(b: &[u8]) -> (r: Option<(Head, &[u8])>)
    ensures
        match r {
            Some((h, rest)) => head(b@) == Some((h, rest@)) && rest@.len() < b@.len(),
            None => head(b@) is None,
        },
{
    if b.len() == 0 {
        return None;
    }
    let major: u8 = b[0] / 32;
    let minor: u8 = b[0] % 32;
    if minor < 24 {
        return Some((Head { major, arg: Some(minor as u64) }, slice_subrange(b, 1, b.len())));
    }
    if minor == 31 {
        return Some((Head { major, arg: None }, slice_subrange(b, 1, b.len())));
    }
    if minor > 27 {
        return None;
    }
    let size: usize = if minor == 24 {
        1
    } else if minor == 25 {
        2
    } else if minor == 26 {
        4
    } else {
        8
    };
    if b.len() <= size {
        return None;
    }
    let n: u64 = read_number(slice_subrange(b, 1, 1 + size));
    Some((Head { major, arg: Some(n) }, slice_subrange(b, 1 + size, b.len())))
}

/// The last `k` bytes of a number, most significant first.
pub open spec fn be_bytes(n: nat, k: nat) -> Seq<u8>
    decreases k,
{
    if k == 0 {
        Seq::empty()
    } else {
        be_bytes(n / 256, (k - 1) as nat).push((n % 256) as u8)
    }
}

/// The shortest head with an argument.
pub open spec fn head_bytes(major: u8, n: nat) -> Seq<u8> {
    let start = major as int * 32;
    if n < 24 {
        seq![(start + n) as u8]
    } else if n < 0x100 {
        seq![(start + 24) as u8] + be_bytes(n, 1)
    } else if n < 0x1_0000 {
        seq![(start + 25) as u8] + be_bytes(n, 2)
    } else if n < 0x1_0000_0000 {
        seq![(start + 26) as u8] + be_bytes(n, 4)
    } else {
        seq![(start + 27) as u8] + be_bytes(n, 8)
    }
}

proof fn lemma_be_round_trip(n: nat, k: nat)
    requires
        n < pow256(k),
    ensures
        be_bytes(n, k).len() == k,
        be_value(be_bytes(n, k)) == n,
    decreases k,
{
    if k > 0 {
        lemma_be_round_trip(n / 256, (k - 1) as nat);
        assert(be_bytes(n, k).drop_last() =~= be_bytes(n / 256, (k - 1) as nat));
    }
}

/// A head that was written is read back, whatever stands behind it.
pub proof fn law_head_round_trip(major: u8, n: nat, rest: Seq<u8>)
    requires
        major < 8,
        n <= u64::MAX,
    ensures
        head(head_bytes(major, n) + rest) == Some((Head { major, arg: Some(n as u64) }, rest)),
{
    reveal_with_fuel(pow256, 9);
    let b = head_bytes(major, n) + rest;
    if n < 24 {
        assert(b.skip(1) =~= rest);
    } else {
        let k: nat = if n < 0x100 {
            1
        } else if n < 0x1_0000 {
            2
        } else if n < 0x1_0000_0000 {
            4
        } else {
            8
        };
        lemma_be_round_trip(n, k);
        assert(b.subrange(1, 1 + k as int) =~= be_bytes(n, k));
        assert(b.skip(1 + k as int) =~= rest);
    }
}

/// An argument of one, two, four or eight bytes is read from the bytes behind
/// the first, most significant first, also where a shorter head would do; one
/// below 24 stands in the first byte itself.
pub proof fn law_head_is_read_at_any_length(major: u8, arg: Seq<u8>, n: u8, rest: Seq<u8>)
    requires
        major < 8,
        n < 24,
    ensures
        head(seq![(32 * major + n) as u8] + rest) == Some(
            (Head { major, arg: Some(n as u64) }, rest),
        ),
        head(seq![(32 * major + 31) as u8] + rest) == Some((Head { major, arg: None }, rest)),
        arg.len() == 1 ==> head(seq![(32 * major + 24) as u8] + arg + rest) == Some(
            (Head { major, arg: Some(be_value(arg) as u64) }, rest),
        ),
        arg.len() == 2 ==> head(seq![(32 * major + 25) as u8] + arg + rest) == Some(
            (Head { major, arg: Some(be_value(arg) as u64) }, rest),
        ),
        arg.len() == 4 ==> head(seq![(32 * major + 26) as u8] + arg + rest) == Some(
            (Head { major, arg: Some(be_value(arg) as u64) }, rest),
        ),
        arg.len() == 8 ==> head(seq![(32 * major + 27) as u8] + arg + rest) == Some(
            (Head { major, arg: Some(be_value(arg) as u64) }, rest),
        ),
        be_value(Seq::empty()) == 0,
        be_value(arg.push(n)) == 256 * be_value(arg) + n,
        arg.len() <= 8 ==> be_value(arg) <= u64::MAX,
{
    assert((seq![(32 * major + n) as u8] + rest).skip(1) =~= rest);
    assert((seq![(32 * major + 31) as u8] + rest).skip(1) =~= rest);
    assert(arg.push(n).drop_last() =~= arg);
    let k = arg.len() as int;
    if k == 1 || k == 2 || k == 4 || k == 8 {
        let minor: u8 = if k == 1 {
            24
        } else if k == 2 {
            25
        } else if k == 4 {
            26
        } else {
            27
        };
        let b = seq![(32 * major + minor) as u8] + arg + rest;
        assert(b.subrange(1, 1 + k) =~= arg);
        assert(b.skip(1 + k) =~= rest);
    }
    if arg.len() <= 8 {
        lemma_be_fits(arg);
    }
}

} // verus!
