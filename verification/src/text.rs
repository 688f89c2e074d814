//! Text helpers: decimal and hexadecimal rendering, prefixes, joins and
//! equality.

use vstd::prelude::*;

use crate::order::{relate, Relation};

verus! {

/// `String::push`: appends one character to the end of the string.
pub assume_specification[ String::push ](s: &mut String, c: char)
    ensures
        final(s)@ == old(s)@.push(c),
;

/// The UTF-8 bytes of a text.
pub open spec fn utf8(s: Seq<char>) -> Seq<u8> {
    vstd::utf8::encode_utf8(s)
}

/// The decimal digit `d` as a character.
pub open spec fn digit_char(d: nat) -> char {
    (48 + d) as char
}

/// The usual decimal numeral of `n`, without leading zeros.
pub open spec fn decimal(n: nat) -> Seq<char>
    decreases n,
{
    if n < 10 {
        seq![digit_char(n)]
    } else {
        decimal(n / 10).push(digit_char(n % 10))
    }
}

/// Renders `n` in decimal.
pub fn decimal_string(n: u64) -> (s: String)
    ensures
        s@ == decimal(n as nat),
    decreases n,
{
    let mut s = if n < 10 {
        String::new()
    } else {
        decimal_string(n / 10)
    };
    let d: u8 = (n % 10) as u8;
    s.push((48 + d) as char);
    proof {
        assert((48 + d) as char == digit_char((n % 10) as nat));
    }
    s
}

/// The lowercase hexadecimal digit of value `v`.
pub open spec fn hex_char(v: nat) -> char {
    if v < 10 {
        (48 + v) as char
    } else {
        (87 + v) as char
    }
}

/// The character of one lowercase hexadecimal digit.
pub fn hex_digit(v: u8) -> (c: char)
    requires
        v < 16,
    ensures
        c == hex_char(v as nat),
{
    if v < 10 {
        (48 + v) as char
    } else {
        (87 + v) as char
    }
}

/// Two lowercase hexadecimal digits for one byte, high digit first.
pub open spec fn hex_pair(b: u8) -> Seq<char> {
    seq![hex_char((b / 16) as nat), hex_char((b % 16) as nat)]
}

/// Whether the text `s` starts with the text `p`.
pub open spec fn has_prefix(s: Seq<char>, p: Seq<char>) -> bool {
    p.len() <= s.len() && s.subrange(0, p.len() as int) == p
}

/// A prefix of a prefix is a prefix.
pub proof fn lemma_prefix_transitive(s: Seq<char>, q: Seq<char>, p: Seq<char>)
    requires
        has_prefix(s, q),
        has_prefix(q, p),
    ensures
        has_prefix(s, p),
{
    assert forall|i: int| 0 <= i < p.len() implies s[i] == p[i] by {
        assert(s.subrange(0, q.len() as int)[i] == q[i]);
        assert(q.subrange(0, p.len() as int)[i] == p[i]);
    }
    assert(s.subrange(0, p.len() as int) =~= p);
}

/// Tests whether `s` starts with `p`.
pub fn starts_with(s: &str, p: &str) -> (r: bool)
    ensures
        r == has_prefix(s@, p@),
{
    let mut cs = s.chars();
    let mut cp = p.chars();
    let ghost mut i: int = 0;
    loop
        invariant
            0 <= i <= p@.len(),
            i <= s@.len(),
            vstd::std_specs::iter::IteratorSpec::obeys_prophetic_iter_laws(&cs),
            vstd::std_specs::iter::IteratorSpec::obeys_prophetic_iter_laws(&cp),
            vstd::std_specs::iter::IteratorSpec::remaining(&cs) == s@.skip(i),
            vstd::std_specs::iter::IteratorSpec::remaining(&cp) == p@.skip(i),
            forall|j: int| 0 <= j < i ==> s@[j] == p@[j],
        decreases p@.len() - i,
    {
        match cp.next() {
            None => {
                assert(i == p@.len());
                assert(s@.subrange(0, i) =~= p@);
                return true;
            },
            Some(c) => {
                match cs.next() {
                    None => {
                        return false;
                    },
                    Some(d) => {
                        assert(c == p@[i] && d == s@[i]);
                        if c != d {
                            proof {
                                if has_prefix(s@, p@) {
                                    assert(s@.subrange(0, p@.len() as int)[i] == p@[i]);
                                }
                            }
                            return false;
                        }
                        proof {
                            assert(s@.skip(i).drop_first() =~= s@.skip(i + 1));
                            assert(p@.skip(i).drop_first() =~= p@.skip(i + 1));
                            i = i + 1;
                        }
                    },
                }
            },
        }
    }
}

/// The parts one after the other, with `sep` between two neighbours.
pub open spec fn joined(parts: Seq<Seq<char>>, sep: Seq<char>) -> Seq<char>
    decreases parts.len(),
{
    if parts.len() == 0 {
        Seq::empty()
    } else if parts.len() == 1 {
        parts[0]
    } else {
        joined(parts.drop_last(), sep) + sep + parts.last()
    }
}

/// The texts of `parts`.
pub open spec fn texts(parts: Seq<String>) -> Seq<Seq<char>> {
    parts.map_values(|s: String| s@)
}

/// Joins `parts` with `sep`.
pub fn join(parts: &Vec<String>, sep: &str) -> (s: String)
    ensures
        s@ == joined(texts(parts@), sep@),
{
    let mut s = String::new();
    let mut i: usize = 0;
    while i < parts.len()
        invariant
            i <= parts@.len(),
            s@ == joined(texts(parts@).take(i as int), sep@),
        decreases parts@.len() - i,
    {
        if i > 0 {
            s.append(sep);
        }
        s.append(parts[i].as_str());
        proof {
            let t = texts(parts@);
            assert(t.take(i + 1).drop_last() =~= t.take(i as int));
            assert(t.take(i + 1).last() == parts@[i as int]@);
            if i == 0 {
                assert(s@ =~= parts@[0]@);
            }
        }
        i += 1;
    }
    assert(texts(parts@).take(parts@.len() as int) =~= texts(parts@));
    s
}

/// How the `Debug` formatting of `str` renders a text: in double quotes, with
/// the characters that it escapes escaped.
pub uninterp spec fn quoted_text(s: Seq<char>) -> Seq<char>;

/// The `Debug` formatting of `str`, a function of the text alone.
#[verifier::external_body]
pub(crate) fn quoted(s: &str) -> (r: String)
    ensures
        r@ == quoted_text(s@),
{
    format!("{s:?}")
}

/// Two texts with the same UTF-8 bytes are the same.
pub proof fn lemma_utf8_injective(a: Seq<char>, b: Seq<char>)
    ensures
        utf8(a) == utf8(b) <==> a == b,
{
    vstd::utf8::encode_utf8_decode_utf8(a);
    vstd::utf8::encode_utf8_decode_utf8(b);
}

/// Whether two texts are the same.
pub fn same_text(a: &str, b: &str) -> (r: bool)
    ensures
        r == (a@ == b@),
{
    proof {
        lemma_utf8_injective(a@, b@);
        crate::order::lex_lt_irreflexive(utf8(a@));
    }
    match relate(a.as_bytes(), b.as_bytes()) {
        Relation::Same => true,
        _ => false,
    }
}

/// Whether two byte strings are the same.
pub fn same_bytes(a: &[u8], b: &[u8]) -> (r: bool)
    ensures
        r == (a@ == b@),
{
    proof {
        crate::order::lex_lt_irreflexive(a@);
    }
    match relate(a, b) {
        Relation::Same => true,
        _ => false,
    }
}

/// `std::str::from_utf8`: the text that the bytes encode, where they are
/// UTF-8.
#[verifier::external_body]
pub(crate) fn from_utf8(bytes: &[u8]) -> (r: Option<&str>)
    ensures
        match r {
            Some(s) => vstd::utf8::valid_utf8(bytes@) && s@ == vstd::utf8::decode_utf8(bytes@),
            None => !vstd::utf8::valid_utf8(bytes@),
        },
{
    std::str::from_utf8(bytes).ok()
}

/// A text starts with `p` exactly where it is `p` and something behind it.
pub proof fn law_prefix_is_a_leading_part(s: Seq<char>, p: Seq<char>, rest: Seq<char>)
    ensures
        has_prefix(p + rest, p),
        has_prefix(s, p) <==> p.len() <= s.len() && s == p + s.skip(p.len() as int),
{
    assert((p + rest).subrange(0, p.len() as int) =~= p);
    if has_prefix(s, p) {
        assert forall|i: int| 0 <= i < p.len() implies s[i] == p[i] by {
            assert(s.subrange(0, p.len() as int)[i] == p[i]);
        }
        assert(s =~= p + s.skip(p.len() as int));
    }
    if p.len() <= s.len() && s == p + s.skip(p.len() as int) {
        assert((p + s.skip(p.len() as int)).subrange(0, p.len() as int) =~= p);
    }
}

/// Numerals are positional: ten times a number and a digit is written as the
/// number with the digit behind it, and a number below ten as its digit.
pub proof fn law_numerals_are_positional(n: nat, d: nat)
    requires
        d < 10,
    ensures
        decimal(d) == seq!["0123456789"@[d as int]],
        n > 0 ==> decimal(10 * n + d) == decimal(n).push("0123456789"@[d as int]),
{
    reveal_strlit("0123456789");
    assert((10 * n + d) / 10 == n && (10 * n + d) % 10 == d);
    assert(digit_char(d) == "0123456789"@[d as int]);
}

/// Two numbers with the same numeral are the same.
pub proof fn law_numerals_identify_numbers(a: nat, b: nat)
    requires
        decimal(a) == decimal(b),
    ensures
        a == b,
    decreases a,
{
    let x = decimal(a);
    assert(x.last() == decimal(b).last());
    assert(a % 10 == b % 10);
    assert(decimal(a / 10).len() > 0 && decimal(b / 10).len() > 0);
    if a >= 10 {
        assert(b >= 10) by {
            if b < 10 {
                assert(decimal(b).len() == 1);
            }
        }
        assert(decimal(a).drop_last() =~= decimal(a / 10));
        assert(decimal(b).drop_last() =~= decimal(b / 10));
        law_numerals_identify_numbers(a / 10, b / 10);
    } else {
        assert(b < 10) by {
            if b >= 10 {
                assert(decimal(b).len() == decimal(b / 10).len() + 1);
                assert(decimal(a).len() == 1);
            }
        }
    }
}

/// Joining puts the separator between neighbours and nowhere else: one more
/// part adds a separator and the part.
pub proof fn law_joining_separates_neighbours(
    parts: Seq<Seq<char>>,
    part: Seq<char>,
    sep: Seq<char>,
)
    ensures
        joined(Seq::empty(), sep) == Seq::<char>::empty(),
        joined(seq![part], sep) == part,
        parts.len() > 0 ==> joined(parts.push(part), sep) == joined(parts, sep) + sep + part,
{
    let more = parts.push(part);
    assert(more.drop_last() =~= parts);
    assert(seq![part].drop_last() =~= Seq::empty());
    assert(seq![part].last() == part);
}

} // verus!
