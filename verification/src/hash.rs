//! Block identity: a 32-byte BLAKE3-256 digest and its hexadecimal form.

use vstd::prelude::*;
use vstd::std_specs::convert::FromSpec;

use crate::error::ReelError;
use crate::interop::digest;
use crate::table::{Keyed, Table};
use crate::text;
use crate::text::{decimal_string, hex_digit};

verus! {

/// A 32-byte BLAKE3-256 digest that names a block by its content.
#[derive(Clone, Copy, Debug)]
pub struct Hash([u8; 32]);

/// The lowercase hexadecimal text of `bytes`, two digits a byte.
pub open spec fn hex_text(bytes: Seq<u8>) -> Seq<char> {
    Seq::new(
        2 * bytes.len(),
        |i: int|
            text::hex_char(
                if i % 2 == 0 {
                    (bytes[i / 2] / 16) as nat
                } else {
                    (bytes[i / 2] % 16) as nat
                },
            ),
    )
}

/// Whether the byte `c` is an ASCII hexadecimal digit, of either case.
pub open spec fn is_hex_byte(c: u8) -> bool {
    48 <= c <= 57 || 97 <= c <= 102 || 65 <= c <= 70
}

/// The value of a hexadecimal digit.
pub open spec fn hex_value(c: u8) -> int {
    if c <= 57 {
        c - 48
    } else if c >= 97 {
        c - 87
    } else {
        c - 55
    }
}

/// `ascii` holds exactly 64 hexadecimal digits.
pub open spec fn is_hex_digest(ascii: Seq<u8>) -> bool {
    ascii.len() == 64 && forall|i: int| 0 <= i < 64 ==> is_hex_byte(#[trigger] ascii[i])
}

/// `digest` holds the 32 bytes that the 64 digits of `ascii` write out.
pub open spec fn hex_decodes(ascii: Seq<u8>, digest: Seq<u8>) -> bool {
    digest.len() == 32 && forall|i: int|
        0 <= i < 32 ==> #[trigger] digest[i] == hex_value(ascii[2 * i]) * 16 + hex_value(
            ascii[2 * i + 1],
        )
}

/// The first byte of `ascii` that is no hexadecimal digit stands at `i`.
pub open spec fn first_bad_digit(ascii: Seq<u8>, i: int) -> bool {
    &&& 0 <= i < ascii.len()
    &&& !is_hex_byte(ascii[i])
    &&& forall|j: int| 0 <= j < i ==> is_hex_byte(#[trigger] ascii[j])
}

/// The text that refuses `ascii` as a digest.
pub open spec fn hex_refusal(ascii: Seq<u8>) -> Seq<char> {
    if ascii.len() != 64 {
        "Hash::from_hex: expected 64 hex chars, got "@ + text::decimal(ascii.len())
    } else {
        "invalid hex character: 0x"@ + text::hex_pair(
            ascii[choose|i: int| first_bad_digit(ascii, i)],
        )
    }
}

/// Why a text is no digest.
#[derive(Clone, Copy, Debug)]
pub enum HexError {
    /// The text has this many bytes in place of 64.
    Length(usize),
    /// This byte is no hexadecimal digit.
    Char(u8),
}

impl HexError {
    /// The text of the error.
    pub open spec fn message(self) -> Seq<char> {
        match self {
            HexError::Length(n) => "Hash::from_hex: expected 64 hex chars, got "@ + text::decimal(
                n as nat,
            ),
            HexError::Char(c) => "invalid hex character: 0x"@ + text::hex_pair(c),
        }
    }

    /// Renders the error.
    pub fn to_string(&self) -> (s: String)
        ensures
            s@ == self.message(),
    {
        match self {
            HexError::Length(n) => String::from_str(
                "Hash::from_hex: expected 64 hex chars, got ",
            ).concat(decimal_string(*n as u64).as_str()),
            HexError::Char(c) => {
                let mut s = String::from_str("invalid hex character: 0x");
                s.push(hex_digit(*c / 16));
                s.push(hex_digit(*c % 16));
                assert(s@ =~= "invalid hex character: 0x"@ + text::hex_pair(*c));
                s
            },
        }
    }
}

impl Hash {
    /// The 32 bytes of the digest.
    pub closed spec fn view(&self) -> Seq<u8> {
        self.0@
    }

    /// Wraps a raw digest.
    #[must_use]
    pub fn from_bytes(bytes: [u8; 32]) -> (h: Self)
        ensures
            h.view() == bytes@,
    {
        Hash(bytes)
    }

    /// The raw digest.
    #[must_use]
    pub fn as_bytes(&self) -> (b: &[u8; 32])
        ensures
            b@ == self.view(),
    {
        &self.0
    }

    /// The 64 lowercase hexadecimal digits of the digest.
    #[must_use]
    pub fn to_hex(&self) -> (s: String)
        ensures
            s@ == hex_text(self.view()),
            s@.len() == 64,
    {
        bytes_to_hex(&self.0)
    }

    /// Reads 64 hexadecimal digits, of either case, as a digest.
    pub fn from_hex(s: &str) -> (r: Result<Self, ReelError>)
        ensures
            r is Ok <==> is_hex_digest(text::utf8(s@)),
            match r {
                Ok(h) => hex_decodes(text::utf8(s@), h.view()),
                Err(e) => e.is_storage(hex_refusal(text::utf8(s@))),
            },
    {
        match hex_to_bytes(s) {
            Ok(bytes) => Ok(Hash(bytes)),
            Err(e) => Err(ReelError::Storage(e.to_string())),
        }
    }

    /// The short form used in diagnostics: `Hash(` and the first eight
    /// digits, an ellipsis and `)`.
    pub fn short(&self) -> (s: String)
        ensures
            s@ == short_text(self.view()),
    {
        let hex = self.to_hex();
        let head = hex.as_str().substring_char(0, 8);
        String::from_str("Hash(").concat(head).concat("\u{2026})")
    }
}

/// The short diagnostic form of a digest.
pub open spec fn short_text(digest: Seq<u8>) -> Seq<char> {
    "Hash("@ + hex_text(digest).subrange(0, 8) + "\u{2026})"@
}

/// Renders 32 bytes as 64 lowercase hexadecimal digits.
pub fn bytes_to_hex(bytes: &[u8; 32]) -> (s: String)
    ensures
        s@ == hex_text(bytes@),
        s@.len() == 64,
{
    let mut s = String::new();
    let mut i: usize = 0;
    while i < 32
        invariant
            i <= 32,
            s@ == hex_text(bytes@.subrange(0, i as int)),
        decreases 32 - i,
    {
        let b: u8 = bytes[i];
        let ghost before = s@;
        s.push(hex_digit(b / 16));
        s.push(hex_digit(b % 16));
        i += 1;
        proof {
            let done = bytes@.subrange(0, i as int);
            assert(s@ =~= hex_text(done)) by {
                assert forall|k: int| 0 <= k < 2 * i implies s@[k] == hex_text(done)[k] by {
                    if k < 2 * (i - 1) {
                        assert(s@[k] == before[k]);
                        assert(done[k / 2] == bytes@.subrange(0, i - 1)[k / 2]);
                    }
                }
            }
        }
    }
    assert(bytes@.subrange(0, 32) =~= bytes@);
    s
}

/// Reads 64 hexadecimal digits as 32 bytes.
pub fn hex_to_bytes(s: &str) -> (r: Result<[u8; 32], HexError>)
    ensures
        r is Ok <==> is_hex_digest(text::utf8(s@)),
        match r {
            Ok(b) => hex_decodes(text::utf8(s@), b@),
            Err(HexError::Length(n)) => n == text::utf8(s@).len() && n != 64,
            Err(HexError::Char(c)) => text::utf8(s@).len() == 64 && exists|i: int|
                first_bad_digit(text::utf8(s@), i) && text::utf8(s@)[i] == c,
        },
        r matches Err(e) ==> e.message() == hex_refusal(text::utf8(s@)),
{
    let ascii = s.as_bytes();
    let ghost a = text::utf8(s@);
    if ascii.len() != 64 {
        return Err(HexError::Length(ascii.len()));
    }
    let mut bytes: [u8; 32] = [0u8; 32];
    let mut i: usize = 0;
    while i < 32
        invariant
            i <= 32,
            ascii@ == a,
            a.len() == 64,
            a == text::utf8(s@),
            forall|k: int| 0 <= k < 2 * i ==> is_hex_byte(#[trigger] a[k]),
            forall|k: int|
                0 <= k < i ==> #[trigger] bytes@[k] == hex_value(a[2 * k]) * 16 + hex_value(
                    a[2 * k + 1],
                ),
        decreases 32 - i,
    {
        let hi = match hex_nibble(ascii[2 * i]) {
            Ok(v) => v,
            Err(e) => {
                proof {
                    lemma_first_bad(a, 2 * i as int);
                }
                return Err(e);
            },
        };
        let lo = match hex_nibble(ascii[2 * i + 1]) {
            Ok(v) => v,
            Err(e) => {
                proof {
                    assert(is_hex_byte(a[2 * i as int]));
                    lemma_first_bad(a, 2 * i + 1);
                }
                return Err(e);
            },
        };
        bytes[i] = hi * 16 + lo;
        i += 1;
    }
    Ok(bytes)
}

proof fn lemma_first_bad(a: Seq<u8>, i: int)
    requires
        a.len() == 64,
        first_bad_digit(a, i),
    ensures
        !is_hex_digest(a),
        HexError::Char(a[i]).message() == hex_refusal(a),
{
    let j = choose|j: int| first_bad_digit(a, j);
    assert(i == j) by {
        if i < j {
            assert(is_hex_byte(a[i]));
        } else if j < i {
            assert(is_hex_byte(a[j]));
        }
    }
}

/// The value of one hexadecimal digit.
pub fn hex_nibble(c: u8) -> (r: Result<u8, HexError>)
    ensures
        r is Ok <==> is_hex_byte(c),
        match r {
            Ok(v) => v == hex_value(c) && v < 16,
            Err(e) => e == HexError::Char(c),
        },
{
    if 48 <= c && c <= 57 {
        Ok(c - 48)
    } else if 97 <= c && c <= 102 {
        Ok(c - 87)
    } else if 65 <= c && c <= 70 {
        Ok(c - 55)
    } else {
        Err(HexError::Char(c))
    }
}

/// Two digests with the same bytes are the same digest.
pub proof fn lemma_hash_ext(a: Hash, b: Hash)
    ensures
        a.view() == b.view() <==> a == b,
        a.view().len() == 32,
{
    if a.view() == b.view() {
        assert forall|i: int| 0 <= i < 32 implies a.0[i] == b.0[i] by {
            assert(a.view()[i] == b.view()[i]);
        }
        assert(a.0 =~= b.0);
    }
}

impl From<[u8; 32]> for Hash {
    fn from(bytes: [u8; 32]) -> (h: Hash) {
        Hash(bytes)
    }
}

impl vstd::std_specs::convert::FromSpecImpl<[u8; 32]> for Hash {
    open spec fn obeys_from_spec() -> bool {
        true
    }

    closed spec fn from_spec(bytes: [u8; 32]) -> Hash {
        Hash(bytes)
    }
}

impl From<blake3::Hash> for Hash {
    fn from(d: blake3::Hash) -> (h: Hash) {
        Hash(digest::raw_bytes(&d))
    }
}

impl vstd::std_specs::convert::FromSpecImpl<blake3::Hash> for Hash {
    open spec fn obeys_from_spec() -> bool {
        true
    }

    closed spec fn from_spec(d: blake3::Hash) -> Hash {
        Hash(digest::digest_bytes(d))
    }
}

impl From<Hash> for [u8; 32] {
    fn from(h: Hash) -> (bytes: [u8; 32]) {
        h.0
    }
}

impl vstd::std_specs::convert::FromSpecImpl<Hash> for [u8; 32] {
    open spec fn obeys_from_spec() -> bool {
        true
    }

    closed spec fn from_spec(h: Hash) -> [u8; 32] {
        h.0
    }
}

/// The conversions keep the bytes, and so those from and to an array undo each
/// other.
pub proof fn law_conversions_keep_the_bytes(bytes: [u8; 32], d: blake3::Hash, h: Hash)
    ensures
        Hash::from_spec(d).view() == digest::digest_bytes(d)@,
        Hash::from_spec(bytes).view() == bytes@,
        <[u8; 32]>::from_spec(h)@ == h.view(),
        <[u8; 32]>::from_spec(Hash::from_spec(bytes)) == bytes,
        Hash::from_spec(<[u8; 32]>::from_spec(h)) == h,
{
}

impl PartialEq for Hash {
    fn eq(&self, other: &Self) -> (r: bool) {
        let mut i: usize = 0;
        while i < 32
            invariant
                i <= 32,
                forall|j: int| 0 <= j < i ==> self.0[j] == other.0[j],
            decreases 32 - i,
        {
            if self.0[i] != other.0[i] {
                return false;
            }
            i += 1;
        }
        assert(self.0 =~= other.0);
        true
    }
}

impl vstd::std_specs::cmp::PartialEqSpecImpl for Hash {
    open spec fn obeys_eq_spec() -> bool {
        true
    }

    open spec fn eq_spec(&self, other: &Self) -> bool {
        *self == *other
    }
}

impl Eq for Hash {

}

impl Keyed for Hash {
    open spec fn key(&self) -> Seq<u8> {
        self.view()
    }

    fn key_bytes(&self) -> (k: &[u8]) {
        let k = self.0.as_slice();
        assert(self.view() == self.0@);
        assert(self.key() == self.view());
        k
    }
}

/// A table of digests has `h` among its rows exactly if it has its bytes as a
/// key.
pub proof fn lemma_table_contains(t: Table<Hash>, h: Hash)
    requires
        t.wf(),
    ensures
        t.view().contains(h) <==> t.map().dom().contains(h.view()),
{
    if t.view().contains(h) {
        let i = choose|i: int| 0 <= i < t.view().len() && t.view()[i] == h;
        assert(t.view()[i].key() == h.view());
    }
    if t.map().dom().contains(h.view()) {
        let i = choose|i: int|
            0 <= i < t.view().len() && (#[trigger] t.view()[i]).key() == h.view();
        lemma_hash_ext(t.view()[i], h);
        assert(t.view()[i] == h);
    }
}

/// Putting `x` into a table of digests adds `x` to its rows and nothing else.
pub proof fn lemma_table_members(before: Table<Hash>, after: Table<Hash>, x: Hash)
    requires
        before.wf(),
        after.wf(),
        after.map() == before.map().insert(x.view(), x),
    ensures
        forall|h: Hash| #[trigger]
            after.view().contains(h) <==> before.view().contains(h) || h == x,
{
    assert forall|h: Hash| #[trigger]
        after.view().contains(h) <==> before.view().contains(h) || h == x by {
        lemma_table_contains(before, h);
        lemma_table_contains(after, h);
        lemma_hash_ext(h, x);
    }
}

proof fn lemma_hex_char_byte(v: nat)
    requires
        v < 16,
    ensures
        (text::hex_char(v) as u32) < 128,
        is_hex_byte(text::hex_char(v) as u8),
        hex_value(text::hex_char(v) as u8) == v,
{
}

/// The bytes of the hexadecimal text of a digest are its digits.
proof fn lemma_hex_text_bytes(d: Seq<u8>)
    ensures
        text::utf8(hex_text(d)).len() == 2 * d.len(),
        forall|i: int|
            0 <= i < 2 * d.len() ==> #[trigger] text::utf8(hex_text(d))[i] == hex_text(d)[i] as u8,
{
    let t = hex_text(d);
    assert forall|i: int| 0 <= i < t.len() implies (#[trigger] t[i] as u32) < 128 by {
        lemma_hex_char_byte(
            if i % 2 == 0 {
                (d[i / 2] / 16) as nat
            } else {
                (d[i / 2] % 16) as nat
            },
        );
    }
    assert(vstd::utf8::is_ascii_chars(t));
    vstd::utf8::is_ascii_chars_encode_utf8(t);
}

/// The hexadecimal text of a digest writes it out.
pub proof fn lemma_hex_text_decodes(h: Hash)
    ensures
        is_hex_digest(text::utf8(hex_text(h.view()))),
        hex_decodes(text::utf8(hex_text(h.view())), h.view()),
{
    let d = h.view();
    let t = hex_text(d);
    let a = text::utf8(t);
    lemma_hash_ext(h, h);
    lemma_hex_text_bytes(d);
    assert forall|i: int| 0 <= i < 32 implies #[trigger] d[i] == hex_value(a[2 * i]) * 16 + hex_value(
        a[2 * i + 1],
    ) && is_hex_byte(a[2 * i]) && is_hex_byte(a[2 * i + 1]) by {
        lemma_hex_char_byte((d[i] / 16) as nat);
        lemma_hex_char_byte((d[i] % 16) as nat);
        assert((2 * i) / 2 == i && (2 * i) % 2 == 0);
        assert((2 * i + 1) / 2 == i && (2 * i + 1) % 2 == 1);
        assert(a[2 * i] == t[2 * i] as u8);
        assert(a[2 * i + 1] == t[2 * i + 1] as u8);
    }
    assert forall|k: int| 0 <= k < 64 implies is_hex_byte(#[trigger] a[k]) by {
        let i = k / 2;
        assert(d[i] == d[i]);
        assert(is_hex_byte(a[2 * i]) && is_hex_byte(a[2 * i + 1]));
        assert(k == 2 * i || k == 2 * i + 1);
    }
}

/// Digits write out one digest only.
pub proof fn lemma_decodes_unique(ascii: Seq<u8>, a: Hash, b: Hash)
    requires
        hex_decodes(ascii, a.view()),
        hex_decodes(ascii, b.view()),
    ensures
        a == b,
{
    lemma_hash_ext(a, b);
    assert(a.view() =~= b.view());
}

/// The digits that [`Hash::to_hex`] writes are read back by
/// [`Hash::from_hex`] as the same digest.
pub proof fn law_hex_round_trip(h: Hash, back: Hash)
    requires
        hex_decodes(text::utf8(hex_text(h.view())), back.view()),
    ensures
        is_hex_digest(text::utf8(hex_text(h.view()))),
        back == h,
{
    lemma_hex_text_decodes(h);
    lemma_decodes_unique(text::utf8(hex_text(h.view())), h, back);
}

/// Digests are written byte by byte, the high digit first, in lower case.
pub proof fn law_hex_is_written_byte_by_byte(a: Seq<u8>, b: u8)
    ensures
        hex_text(Seq::empty()) == Seq::<char>::empty(),
        hex_text(a.push(b)) == hex_text(a).push("0123456789abcdef"@[(b / 16) as int]).push(
            "0123456789abcdef"@[(b % 16) as int],
        ),
{
    reveal_strlit("0123456789abcdef");
    assert(hex_text(Seq::empty()) =~= Seq::<char>::empty());
    let digits = "0123456789abcdef"@;
    assert forall|v: nat| v < 16 implies text::hex_char(v) == #[trigger] digits[v as int] by {}
    let more = a.push(b);
    let want = hex_text(a).push(digits[(b / 16) as int]).push(digits[(b % 16) as int]);
    assert(hex_text(more).len() == want.len());
    assert forall|i: int| 0 <= i < want.len() implies hex_text(more)[i] == want[i] by {
        if i < 2 * a.len() {
            assert(more[i / 2] == a[i / 2]);
        } else {
            assert(more[i / 2] == b);
            assert(text::hex_char((b / 16) as nat) == digits[(b / 16) as int]);
            assert(text::hex_char((b % 16) as nat) == digits[(b % 16) as int]);
        }
    }
    assert(hex_text(more) =~= want);
}

/// A text is read as a digest exactly where it has 64 characters, all of them
/// `0` to `9`, `a` to `f` or `A` to `F`; the case of a letter does not matter.
pub proof fn law_hex_is_read_in_either_case(ascii: Seq<u8>, c: u8)
    ensures
        is_hex_digest(ascii) <==> ascii.len() == 64 && forall|i: int|
            0 <= i < 64 ==> (48 <= #[trigger] ascii[i] <= 57 || 65 <= ascii[i] <= 70 || 97
                <= ascii[i] <= 102),
        48 <= c <= 57 ==> hex_value(c) == c - 48,
        65 <= c <= 70 ==> hex_value(c) == 10 + (c - 65) && hex_value((c + 32) as u8) == hex_value(
            c,
        ),
{
}

/// The bytes that 64 digits write out are read from the digits in pairs, the
/// high digit first.
pub proof fn law_hex_pairs_give_the_bytes(ascii: Seq<u8>, digest: Seq<u8>, i: int)
    requires
        hex_decodes(ascii, digest),
        0 <= i < 32,
    ensures
        digest.len() == 32,
        digest[i] as int == 16 * hex_value(ascii[2 * i]) + hex_value(ascii[2 * i + 1]),
{
}

/// Digests are listed in the order of their bytes.
pub proof fn law_sorted_digests_are_in_byte_order(list: Seq<Hash>, i: int, j: int)
    requires
        crate::table::strictly_sorted(list),
        0 <= i < j < list.len(),
    ensures
        crate::order::lex_lt(list[i].view(), list[j].view()),
        list[i] != list[j],
{
    assert(crate::order::lex_lt(list[i].key(), list[j].key()));
    crate::order::lex_lt_irreflexive(list[i].view());
}

} // verus!
