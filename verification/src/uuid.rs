//! UUIDs: their text, and the calls into the `uuid` crate.

use vstd::prelude::*;
use vstd::string::*;

verus! {

/// A UUID, as its 128 bits.
#[derive(Clone, Copy, Debug, PartialEq, Eq, Structural, Hash)]
pub struct Uuid {
    pub bits: u128,
}

/// The `k`th hexadecimal digit of a UUID, the most significant first.
pub open spec fn nibble(bits: u128, k: int) -> u128 {
    (bits >> ((124 - 4 * k) as u128)) & 0xf
}

/// The lower-case character of a hexadecimal digit.
pub open spec fn hex_char(d: u128) -> char {
    if d == 0 {
        '0'
    } else if d == 1 {
        '1'
    } else if d == 2 {
        '2'
    } else if d == 3 {
        '3'
    } else if d == 4 {
        '4'
    } else if d == 5 {
        '5'
    } else if d == 6 {
        '6'
    } else if d == 7 {
        '7'
    } else if d == 8 {
        '8'
    } else if d == 9 {
        '9'
    } else if d == 10 {
        'a'
    } else if d == 11 {
        'b'
    } else if d == 12 {
        'c'
    } else if d == 13 {
        'd'
    } else if d == 14 {
        'e'
    } else {
        'f'
    }
}

/// The value of a hexadecimal digit of either case, where the character is one.
pub open spec fn hex_value(c: char) -> Option<u128> {
    if '0' <= c <= '9' {
        Some((c as u128 - '0' as u128) as u128)
    } else if 'a' <= c <= 'f' {
        Some((c as u128 - 'a' as u128 + 10) as u128)
    } else if 'A' <= c <= 'F' {
        Some((c as u128 - 'A' as u128 + 10) as u128)
    } else {
        None
    }
}

/// The places of the hyphens in the text of a UUID.
pub open spec fn hyphen_at(i: int) -> bool {
    i == 8 || i == 13 || i == 18 || i == 23
}

/// The number of hyphens before a place in the text of a UUID.
pub open spec fn hyphens_before(i: int) -> int {
    if i <= 8 {
        0
    } else if i <= 13 {
        1
    } else if i <= 18 {
        2
    } else if i <= 23 {
        3
    } else {
        4
    }
}

/// The text of a UUID: lower case, hyphenated.
pub open spec fn uuid_text(bits: u128) -> Seq<char> {
    Seq::new(
        36,
        |i: int|
            if hyphen_at(i) {
                '-'
            } else {
                hex_char(nibble(bits, i - hyphens_before(i)))
            },
    )
}

/// The 32 digits of a hyphenated UUID; `None` where its length or hyphens are not those of one.
pub open spec fn without_hyphens(s: Seq<char>) -> Option<Seq<char>> {
    if s.len() == 36 && s[8] == '-' && s[13] == '-' && s[18] == '-' && s[23] == '-' {
        Some(
            s.subrange(0, 8) + s.subrange(9, 13) + s.subrange(14, 18) + s.subrange(19, 23)
                + s.subrange(24, 36),
        )
    } else {
        None
    }
}

/// An ASCII letter in lower case.
pub open spec fn ascii_lower(c: char) -> char {
    if 'A' <= c <= 'Z' {
        (c as u32 + 32) as char
    } else {
        c
    }
}

/// The 32 places of the digits in a text of one of the four forms that a UUID is read from:
/// plain, hyphenated, hyphenated in braces, and as a URN.
pub open spec fn digit_places(s: Seq<char>) -> Option<Seq<char>> {
    if s.len() == 32 {
        Some(s)
    } else if s.len() == 36 {
        without_hyphens(s)
    } else if s.len() == 38 && s[0] == '{' && s[37] == '}' {
        without_hyphens(s.subrange(1, 37))
    } else if s.len() == 45 && s.subrange(0, 9).map_values(|c: char| ascii_lower(c))
        == seq!['u', 'r', 'n', ':', 'u', 'u', 'i', 'd', ':'] {
        without_hyphens(s.subrange(9, 45))
    } else {
        None
    }
}

/// Whether a text is one that a UUID is read from.
pub open spec fn reads_as_uuid(s: Seq<char>) -> bool {
    digit_places(s) matches Some(ds) && forall|k: int|
        0 <= k < 32 ==> hex_value(#[trigger] ds[k]) is Some
}

/// Whether a UUID is the one that a text denotes.
pub open spec fn denotes(bits: u128, s: Seq<char>) -> bool {
    forall|k: int|
        0 <= k < 32 ==> Some(nibble(bits, k)) == hex_value(#[trigger] (digit_places(s)->0)[k])
}

proof fn lemma_same_nibbles(a: u128, b: u128)
    requires
        forall|k: int| 0 <= k < 32 ==> #[trigger] nibble(a, k) == nibble(b, k),
    ensures
        a == b,
{
    assert((a >> 124u128) & 0xf == (b >> 124u128) & 0xf) by { assert(nibble(a, 0) == nibble(b, 0)); }
    assert((a >> 120u128) & 0xf == (b >> 120u128) & 0xf) by { assert(nibble(a, 1) == nibble(b, 1)); }
    assert((a >> 116u128) & 0xf == (b >> 116u128) & 0xf) by { assert(nibble(a, 2) == nibble(b, 2)); }
    assert((a >> 112u128) & 0xf == (b >> 112u128) & 0xf) by { assert(nibble(a, 3) == nibble(b, 3)); }
    assert((a >> 108u128) & 0xf == (b >> 108u128) & 0xf) by { assert(nibble(a, 4) == nibble(b, 4)); }
    assert((a >> 104u128) & 0xf == (b >> 104u128) & 0xf) by { assert(nibble(a, 5) == nibble(b, 5)); }
    assert((a >> 100u128) & 0xf == (b >> 100u128) & 0xf) by { assert(nibble(a, 6) == nibble(b, 6)); }
    assert((a >> 96u128) & 0xf == (b >> 96u128) & 0xf) by { assert(nibble(a, 7) == nibble(b, 7)); }
    assert((a >> 92u128) & 0xf == (b >> 92u128) & 0xf) by { assert(nibble(a, 8) == nibble(b, 8)); }
    assert((a >> 88u128) & 0xf == (b >> 88u128) & 0xf) by { assert(nibble(a, 9) == nibble(b, 9)); }
    assert((a >> 84u128) & 0xf == (b >> 84u128) & 0xf) by { assert(nibble(a, 10) == nibble(b, 10)); }
    assert((a >> 80u128) & 0xf == (b >> 80u128) & 0xf) by { assert(nibble(a, 11) == nibble(b, 11)); }
    assert((a >> 76u128) & 0xf == (b >> 76u128) & 0xf) by { assert(nibble(a, 12) == nibble(b, 12)); }
    assert((a >> 72u128) & 0xf == (b >> 72u128) & 0xf) by { assert(nibble(a, 13) == nibble(b, 13)); }
    assert((a >> 68u128) & 0xf == (b >> 68u128) & 0xf) by { assert(nibble(a, 14) == nibble(b, 14)); }
    assert((a >> 64u128) & 0xf == (b >> 64u128) & 0xf) by { assert(nibble(a, 15) == nibble(b, 15)); }
    assert((a >> 60u128) & 0xf == (b >> 60u128) & 0xf) by { assert(nibble(a, 16) == nibble(b, 16)); }
    assert((a >> 56u128) & 0xf == (b >> 56u128) & 0xf) by { assert(nibble(a, 17) == nibble(b, 17)); }
    assert((a >> 52u128) & 0xf == (b >> 52u128) & 0xf) by { assert(nibble(a, 18) == nibble(b, 18)); }
    assert((a >> 48u128) & 0xf == (b >> 48u128) & 0xf) by { assert(nibble(a, 19) == nibble(b, 19)); }
    assert((a >> 44u128) & 0xf == (b >> 44u128) & 0xf) by { assert(nibble(a, 20) == nibble(b, 20)); }
    assert((a >> 40u128) & 0xf == (b >> 40u128) & 0xf) by { assert(nibble(a, 21) == nibble(b, 21)); }
    assert((a >> 36u128) & 0xf == (b >> 36u128) & 0xf) by { assert(nibble(a, 22) == nibble(b, 22)); }
    assert((a >> 32u128) & 0xf == (b >> 32u128) & 0xf) by { assert(nibble(a, 23) == nibble(b, 23)); }
    assert((a >> 28u128) & 0xf == (b >> 28u128) & 0xf) by { assert(nibble(a, 24) == nibble(b, 24)); }
    assert((a >> 24u128) & 0xf == (b >> 24u128) & 0xf) by { assert(nibble(a, 25) == nibble(b, 25)); }
    assert((a >> 20u128) & 0xf == (b >> 20u128) & 0xf) by { assert(nibble(a, 26) == nibble(b, 26)); }
    assert((a >> 16u128) & 0xf == (b >> 16u128) & 0xf) by { assert(nibble(a, 27) == nibble(b, 27)); }
    assert((a >> 12u128) & 0xf == (b >> 12u128) & 0xf) by { assert(nibble(a, 28) == nibble(b, 28)); }
    assert((a >> 8u128) & 0xf == (b >> 8u128) & 0xf) by { assert(nibble(a, 29) == nibble(b, 29)); }
    assert((a >> 4u128) & 0xf == (b >> 4u128) & 0xf) by { assert(nibble(a, 30) == nibble(b, 30)); }
    assert((a >> 0u128) & 0xf == (b >> 0u128) & 0xf) by { assert(nibble(a, 31) == nibble(b, 31)); }
    assert(a == b) by (bit_vector)
        requires
            (a >> 124u128) & 0xf == (b >> 124u128) & 0xf,
            (a >> 120u128) & 0xf == (b >> 120u128) & 0xf,
            (a >> 116u128) & 0xf == (b >> 116u128) & 0xf,
            (a >> 112u128) & 0xf == (b >> 112u128) & 0xf,
            (a >> 108u128) & 0xf == (b >> 108u128) & 0xf,
            (a >> 104u128) & 0xf == (b >> 104u128) & 0xf,
            (a >> 100u128) & 0xf == (b >> 100u128) & 0xf,
            (a >> 96u128) & 0xf == (b >> 96u128) & 0xf,
            (a >> 92u128) & 0xf == (b >> 92u128) & 0xf,
            (a >> 88u128) & 0xf == (b >> 88u128) & 0xf,
            (a >> 84u128) & 0xf == (b >> 84u128) & 0xf,
            (a >> 80u128) & 0xf == (b >> 80u128) & 0xf,
            (a >> 76u128) & 0xf == (b >> 76u128) & 0xf,
            (a >> 72u128) & 0xf == (b >> 72u128) & 0xf,
            (a >> 68u128) & 0xf == (b >> 68u128) & 0xf,
            (a >> 64u128) & 0xf == (b >> 64u128) & 0xf,
            (a >> 60u128) & 0xf == (b >> 60u128) & 0xf,
            (a >> 56u128) & 0xf == (b >> 56u128) & 0xf,
            (a >> 52u128) & 0xf == (b >> 52u128) & 0xf,
            (a >> 48u128) & 0xf == (b >> 48u128) & 0xf,
            (a >> 44u128) & 0xf == (b >> 44u128) & 0xf,
            (a >> 40u128) & 0xf == (b >> 40u128) & 0xf,
            (a >> 36u128) & 0xf == (b >> 36u128) & 0xf,
            (a >> 32u128) & 0xf == (b >> 32u128) & 0xf,
            (a >> 28u128) & 0xf == (b >> 28u128) & 0xf,
            (a >> 24u128) & 0xf == (b >> 24u128) & 0xf,
            (a >> 20u128) & 0xf == (b >> 20u128) & 0xf,
            (a >> 16u128) & 0xf == (b >> 16u128) & 0xf,
            (a >> 12u128) & 0xf == (b >> 12u128) & 0xf,
            (a >> 8u128) & 0xf == (b >> 8u128) & 0xf,
            (a >> 4u128) & 0xf == (b >> 4u128) & 0xf,
            (a >> 0u128) & 0xf == (b >> 0u128) & 0xf,
    ;
}

proof fn lemma_hex_reads_back(d: u128)
    requires
        d < 16,
    ensures
        hex_value(hex_char(d)) == Some(d),
{
}

/// The text of a UUID is read as that UUID and no other.
pub proof fn law_uuid_reads_back(bits: u128, read: u128)
    ensures
        reads_as_uuid(uuid_text(bits)),
        denotes(read, uuid_text(bits)) <==> read == bits,
{
    let s = uuid_text(bits);
    assert(hyphen_at(8) && hyphen_at(13) && hyphen_at(18) && hyphen_at(23));
    let ds = without_hyphens(s)->0;
    assert forall|k: int| 0 <= k < 32 implies hex_value(#[trigger] ds[k]) == Some(
        nibble(bits, k),
    ) by {
        let i = if k < 8 {
            k
        } else if k < 12 {
            k + 1
        } else if k < 16 {
            k + 2
        } else if k < 20 {
            k + 3
        } else {
            k + 4
        };
        assert(ds[k] == s[i]);
        assert(!hyphen_at(i));
        assert(i - hyphens_before(i) == k);
        let shift = (124 - 4 * k) as u128;
        assert((bits >> shift) & 0xf < 16) by (bit_vector);
        lemma_hex_reads_back(nibble(bits, k));
    }
    if denotes(read, s) {
        assert forall|k: int| 0 <= k < 32 implies #[trigger] nibble(read, k) == nibble(bits, k) by {
            assert(hex_value(ds[k]) == Some(nibble(bits, k)));
        }
        lemma_same_nibbles(read, bits);
    }
}

/// Two UUIDs with the same text are the same.
pub proof fn law_uuid_texts_differ(a: u128, b: u128)
    requires
        uuid_text(a) == uuid_text(b),
    ensures
        a == b,
{
    law_uuid_reads_back(a, a);
    law_uuid_reads_back(b, a);
}

/// The version 5 UUID of a name in a namespace: the first 128 bits of the SHA-1 hash of both,
/// with the version and the variant set.
pub uninterp spec fn v5(namespace: u128, name: Seq<char>) -> u128;

/// Whether a UUID has a version, and the usual variant.
pub open spec fn versioned(bits: u128, version: u128) -> bool {
    nibble(bits, 12) == version && 8 <= nibble(bits, 16) <= 11
}

/// Whether a UUID is one that was made from a name.
pub open spec fn name_based(bits: u128) -> bool {
    versioned(bits, 5)
}

/// Calls `uuid::Uuid::new_v5`. Claimed of it: the result depends on the namespace and the name
/// alone, and its version and variant are set.
#[verifier::external_body]
fn new_v5(namespace: u128, name: &str) -> (r: u128)
    ensures
        r == v5(namespace, name@),
        name_based(r),
{
    uuid::Uuid::new_v5(&uuid::Uuid::from_u128(namespace), name.as_bytes()).as_u128()
}

/// Calls `uuid::Uuid::new_v4`. Claimed of it: its version and variant are set. The other bits are
/// random; nothing is said of them.
#[verifier::external_body]
fn new_v4() -> (r: u128)
    ensures
        versioned(r, 4),
{
    uuid::Uuid::new_v4().as_u128()
}

/// Calls `uuid::Uuid::parse_str`. Claimed of it: it reads exactly the four forms, with digits of
/// either case, and the digits read are those of the result, in order.
#[verifier::external_body]
fn parse_str(s: &str) -> (r: Option<u128>)
    ensures
        r is Some <==> reads_as_uuid(s@),
        r matches Some(bits) ==> forall|k: int|
            0 <= k < 32 ==> Some(nibble(bits, k)) == hex_value(#[trigger] (digit_places(s@)->0)[k]),
{
    uuid::Uuid::parse_str(s).ok().map(|u| u.as_u128())
}

/// The text of a hexadecimal digit.
fn hex_text(d: u128) -> (r: &'static str)
    requires
        d < 16,
    ensures
        r@ == seq![hex_char(d)],
{
    proof {
        reveal_strlit("0");
        reveal_strlit("1");
        reveal_strlit("2");
        reveal_strlit("3");
        reveal_strlit("4");
        reveal_strlit("5");
        reveal_strlit("6");
        reveal_strlit("7");
        reveal_strlit("8");
        reveal_strlit("9");
        reveal_strlit("a");
        reveal_strlit("b");
        reveal_strlit("c");
        reveal_strlit("d");
        reveal_strlit("e");
        reveal_strlit("f");
    }
    let r = if d == 0 {
        "0"
    } else if d == 1 {
        "1"
    } else if d == 2 {
        "2"
    } else if d == 3 {
        "3"
    } else if d == 4 {
        "4"
    } else if d == 5 {
        "5"
    } else if d == 6 {
        "6"
    } else if d == 7 {
        "7"
    } else if d == 8 {
        "8"
    } else if d == 9 {
        "9"
    } else if d == 10 {
        "a"
    } else if d == 11 {
        "b"
    } else if d == 12 {
        "c"
    } else if d == 13 {
        "d"
    } else if d == 14 {
        "e"
    } else {
        "f"
    };
    assert(r@ =~= seq![hex_char(d)]);
    r
}

impl Uuid {
    /// The version 5 UUID of a name in a namespace.
    pub fn v5(namespace: Uuid, name: &str) -> (r: Uuid)
        ensures
            r.bits == v5(namespace.bits, name@),
            name_based(r.bits),
    {
        Uuid { bits: new_v5(namespace.bits, name) }
    }

    /// A random UUID, of version 4.
    pub fn random() -> (r: Uuid)
        ensures
            versioned(r.bits, 4),
    {
        Uuid { bits: new_v4() }
    }

    /// Reads a UUID from its text.
    pub fn parse(s: &str) -> (r: Option<Uuid>)
        ensures
            r is Some <==> reads_as_uuid(s@),
            r matches Some(u) ==> forall|k: int|
                0 <= k < 32 ==> Some(nibble(u.bits, k)) == hex_value(
                    #[trigger] (digit_places(s@)->0)[k],
                ),
    {
        match parse_str(s) {
            Some(bits) => Some(Uuid { bits }),
            None => None,
        }
    }

    /// The text of a UUID: lower case, hyphenated.
    pub fn to_string(&self) -> (r: String)
        ensures
            r@ == uuid_text(self.bits),
    {
        let mut s = String::new();
        proof {
            reveal_strlit("-");
        }
        let mut i: u32 = 0;
        let mut k: u32 = 0;
        while i < 36
            invariant
                i <= 36,
                k == i - hyphens_before(i as int),
                "-"@ == seq!['-'],
                s@ == uuid_text(self.bits).take(i as int),
            decreases 36 - i,
        {
            if i == 8 || i == 13 || i == 18 || i == 23 {
                s.append("-");
            } else {
                let shift: u128 = 124 - 4 * k as u128;
                let bits: u128 = self.bits;
                let d: u128 = (bits >> shift) & 0xf;
                assert((bits >> shift) & 0xf < 16) by (bit_vector);
                s.append(hex_text(d));
                k += 1;
            }
            assert(s@ =~= uuid_text(self.bits).take(i + 1));
            i += 1;
        }
        assert(uuid_text(self.bits).take(36) =~= uuid_text(self.bits));
        s
    }
}

} // verus!
