//! Note identities: 128-bit UUIDs, written and read in their hyphenated form.
use vstd::prelude::*;

verus! {

/// The lower-case hexadecimal digit of `d` (`d < 16`).
pub open spec fn hex_digit(d: nat) -> char {
    seq!['0', '1', '2', '3', '4', '5', '6', '7', '8', '9', 'a', 'b', 'c', 'd', 'e', 'f'][d as int]
}

/// The `n` lowest hexadecimal digits of `v`, most significant first.
pub open spec fn hex_text(v: nat, n: nat) -> Seq<char>
    decreases n,
{
    if n == 0 {
        Seq::<char>::empty()
    } else {
        hex_text(v / 16, (n - 1) as nat).push(hex_digit(v % 16))
    }
}

/// The hyphenated form of a UUID: 32 lower-case hexadecimal digits, most
/// significant first, grouped 8-4-4-4-12.
pub open spec fn uuid_text(v: u128) -> Seq<char> {
    let h = hex_text(v as nat, 32);
    h.subrange(0, 8) + seq!['-'] + h.subrange(8, 12) + seq!['-'] + h.subrange(12, 16) + seq!['-']
        + h.subrange(16, 20) + seq!['-'] + h.subrange(20, 32)
}

/// A character of the hyphenated UUID alphabet.
pub open spec fn is_uuid_char(c: char) -> bool {
    ('0' <= c && c <= '9') || ('a' <= c && c <= 'f') || c == '-'
}

/// What `uuid::Uuid::parse_str` returns for a text, as the 128-bit value.
pub uninterp spec fn uuid_parse(text: Seq<char>) -> Option<u128>;

/// Hexadecimal digits are drawn from `0-9a-f`.
pub proof fn lemma_hex_text_chars(v: nat, n: nat)
    ensures
        hex_text(v, n).len() == n,
        forall|i: int| 0 <= i < n ==> is_uuid_char(#[trigger] hex_text(v, n)[i]),
    decreases n,
{
    if n > 0 {
        lemma_hex_text_chars(v / 16, (n - 1) as nat);
        let d = v % 16;
        assert(is_uuid_char(hex_digit(d)));
    }
}

/// The hyphenated form has 36 characters of the UUID alphabet.
pub proof fn lemma_uuid_text_chars(v: u128)
    ensures
        uuid_text(v).len() == 36,
        forall|i: int| 0 <= i < 36 ==> is_uuid_char(#[trigger] uuid_text(v)[i]),
{
    lemma_hex_text_chars(v as nat, 32);
    let h = hex_text(v as nat, 32);
    assert forall|i: int| 0 <= i < 36 implies is_uuid_char(#[trigger] uuid_text(v)[i]) by {
        if i < 8 {
            assert(uuid_text(v)[i] == h[i]);
        } else if i == 8 {
        } else if i < 13 {
            assert(uuid_text(v)[i] == h[i - 1]);
        } else if i == 13 {
        } else if i < 18 {
            assert(uuid_text(v)[i] == h[i - 2]);
        } else if i == 18 {
        } else if i < 23 {
            assert(uuid_text(v)[i] == h[i - 3]);
        } else if i == 23 {
        } else {
            assert(uuid_text(v)[i] == h[i - 4]);
        }
    }
}

/// `uuid::Uuid::from_u128(id).to_string()`: the documented hyphenated,
/// lower-case form, most significant byte first, which `Uuid::parse_str`
/// reads back as the same value.
#[verifier::external_body]
pub(crate) fn uuid_to_string(id: u128) -> (s: String)
    ensures
        s@ == uuid_text(id),
        uuid_parse(s@) == Some(id),
{
    uuid::Uuid::from_u128(id).to_string()
}

/// `uuid::Uuid::parse_str`, as the 128-bit value: named by `uuid_parse`.
/// Which spellings it accepts (hyphenated, simple, braced, URN, either case)
/// is left to the name.
#[verifier::external_body]
pub(crate) fn uuid_parse_str(s: &str) -> (r: Option<u128>)
    ensures
        r == uuid_parse(s@),
{
    match uuid::Uuid::parse_str(s) {
        Ok(u) => Some(u.as_u128()),
        Err(_) => None,
    }
}

/// A version 4 (random) UUID: its version field is 4 and its variant is the
/// RFC 4122 one (binary `10`).
pub open spec fn is_v4_uuid(v: u128) -> bool {
    &&& (v >> 76u128) & 0xfu128 == 4u128
    &&& (v >> 62u128) & 3u128 == 2u128
}

/// `uuid::Uuid::new_v4()`, as the 128-bit value: random bits, masked and set
/// so that the version is 4 and the variant RFC 4122 (`uuid/src/v4.rs`).
/// It panics only if the system's random source fails.
#[verifier::external_body]
pub(crate) fn new_random_id() -> (id: u128)
    ensures
        is_v4_uuid(id),
{
    uuid::Uuid::new_v4().as_u128()
}

} // verus!
