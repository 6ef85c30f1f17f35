//! Identifiers: UUIDs held as `u128`, and the calls into the `uuid` crate.
use vstd::prelude::*;

verus! {

/// The character of the hexadecimal digit `n` (0 to 15), in lower case.
pub open spec fn hex_char(n: int) -> char {
    if n < 10 {
        ((48 + n) as u32) as char
    } else {
        ((87 + n) as u32) as char
    }
}

/// The `k`-th hexadecimal digit of `id`, counted from the most significant one.
pub open spec fn hex_nibble(id: u128, k: int) -> int {
    (id as int / vstd::arithmetic::power::pow(16, (31 - k) as nat)) % 16
}

/// Which of the 32 digits stands at position `i` of the 36-character hyphenated form.
pub open spec fn digit_position(i: int) -> int {
    if i < 8 {
        i
    } else if i < 13 {
        i - 1
    } else if i < 18 {
        i - 2
    } else if i < 23 {
        i - 3
    } else {
        i - 4
    }
}

/// The hyphenated lower-case form of a UUID, `xxxxxxxx-xxxx-xxxx-xxxx-xxxxxxxxxxxx`,
/// its 32 digits most significant first.
pub open spec fn uuid_text(id: u128) -> Seq<char> {
    Seq::new(
        36,
        |i: int|
            if i == 8 || i == 13 || i == 18 || i == 23 {
                '-'
            } else {
                hex_char(hex_nibble(id, digit_position(i)))
            },
    )
}

/// What `uuid::Uuid::parse_str` accepts and gives for `s`, as a `u128`.
pub uninterp spec fn uuid_parsed(s: Seq<char>) -> Option<u128>;

/// `id` has the version and variant bits of a random UUID: version 4 in bits 76..80,
/// and the RFC 4122 variant `10` in bits 62..64.
pub open spec fn is_random_uuid(id: u128) -> bool {
    (id >> 76u128) & 0xfu128 == 4u128 && (id >> 62u128) & 0x3u128 == 2u128
}

/// A fresh random (version 4) UUID (`uuid::Uuid::new_v4`). Its value comes from a
/// random source; `new_v4` masks in the version and variant bits, which is all that is
/// stated of it.
#[verifier::external_body]
pub fn new_id() -> (id: u128)
    ensures
        is_random_uuid(id),
{
    uuid::Uuid::new_v4().as_u128()
}

/// The hyphenated lower-case text of a UUID (`Display` of `uuid::Uuid`).
#[verifier::external_body]
pub fn id_text(id: u128) -> (s: String)
    ensures
        s@ == uuid_text(id),
{
    uuid::Uuid::from_u128(id).to_string()
}

/// Parses a UUID (`uuid::Uuid::parse_str`), which accepts the hyphenated, simple,
/// braced and URN forms. The result is named by `uuid_parsed`; the one fact stated
/// is that the hyphenated lower-case text of a UUID parses back to it.
#[verifier::external_body]
pub fn parse_id(s: &str) -> (r: Option<u128>)
    ensures
        r == uuid_parsed(s@),
        forall|id: u128| s@ == #[trigger] uuid_text(id) ==> r == Some(id),
{
    match uuid::Uuid::parse_str(s) {
        Ok(u) => Some(u.as_u128()),
        Err(_) => None,
    }
}

} // verus!
