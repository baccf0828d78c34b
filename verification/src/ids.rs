//! Item identifiers: UUIDs held as their 128-bit value, parsed and printed by
//! the `uuid` crate.
use uuid::Uuid;
use vstd::prelude::*;

verus! {

/// The value `Uuid::parse_str` gives for a text, when it accepts it.
pub uninterp spec fn parse_uuid(text: Seq<char>) -> Option<u128>;

/// The lower-case hexadecimal digit for `d` (below 16).
pub open spec fn hex_char(d: u128) -> char {
    if d < 10 {
        (48 + d) as char
    } else {
        (87 + d) as char
    }
}

/// The 32 hexadecimal digits of a value, most significant first.
pub open spec fn hex_digits(id: u128) -> Seq<char> {
    Seq::new(32, |k: int| hex_char((id >> ((124 - 4 * k) as u128)) & 15))
}

/// The hyphenated form of an identifier: its hexadecimal digits in groups of
/// 8, 4, 4, 4 and 12, joined by `-`.
pub open spec fn uuid_text(id: u128) -> Seq<char> {
    let h = hex_digits(id);
    h.subrange(0, 8) + seq!['-'] + h.subrange(8, 12) + seq!['-'] + h.subrange(12, 16) + seq!['-']
        + h.subrange(16, 20) + seq!['-'] + h.subrange(20, 32)
}

/// Calls `Uuid::parse_str`. Claimed: the result depends on the text alone
/// (named by `parse_uuid`), an error becoming `None`; and the hyphenated
/// form of a value, one of the forms the crate documents as accepted, reads
/// back as that value. The other accepted forms are left unstated.
#[verifier::external_body]
pub fn parse_id(s: &str) -> (r: Option<u128>)
    ensures
        r == parse_uuid(s@),
        forall|x: u128| #[trigger] uuid_text(x) == s@ ==> r == Some(x),
{
    match Uuid::parse_str(s) {
        Ok(u) => Some(u.as_u128()),
        Err(_) => None,
    }
}

/// Calls `Uuid::from_u128` and `to_string`. Claimed: the text is the
/// hyphenated lower-case form, which `Display` for `Uuid` writes (through
/// `as_hyphenated`), the bytes of the value taken most significant first.
#[verifier::external_body]
pub fn id_text(id: u128) -> (r: String)
    ensures
        r@ == uuid_text(id),
{
    Uuid::from_u128(id).to_string()
}

/// Calls `Uuid::new_v4`: a random identifier. Claimed: only the version
/// (4) and variant (RFC 4122) bits that `new_v4` sets; the rest is random.
#[verifier::external_body]
pub fn new_id() -> (r: u128)
    ensures
        (r >> 76u128) & 15 == 4,
        (r >> 62u128) & 3 == 2,
{
    Uuid::new_v4().as_u128()
}

} // verus!
