//! Identifiers of worlds and automation items: random 128-bit UUIDs, their
//! text form, and reading them back from text.
use vstd::prelude::*;

verus! {

/// `Uuid::new_v4`, as its 128-bit value. The value is random: nothing is
/// promised of it.
#[verifier::external_body]
pub(crate) fn new_id() -> u128 {
    uuid::Uuid::new_v4().as_u128()
}

/// The lowercase hex digit of a value below sixteen.
pub open spec fn hex_lower(d: u128) -> char {
    if d < 10 {
        (('0' as u32) + (d as u32)) as char
    } else {
        (('a' as u32) + (d as u32) - 10) as char
    }
}

/// The 32 hex digits of `id`, most significant first.
pub open spec fn uuid_hex(id: u128) -> Seq<char> {
    Seq::new(32, |i: int| hex_lower((id >> ((124 - 4 * i) as u128)) & 15))
}

/// The text form of a UUID, as `Uuid`'s `Display` writes it: lowercase hex
/// digits in groups of 8, 4, 4, 4 and 12, joined by hyphens.
pub open spec fn uuid_text(id: u128) -> Seq<char> {
    let h = uuid_hex(id);
    h.subrange(0, 8) + "-"@ + h.subrange(8, 12) + "-"@ + h.subrange(12, 16) + "-"@ + h.subrange(16, 20) + "-"@
        + h.subrange(20, 32)
}

/// What `Uuid::parse_str` gives for a text: the identifier as a number, or
/// the parser's message.
pub uninterp spec fn uuid_parsed(text: Seq<char>) -> Result<u128, Seq<char>>;

/// `Uuid::from_u128` followed by `to_string`: the hyphenated lowercase form
/// (the value's bytes in big-endian order).
#[verifier::external_body]
pub(crate) fn uuid_string(id: u128) -> (s: String)
    ensures
        s@ == uuid_text(id),
{
    uuid::Uuid::from_u128(id).to_string()
}

/// `Uuid::parse_str`: the identifier that `text` writes (simple,
/// hyphenated, braced or URN form), as its 128-bit value, or the parser's
/// message. The hyphenated lowercase form that `uuid_string` writes reads
/// back as the same identifier.
#[verifier::external_body]
pub(crate) fn parse_uuid(text: &str) -> (r: Result<u128, String>)
    ensures
        match r {
            Ok(v) => uuid_parsed(text@) == Ok::<u128, Seq<char>>(v) && forall|id: u128|
                #[trigger] uuid_text(id) == text@ ==> v == id,
            Err(m) => uuid_parsed(text@) == Err::<u128, Seq<char>>(m@) && forall|id: u128|
                #[trigger] uuid_text(id) != text@,
        },
{
    match uuid::Uuid::parse_str(text) {
        Ok(u) => Ok(u.as_u128()),
        Err(e) => Err(e.to_string()),
    }
}

} // verus!
