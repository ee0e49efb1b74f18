use vstd::prelude::*;

verus! {

/// The lower-case hexadecimal digit for a value below sixteen.
pub open spec fn hex_char(d: nat) -> char {
    if d == 0 { '0' } else if d == 1 { '1' } else if d == 2 { '2' } else if d == 3 { '3' }
    else if d == 4 { '4' } else if d == 5 { '5' } else if d == 6 { '6' } else if d == 7 { '7' }
    else if d == 8 { '8' } else if d == 9 { '9' } else if d == 10 { 'a' } else if d == 11 { 'b' }
    else if d == 12 { 'c' } else if d == 13 { 'd' } else if d == 14 { 'e' } else { 'f' }
}

/// The last `count` hexadecimal digits of `k`, most significant first.
pub open spec fn hex_digits(k: nat, count: nat) -> Seq<char>
    decreases count,
{
    if count == 0 {
        Seq::empty()
    } else {
        hex_digits(k / 16, (count - 1) as nat).push(hex_char(k % 16))
    }
}

/// The canonical hyphenated text of the UUID whose 128-bit value is `u`:
/// 32 lower-case hexadecimal digits, most significant first, in groups of
/// 8, 4, 4, 4 and 12 joined by hyphens.
pub open spec fn uuid_text_of(u: u128) -> Seq<char> {
    let h = hex_digits(u as nat, 32);
    h.subrange(0, 8) + "-"@ + h.subrange(8, 12) + "-"@ + h.subrange(12, 16) + "-"@
        + h.subrange(16, 20) + "-"@ + h.subrange(20, 32)
}

/// The bits that mark a version 4, RFC 4122 variant UUID.
pub open spec fn v4_marks() -> u128 {
    0x40008000000000000000u128
}

/// The 128-bit value that `uuid::Uuid::parse_str` reads from a text, if any.
pub uninterp spec fn uuid_value_of(s: Seq<char>) -> Option<u128>;

/// Relies on `uuid::Uuid::new_v4`: a random 128-bit token whose version and
/// variant bits are set (`| 0x40008000000000000000` in its source).
#[verifier::external_body]
pub(crate) fn random_uuid() -> (r: u128)
    ensures
        r & v4_marks() == v4_marks(),
{
    uuid::Uuid::new_v4().as_u128()
}

/// Relies on `uuid::Uuid::from_u128` (big-endian bytes) and its hyphenated
/// lower-case `Display`, and on `parse_str` reading the value back.
#[verifier::external_body]
pub(crate) fn uuid_text(u: u128) -> (r: String)
    ensures
        r@ == uuid_text_of(u),
        uuid_value_of(r@) == Some(u),
{
    uuid::Uuid::from_u128(u).hyphenated().to_string()
}

/// Relies on `uuid::Uuid::parse_str`: the value read from a text, or `None`
/// where the text is no UUID.
#[verifier::external_body]
pub(crate) fn parse_uuid(s: &str) -> (r: Option<u128>)
    ensures
        r == uuid_value_of(s@),
{
    match uuid::Uuid::parse_str(s) {
        Ok(v) => Some(v.as_u128()),
        Err(_) => None,
    }
}

} // verus!
