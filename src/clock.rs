use vstd::prelude::*;

verus! {

/// The RFC 3339 text of an instant given in microseconds since the Unix
/// epoch, or `None` where chrono cannot represent the instant.
pub uninterp spec fn rfc3339_of(micros: i64) -> Option<Seq<char>>;

/// Relies on `chrono::Utc::now` and `DateTime::timestamp_micros`: the current
/// time in microseconds since the Unix epoch, an instant that chrono can turn
/// back into a date.
#[verifier::external_body]
pub(crate) fn now_micros() -> (r: i64)
    ensures
        rfc3339_of(r) is Some,
{
    chrono::Utc::now().timestamp_micros()
}

/// Relies on `chrono::DateTime::from_timestamp_micros` and
/// `DateTime::to_rfc3339_opts` (whole seconds or fractions as needed, `Z`
/// for UTC): the text depends on the instant alone.
#[verifier::external_body]
pub(crate) fn rfc3339_text(micros: i64) -> (r: Option<String>)
    ensures
        r matches Some(t) ==> rfc3339_of(micros) == Some(t@),
        r is None ==> rfc3339_of(micros) is None,
{
    match chrono::DateTime::<chrono::Utc>::from_timestamp_micros(micros) {
        Some(d) => Some(d.to_rfc3339_opts(chrono::SecondsFormat::AutoSi, true)),
        None => None,
    }
}

} // verus!
