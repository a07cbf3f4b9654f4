use vstd::prelude::*;

verus! {

/// Relies on chrono: `Utc::now().timestamp_millis()`, the number of
/// milliseconds since the Unix epoch at the moment of the call. The value
/// depends on the clock, so nothing is promised of it.
#[verifier::external_body]
pub(crate) fn now_timestamp_millis() -> i64 {
    chrono::Utc::now().timestamp_millis()
}

/// Relies on chrono: `Utc::now().to_rfc3339()`, the current instant written
/// in RFC 3339 form. The value depends on the clock, so nothing is promised
/// of it.
#[verifier::external_body]
pub(crate) fn now_rfc3339() -> String {
    chrono::Utc::now().to_rfc3339()
}

/// Relies on rand: a value drawn from the thread-local generator. Nothing
/// can be promised of a random value.
pub assume_specification<T>[ rand::random::<T> ]() -> (r: T)
    where
        rand::distributions::Standard: rand::distributions::Distribution<T>,
;

/// Relies on std's `String::push`: appends exactly the one character.
#[verifier::external_body]
pub(crate) fn push_char(s: &mut String, c: char)
    ensures
        final(s)@ == old(s)@.push(c),
{
    s.push(c)
}

/// Relies on std's `String::from_utf8`: succeeds exactly on valid UTF-8
/// input and decodes those bytes, so that re-encoding the result gives the
/// input back.
#[verifier::external_body]
pub(crate) fn string_from_utf8(bytes: Vec<u8>) -> (r: Option<String>)
    ensures
        r is Some <==> vstd::utf8::valid_utf8(bytes@),
        r is Some ==> vstd::utf8::encode_utf8(r->0@) == bytes@,
{
    match String::from_utf8(bytes) {
        Ok(s) => Some(s),
        Err(_) => None,
    }
}

} // verus!
