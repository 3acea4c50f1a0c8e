//! Calls into std and outside crates whose behaviour Verus takes on trust.
use vstd::prelude::*;

verus! {

/// Relies on `std::time::SystemTime::now`: the current wall-clock time, in
/// whole seconds since the UNIX epoch (zero if the clock reads before it).
/// Nothing is promised of the value.
#[verifier::external_body]
pub fn unix_now() -> (r: u64) {
    std::time::SystemTime::now().duration_since(std::time::UNIX_EPOCH).unwrap_or_default().as_secs()
}

/// Relies on `nanoid::format` with nanoid's URL-safe alphabet, whose 64
/// symbols are all ASCII: the id has exactly `size` characters. With a size
/// of zero it never returns.
#[verifier::external_body]
pub fn random_id(size: usize) -> (r: String)
    requires
        size > 0,
    ensures
        r@.len() == size,
{
    nanoid::format(nanoid::rngs::default, &nanoid::alphabet::SAFE, size)
}

/// Relies on `std::time::Duration::from_secs`.
#[verifier::external_body]
pub fn duration_from_secs(secs: u64) -> (r: std::time::Duration) {
    std::time::Duration::from_secs(secs)
}

/// Relies on `String::push`: appends one character.
#[verifier::external_body]
pub fn push_char(s: &mut String, c: char)
    ensures
        final(s)@ == old(s)@.push(c),
{
    s.push(c)
}

/// Relies on `String::pop`: removes and returns the last character, if any.
#[verifier::external_body]
pub fn pop_char(s: &mut String) -> (r: Option<char>)
    ensures
        old(s)@.len() == 0 ==> r is None && final(s)@ == old(s)@,
        old(s)@.len() > 0 ==> r == Some(old(s)@.last()) && final(s)@ == old(s)@.drop_last(),
{
    s.pop()
}

} // verus!

verus! {

/// What `humantime::format_duration` prints for a span of `secs` seconds
/// (for example "1day 2h 3m"); it depends on the number alone.
pub uninterp spec fn humanized(secs: u64) -> Seq<char>;

/// Relies on `humantime::format_duration` and its `Display`: the text of a
/// span of `secs` seconds.
#[verifier::external_body]
pub fn human_duration(secs: u64) -> (r: String)
    ensures
        r@ == humanized(secs),
{
    humantime::format_duration(std::time::Duration::from_secs(secs)).to_string()
}

} // verus!
