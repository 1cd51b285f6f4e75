//! Declarations and wrappers for the items of std and of outside crates that
//! the library calls or carries, with the contracts that the rest of the
//! library relies on.

use vstd::prelude::*;

verus! {

/// `std::io::Error`, carried unchanged by `ConfigError::Io`.
#[verifier::external_type_specification]
#[verifier::external_body]
pub struct ExIoError(std::io::Error);

} // verus!

verus! {

/// Whether `c` is a digit or a lower-case letter `a`..`f`.
pub open spec fn is_lower_hex_digit(c: char) -> bool {
    ('0' <= c && c <= '9') || ('a' <= c && c <= 'f')
}

/// The shape of the text of a random (version 4) UUID in hyphenated
/// lower-case form, such as `67e55044-10b1-426f-9247-bb680e5fe0c8`: 36
/// characters, `-` at 8, 13, 18 and 23, hexadecimal digits elsewhere, the
/// version digit `4` at 14 and one of `8`, `9`, `a`, `b` at 19.
pub open spec fn is_uuid_v4_text(s: Seq<char>) -> bool {
    &&& s.len() == 36
    &&& forall|i: int|
        0 <= i < 36 ==> (if i == 8 || i == 13 || i == 18 || i == 23 {
            s[i] == '-'
        } else {
            is_lower_hex_digit(#[trigger] s[i])
        })
    &&& s[14] == '4'
    &&& (s[19] == '8' || s[19] == '9' || s[19] == 'a' || s[19] == 'b')
}

/// Calls `uuid::Uuid::new_v4` and renders the result with `to_string`.
/// The value is random; the contract states only its shape, which the
/// crate's source gives: `new_v4` masks a random `u128` so that the version
/// nibble is 4 and the variant bits are `10`, and `Display` writes the
/// hyphenated lower-case form. The call panics only when the operating
/// system's random source fails, which no argument can rule out.
#[verifier::external_body]
pub(crate) fn new_uuid_v4_text() -> (r: String)
    ensures
        is_uuid_v4_text(r@),
{
    uuid::Uuid::new_v4().to_string()
}

/// Calls `chrono::Local::now()` and `timestamp()` on it: the current time
/// as whole seconds since the Unix epoch. The value depends on the clock;
/// the crate's source shows only that it is not negative (`Utc::now`, which
/// `Local::now` starts from, panics on a clock set before the epoch, and
/// `timestamp` gives back those seconds). That panic depends on the clock,
/// not on an argument, so no `requires` can leave it out.
#[verifier::external_body]
pub(crate) fn local_now_timestamp() -> (r: i64)
    ensures
        r >= 0,
{
    chrono::Local::now().timestamp()
}

} // verus!

verus! {

/// `tokio::task::JoinHandle`, kept by a running server for its task.
#[verifier::external_type_specification]
#[verifier::external_body]
#[verifier::reject_recursive_types(T)]
pub struct ExJoinHandle<T>(tokio::task::JoinHandle<T>);

/// `tokio::task::JoinError`, what awaiting a `JoinHandle` can give back.
/// Nothing here names it, but `JoinHandle`'s `Future` impl has it in its
/// output type, so the declaration of `JoinHandle` needs it declared too.
#[verifier::external_type_specification]
#[verifier::external_body]
pub struct ExJoinError(tokio::task::JoinError);

/// `tokio::sync::oneshot::Sender`, kept by a running server to ask its task
/// to shut down.
#[verifier::external_type_specification]
#[verifier::external_body]
#[verifier::reject_recursive_types(T)]
pub struct ExOneshotSender<T>(tokio::sync::oneshot::Sender<T>);

} // verus!

verus! {

/// Whether `t` is a value that `local_now_timestamp` gives back: a reading
/// of the clock in whole seconds since the Unix epoch.
pub closed spec fn is_clock_reading(t: i64) -> bool {
    call_ensures(local_now_timestamp, (), t)
}

/// Whether `id` is a text that `new_uuid_v4_text` gives back: a fresh
/// random identifier.
pub closed spec fn is_generated_uuid(id: String) -> bool {
    call_ensures(new_uuid_v4_text, (), id)
}

/// What `local_now_timestamp` gave back is a clock reading.
pub(crate) proof fn lemma_clock_reading(t: i64)
    requires
        call_ensures(local_now_timestamp, (), t),
    ensures
        is_clock_reading(t),
{
}

/// What `new_uuid_v4_text` gave back is a generated identifier.
pub(crate) proof fn lemma_generated_uuid(id: String)
    requires
        call_ensures(new_uuid_v4_text, (), id),
    ensures
        is_generated_uuid(id),
{
}

/// Clock readings are not negative, and generated identifiers have the
/// shape of a random UUID.
pub(crate) proof fn lemma_readings_shape(t: i64, id: String)
    ensures
        is_clock_reading(t) ==> t >= 0,
        is_generated_uuid(id) ==> is_uuid_v4_text(id@),
{
}

} // verus!
