//! One error type for the codec, local I/O and the key-value backend.

use vstd::prelude::*;

verus! {

#[verifier::external_type_specification]
#[verifier::external_body]
pub struct ExJsonError(serde_json::Error);

#[verifier::external_type_specification]
#[verifier::external_body]
pub struct ExRedisError(redis::RedisError);

#[verifier::external_type_specification]
#[verifier::external_body]
pub struct ExIoError(std::io::Error);

/// Whether serde_json classifies `e` as a failure of an underlying read or
/// write, rather than of the text itself.
pub uninterp spec fn json_error_is_io(e: serde_json::Error) -> bool;

/// Relies on `serde_json::Error::is_io`: a test of the error's own category,
/// which depends on the error alone.
pub assume_specification[ serde_json::Error::is_io ](e: &serde_json::Error) -> (r: bool)
    ensures
        r == json_error_is_io(*e),
;

/// Relies on `From<serde_json::Error> for std::io::Error`, which keeps the
/// underlying I/O error.
#[verifier::external_body]
fn json_error_to_io(err: serde_json::Error) -> std::io::Error {
    err.into()
}

/// A failure of a session operation.
#[derive(Debug)]
pub enum MyError {
    /// A local or stream-level I/O failure.
    Io(std::io::Error),
    /// Text that is not a well-formed session record (bad syntax, wrong
    /// shape, or input that ends too early); the codec error keeps which.
    Json(serde_json::Error),
    /// A failure reported by the key-value backend, including a malformed
    /// connection descriptor.
    Redis(redis::RedisError),
}

impl From<serde_json::Error> for MyError {
    /// A codec error that stems from I/O becomes `Io`; any other (syntax,
    /// data, end of input) stays a codec error, unchanged.
    fn from(err: serde_json::Error) -> (r: MyError)
        ensures
            r is Io <==> json_error_is_io(err),
            !(r is Io) ==> r == MyError::Json(err),
    {
        if err.is_io() {
            MyError::Io(json_error_to_io(err))
        } else {
            MyError::Json(err)
        }
    }
}

impl vstd::std_specs::convert::FromSpecImpl<serde_json::Error> for MyError {
    open spec fn obeys_from_spec() -> bool {
        false
    }

    open spec fn from_spec(v: serde_json::Error) -> MyError {
        MyError::Json(v)
    }
}

impl From<redis::RedisError> for MyError {
    fn from(err: redis::RedisError) -> (r: MyError)
        ensures
            r == MyError::Redis(err),
    {
        MyError::Redis(err)
    }
}

impl vstd::std_specs::convert::FromSpecImpl<redis::RedisError> for MyError {
    open spec fn obeys_from_spec() -> bool {
        true
    }

    open spec fn from_spec(v: redis::RedisError) -> MyError {
        MyError::Redis(v)
    }
}

} // verus!
