use vstd::prelude::*;
use std::io::Error;

verus! {

#[verifier::external_type_specification]
#[verifier::external_body]
pub struct ExIoError(Error);

/// Whether an I/O error is of kind `WouldBlock`.
pub uninterp spec fn is_would_block(e: Error) -> bool;

/// Whether an I/O error is of kind `Other`.
pub uninterp spec fn is_other(e: Error) -> bool;

/// Builds an error of kind `WouldBlock` through `From<ErrorKind> for
/// io::Error`, whose `kind()` the standard library documents as that kind.
#[verifier::external_body]
fn io_error_from_would_block() -> (e: Error)
    ensures
        is_would_block(e),
        !is_other(e),
{
    std::io::ErrorKind::WouldBlock.into()
}

/// Calls `io::Error::kind` and compares it with `WouldBlock`.
#[verifier::external_body]
pub(crate) fn io_error_is_would_block(e: &Error) -> (r: bool)
    ensures
        r == is_would_block(*e),
{
    e.kind() == std::io::ErrorKind::WouldBlock
}

/// Calls `io::Error::new` with kind `Other` and the message `msg`; the
/// standard library documents that `kind()` then gives `Other`. The message
/// it carries is not stated.
#[verifier::external_body]
pub(crate) fn io_error_other(msg: &str) -> (e: Error)
    ensures
        is_other(e),
        !is_would_block(e),
{
    Error::new(std::io::ErrorKind::Other, msg)
}

/// Formats the error through its `Display`; the text is not stated.
#[verifier::external_body]
pub(crate) fn io_error_to_string(e: &Error) -> String {
    e.to_string()
}

/// Calls the deprecated `Error::description`; the text is not stated.
#[verifier::external_body]
#[allow(deprecated)]
pub(crate) fn io_error_description(e: &Error) -> &str {
    std::error::Error::description(e)
}

/// Turns a would-block error into "no value yet".
pub trait MapNonBlock<T>: Sized {
    fn map_non_block(self) -> Result<Option<T>, Error>;
}

impl<T> MapNonBlock<T> for Result<T, Error> {
    fn map_non_block(self) -> (r: Result<Option<T>, Error>)
        ensures
            match self {
                Ok(value) => r == Ok::<Option<T>, Error>(Some(value)),
                Err(err) => if is_would_block(err) {
                    r == Ok::<Option<T>, Error>(None)
                } else {
                    r == Err::<Option<T>, Error>(err)
                },
            },
    {
        match self {
            Ok(value) => Ok(Some(value)),
            Err(err) => {
                if io_error_is_would_block(&err) {
                    Ok(None)
                } else {
                    Err(err)
                }
            },
        }
    }
}

/// An error of kind `WouldBlock`.
pub fn would_block() -> (e: Error)
    ensures
        is_would_block(e),
        !is_other(e),
{
    io_error_from_would_block()
}

} // verus!
