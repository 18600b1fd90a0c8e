//! Blocking bridge for generated `_blocking` methods.
use vstd::prelude::*;
use crate::error::Error;

verus! {

/// Whether synchronous code may wait for the SDK here: not inside an async
/// runtime, which it would starve.
pub fn may_block(inside_runtime: bool) -> (r: Result<(), Error>)
    ensures
        if inside_runtime {
            r matches Err(e) && e.is_configuration(
                "blocking SDK methods cannot run inside an async Tokio runtime"@,
            )
        } else {
            r is Ok
        },
{
    if inside_runtime {
        Err(
            Error::Configuration(
                "blocking SDK methods cannot run inside an async Tokio runtime".to_owned(),
            ),
        )
    } else {
        Ok(())
    }
}

/// The outcome of setting up a runtime to wait in.
pub fn runtime_ready<R>(runtime: Result<R, String>) -> (r: Result<R, Error>)
    ensures
        match runtime {
            Ok(v) => r == Ok::<R, Error>(v),
            Err(text) => r matches Err(e) && e.is_configuration(text@),
        },
{
    match runtime {
        Ok(v) => Ok(v),
        Err(text) => Err(Error::Configuration(text)),
    }
}

} // verus!
