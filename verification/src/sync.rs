//! The sync command's decision core. The two outside steps — fetching the
//! dataset and writing it to the cache — are performed by the caller; this
//! module decides how their outcomes compose into the command's outcome.

use vstd::prelude::*;

use crate::errors::Error;

verus! {

/// The sync command: fetch the dataset, then write what was fetched.
/// `fetched` is the fetch step's outcome; `written` is the write step's,
/// present exactly when a successful fetch allowed one. A fetch failure is
/// final and skips the write; after a successful fetch the command's
/// outcome is the write's.
pub fn sync(fetched: Result<(), Error>, written: Option<Result<(), Error>>) -> (r: Result<
    (),
    Error,
>)
    requires
        fetched is Ok <==> written is Some,
    ensures
        fetched matches Err(e) ==> r == Err::<(), Error>(e),
        fetched is Ok ==> (written matches Some(w) && r == w),
{
    match fetched {
        Err(e) => Err(e),
        Ok(()) => match written {
            Some(w) => w,
            None => Err(Error::WriteError),
        },
    }
}

} // verus!
