//! The decision at the file boundary: whether a card file may be read.
//! The caller performs the actual filesystem probe and hands in the
//! result; the rule that a missing file is a reported user error, never a
//! crash, lives here.

use vstd::prelude::*;

use crate::err::Error;

verus! {

/// Accept the card file exactly when the probe found it: a missing file
/// is `FileDoesNotExist`.
pub fn validate_file_exists(file_exists: bool) -> (r: Result<(), Error>)
    ensures
        r == if file_exists {
            Ok::<(), Error>(())
        } else {
            Err::<(), Error>(Error::FileDoesNotExist)
        },
{
    if file_exists {
        Ok(())
    } else {
        Err(Error::FileDoesNotExist)
    }
}

} // verus!
