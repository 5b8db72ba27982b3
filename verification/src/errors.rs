//! Errors that halt a run, or one archive within a run.

use vstd::prelude::*;

verus! {

/// The failures a run can meet. `PathInvalid` names an input path that is
/// neither a directory nor a regular file; `ArchiveFailed` an archive that
/// could not be opened, or an entry of it that could not be read.
#[derive(Debug)]
pub enum ExtractError {
    PathInvalid,
    ArchiveFailed(String),
}

} // verus!
