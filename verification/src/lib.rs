//! Extraction of files with a chosen extension from ZIP archives.
//!
//! The library decides, for every entry of an archive, whether it is
//! extracted, and under which output name; it plans the writes of a whole
//! run over one archive or a directory of archives. Reading archive bytes
//! from disk and writing the planned files back is left to the caller.

pub mod archive;
pub mod casefold;
pub mod entry;
pub mod errors;
pub mod output;
pub mod resolve;
pub mod run;
pub mod text;
pub mod zipbridge;

use vstd::prelude::*;

verus! {

/// A single planned output: the file written under `name` holds `data`.
pub struct ExtractedFile {
    pub name: String,
    pub data: Vec<u8>,
}

impl View for ExtractedFile {
    type V = (Seq<char>, Seq<u8>);

    open spec fn view(&self) -> (Seq<char>, Seq<u8>) {
        (self.name@, self.data@)
    }
}

} // verus!
