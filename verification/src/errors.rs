//! Error kinds reported for individual files during batch operations.

use vstd::prelude::*;

verus! {

/// What went wrong while processing one file. Batch operations collect one
/// of these per failing file instead of aborting the whole run.
#[derive(Clone, Copy, Debug, PartialEq, Eq, Structural)]
pub enum FileError {
    /// Opening, reading, renaming or moving the file failed.
    IoError,
    /// The content was not valid text where text was required.
    DecodeError,
    /// The PNG signature or the IHDR chunk is missing or malformed.
    FormatError,
    /// The file's name cannot be represented as text.
    InvalidPath,
}

impl FileError {
    /// A short human-readable description of the error kind.
    pub fn describe(&self) -> (r: &'static str)
        ensures
            r@ == self.describe_spec(),
    {
        proof {
            reveal_strlit("read or rename failed");
            reveal_strlit("content is not valid text");
            reveal_strlit("not a valid PNG header");
            reveal_strlit("file name is not representable");
        }
        match self {
            FileError::IoError => "read or rename failed",
            FileError::DecodeError => "content is not valid text",
            FileError::FormatError => "not a valid PNG header",
            FileError::InvalidPath => "file name is not representable",
        }
    }

    /// The description each error kind carries.
    pub open spec fn describe_spec(&self) -> Seq<char> {
        match self {
            FileError::IoError => "read or rename failed"@,
            FileError::DecodeError => "content is not valid text"@,
            FileError::FormatError => "not a valid PNG header"@,
            FileError::InvalidPath => "file name is not representable"@,
        }
    }
}

} // verus!
