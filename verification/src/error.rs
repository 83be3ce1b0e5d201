//! Error kinds reported by the filesystem.

use vstd::prelude::*;

use crate::disk::DiskError;

verus! {

/// Every way a filesystem operation can fail.
#[derive(Debug, PartialEq, Eq)]
pub enum TfsError {
    /// A directory, a block list or a device holds `size` entries, more than
    /// its record has room for.
    SizeError { size: usize },
    /// The block device refused a request.
    DiskError(DiskError),
    /// The bytes offered for decoding do not form a record.
    SerializationError,
    /// Block 0 starts with this byte instead of the magic number.
    MagicNumberError(u8),
    /// A file name holds a zero byte.
    FilenameError,
    /// Every block of the bitmap is taken.
    OutOfSpace,
    /// The handle names no file of this filesystem.
    InvalidDesc,
    /// No file of this name is in the directory.
    FileNotFound(String),
}

/// What a filesystem operation returns.
pub type TfsResult<T> = Result<T, TfsError>;

/// The result `r` with its value, if it has one, replaced by the value's
/// view.
pub open spec fn view_of<T: View>(r: Result<T, TfsError>) -> Result<T::V, TfsError> {
    match r {
        Ok(value) => Ok(value@),
        Err(e) => Err(e),
    }
}

} // verus!
