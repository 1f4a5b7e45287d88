//! The filesystem boundary: every call into the virtual-filesystem crate
//! goes through the trusted items here, and verified code sees only plain
//! values (paths as strings, file contents as bytes) and the library's own
//! `FsError`.

use crate::error::FsError;
use vstd::prelude::*;

verus! {

#[verifier::external_type_specification]
#[verifier::external_body]
pub struct ExRelFs(logix_vfs::RelFs);

#[verifier::external_type_specification]
#[verifier::external_body]
pub struct ExVfsError(logix_vfs::Error);

/// Relies on logix_vfs::RelFs::new: a filesystem rooted at the given
/// directory.
#[verifier::external_body]
pub fn rel_fs_new(root: &str) -> logix_vfs::RelFs {
    logix_vfs::RelFs::new(root)
}

/// Relies on logix_vfs::RelFs::canonicalize_path: resolves a path inside
/// the filesystem's root.  What comes back depends on that filesystem.
#[verifier::external_body]
pub fn vfs_canonicalize(fs: &logix_vfs::RelFs, path: &str) -> Result<
    String,
    logix_vfs::Error,
> {
    match logix_vfs::LogixVfs::canonicalize_path(fs, std::path::Path::new(path)) {
        Ok(p) => Ok(p.to_string_lossy().into_owned()),
        Err(e) => Err(e),
    }
}

/// Relies on logix_vfs::RelFs::open_file and std's read_to_end: the
/// referenced file's bytes.  What comes back depends on the disk.
#[verifier::external_body]
pub fn vfs_read(fs: &logix_vfs::RelFs, path: &str) -> Result<Vec<u8>, logix_vfs::Error> {
    let mut f = match logix_vfs::LogixVfs::open_file(fs, std::path::Path::new(path)) {
        Ok(f) => f,
        Err(e) => return Err(e),
    };
    let mut buf = Vec::new();
    match std::io::Read::read_to_end(&mut f, &mut buf) {
        Ok(_) => Ok(buf),
        Err(e) => Err(logix_vfs::Error::from_io(std::path::Path::new(path).to_path_buf(), e)),
    }
}

/// Relies on logix_vfs::Error's variants: each arm moves the fields of one
/// variant into the library's own error type.
#[verifier::external_body]
pub fn vfs_error_to_fs_error(e: logix_vfs::Error) -> FsError {
    match e {
        logix_vfs::Error::NotFound { path } => FsError::NotFound {
            path: path.to_string_lossy().into_owned(),
        },
        logix_vfs::Error::AccessDenied { path } => FsError::AccessDenied {
            path: path.to_string_lossy().into_owned(),
        },
        logix_vfs::Error::PathOutsideBounds { path } => FsError::PathOutsideBounds {
            path: path.to_string_lossy().into_owned(),
        },
        logix_vfs::Error::NotADirectory { path } => FsError::NotADirectory {
            path: path.to_string_lossy().into_owned(),
        },
        logix_vfs::Error::Other(msg) => FsError::Other(msg),
    }
}

} // verus!
