//! Cached files and the loader that owns them.
//!
//! A `CachedFile` bundles a logical path with the file's bytes.  The bundle
//! owns its bytes and clones copy them, which keeps the value model plain:
//! a file is its path and its byte sequence.

use vstd::prelude::*;

verus! {

/// A loaded file: logical path plus the whole byte buffer.
#[derive(Debug, PartialEq, Eq, Hash)]
pub struct CachedFile {
    pub path: String,
    pub data: Vec<u8>,
}

impl Clone for CachedFile {
    /// Clones carry the same path and bytes.
    fn clone(&self) -> (r: Self)
        ensures
            r.same_file(self),
    {
        CachedFile { path: self.path.clone(), data: self.data.clone() }
    }
}

impl CachedFile {
    /// The file's logical path.
    pub open spec fn spec_path(&self) -> Seq<char> {
        self.path@
    }

    /// The file's bytes.
    pub open spec fn spec_data(&self) -> Seq<u8> {
        self.data@
    }

    /// Two cached files carry the same contents.
    pub open spec fn same_file(&self, other: &CachedFile) -> bool {
        self.spec_path() == other.spec_path() && self.spec_data() == other.spec_data()
    }

    /// A file with no path and no bytes.
    pub fn empty() -> (r: CachedFile)
        ensures
            r.spec_path() == Seq::<char>::empty(),
            r.spec_data() == Seq::<u8>::empty(),
    {
        let r = CachedFile { path: String::new(), data: Vec::new() };
        proof {
            assert(r.spec_path() =~= Seq::<char>::empty());
            assert(r.spec_data() =~= Seq::<u8>::empty());
        }
        r
    }

    /// Bundle a path with a copy of the given bytes.
    pub fn from_slice(path: &str, data: &[u8]) -> (r: CachedFile)
        ensures
            r.spec_path() == path@,
            r.spec_data() == data@,
    {
        CachedFile { path: path.to_owned(), data: vstd::slice::slice_to_vec(data) }
    }

    /// The logical path.
    pub fn path(&self) -> (r: &str)
        ensures
            r@ == self.spec_path(),
    {
        self.path.as_str()
    }

    /// The raw bytes.
    pub fn data(&self) -> (r: &Vec<u8>)
        ensures
            r@ == self.spec_data(),
    {
        &self.data
    }

    /// The byte count.  Relies on std's allocation limit: a vector never
    /// holds more than `isize::MAX` bytes.
    #[verifier::external_body]
    pub fn data_len(&self) -> (n: usize)
        ensures
            n == self.spec_data().len(),
            n < usize::MAX - 4,
    {
        self.data.len()
    }
}

/// Loads config files through a virtual filesystem and caches each one.
pub struct LogixLoader {
    pub fs: Option<logix_vfs::RelFs>,
    pub files: Vec<CachedFile>,
}

impl LogixLoader {
    /// The cached files.
    pub open spec fn spec_files(&self) -> Seq<CachedFile> {
        self.files@
    }

    /// A loader with the files provided by `fs`.
    pub fn new(fs: logix_vfs::RelFs) -> (r: LogixLoader)
        ensures
            r.spec_files().len() == 0,
    {
        LogixLoader { fs: Some(fs), files: Vec::new() }
    }

    /// A loader with no filesystem behind it: it serves only the files
    /// placed in its cache.
    pub fn in_memory() -> (r: LogixLoader)
        ensures
            r.spec_files().len() == 0,
    {
        LogixLoader { fs: None, files: Vec::new() }
    }

    /// Place a file in the cache under the given path.
    pub fn with_file(self, path: &str, data: &[u8]) -> (r: LogixLoader)
        ensures
            r.spec_files().len() == self.spec_files().len() + 1,
            r.spec_files().last().spec_path() == path@,
            r.spec_files().last().spec_data() == data@,
            forall|i: int|
                0 <= i < self.spec_files().len() ==> r.spec_files()[i] == self.spec_files()[i],
    {
        let mut files = self.files;
        let f = CachedFile::from_slice(path, data);
        files.push(f);
        LogixLoader { fs: self.fs, files }
    }

    /// The cached file stored under `path`, if any.
    pub fn get_file(&self, path: &str) -> (r: Option<CachedFile>)
        ensures
            match r {
                Some(f) => exists|i: int|
                    0 <= i < self.spec_files().len() && self.spec_files()[i].same_file(&f)
                        && f.spec_path() == path@,
                None => true,
            },
            (r is Some) <==> exists|i: int|
                0 <= i < self.spec_files().len() && self.spec_files()[i].spec_path() == path@,
    {
        let n = self.files.len();
        let mut i: usize = 0;
        while i < n
            invariant
                n == self.spec_files().len(),
                i <= n,
                forall|k: int| 0 <= k < i ==> self.spec_files()[k].spec_path() != path@,
            decreases n - i,
        {
            if crate::text::str_eq(self.files[i].path(), path) {
                let f = self.files[i].clone();
                proof {
                    assert(self.spec_files()[i as int].same_file(&f));
                }
                return Some(f);
            }
            i = i + 1;
        }
        None
    }

    /// Open `path`: resolve it through the filesystem, serve it from the
    /// cache when already loaded, and otherwise read and cache it.  Every
    /// file handed out is in the final cache, and the cache only grows.
    pub fn open_file(&mut self, path: &str) -> (r: Result<CachedFile, crate::error::FsError>)
        ensures
            final(self).spec_files().len() >= old(self).spec_files().len(),
            forall|i: int|
                0 <= i < old(self).spec_files().len() ==> final(self).spec_files()[i] == old(
                    self,
                ).spec_files()[i],
            r matches Ok(f) ==> exists|i: int|
                0 <= i < final(self).spec_files().len() && final(self).spec_files()[
                    i
                ].same_file(&f),
            r is Err ==> *final(self) == *old(self),
            old(self).fs is None ==> *final(self) == *old(self),
            old(self).fs is None ==> ((r is Ok) <==> exists|i: int|
                0 <= i < old(self).spec_files().len() && old(self).spec_files()[i].spec_path()
                    == path@),
            old(self).fs is None ==> (r matches Ok(f) ==> f.spec_path() == path@),
            old(self).fs is None ==> (r matches Err(e) ==> (e
                matches crate::error::FsError::NotFound { path: q } && q@ == path@)),
    {
        let canon: String = match &self.fs {
            Some(fs) => match crate::vfs::vfs_canonicalize(fs, path) {
                Ok(p) => p,
                Err(e) => {
                    return Err(crate::vfs::vfs_error_to_fs_error(e));
                },
            },
            None => <String as vstd::string::StringExecFns>::from_str(path),
        };
        match self.get_file(canon.as_str()) {
            Some(f) => {
                proof {
                    assert(forall|i: int|
                        0 <= i < self.spec_files().len() ==> self.spec_files()[i]
                            == self.spec_files()[i]);
                }
                Ok(f)
            },
            None => {
                match &self.fs {
                    Some(fs) => match crate::vfs::vfs_read(fs, canon.as_str()) {
                        Ok(bytes) => {
                            let f = CachedFile::from_slice(canon.as_str(), bytes.as_slice());
                            let ghost before = self.files@;
                            let copy = f.clone();
                            self.files.push(f);
                            proof {
                                assert(self.spec_files() =~= before.push(
                                    self.spec_files().last(),
                                ));
                                assert(self.spec_files().last().same_file(&copy));
                            }
                            Ok(copy)
                        },
                        Err(e) => Err(crate::vfs::vfs_error_to_fs_error(e)),
                    },
                    None => Err(
                        crate::error::FsError::NotFound { path: canon },
                    ),
                }
            },
        }
    }

    /// Load the file at `path` and parse it as one `T`, then require that
    /// only the end-of-file sentinel remains.  The loader comes back with
    /// its cache, next to the result.
    pub fn load_file<T: crate::type_trait::LogixType>(self, path: &str) -> (r: (
        LogixLoader,
        Result<T, crate::error::ParseError>,
    ))
        ensures
            r.1 matches Err(e) ==> (e matches crate::error::ParseError::FsError(_) ==> r.0
                == self),
            self.fs is None ==> ({
                let cached = exists|i: int|
                    0 <= i < self.spec_files().len() && self.spec_files()[i].spec_path()
                        == path@;
                &&& (!cached ==> (r.1 matches Err(e) && e
                    matches crate::error::ParseError::FsError(fe) && (fe
                    matches crate::error::FsError::NotFound { path: q } && q@ == path@)))
                &&& (cached ==> !(r.1 matches Err(e) && e
                    matches crate::error::ParseError::FsError(_)))
            }),
            self.fs is None ==> (r.1 matches Err(e) ==> (e
                matches crate::error::ParseError::Warning(_) ==> exists|i: int|
                0 <= i < self.spec_files().len() && crate::parser::dup_warning_witnessed(
                    self.spec_files()[i].spec_data(),
                    e,
                ))),
    {
        let mut this = self;
        let file = match this.open_file(path) {
            Ok(f) => f,
            Err(e) => {
                return (this, Err(crate::error::ParseError::FsError(e)));
            },
        };
        let name = T::descriptor().name;
        let mut p = crate::parser::LogixParser::with_loader(this, &file);
        let ghost p0 = p;
        let ret = match T::logix_parse(&mut p) {
            Ok(v) => v,
            Err(e) => {
                proof {
                    if self.fs is None {
                        let j = choose|j: int|
                            0 <= j < self.spec_files().len() && self.spec_files()[j].same_file(
                                &file,
                            );
                        assert(p0.file.spec_data() == self.spec_files()[j].spec_data());
                    }
                }
                return (p.into_loader(), Err(e));
            },
        };
        match p.finish_parse(name) {
            Ok(_) => (p.into_loader(), Ok(ret.value)),
            Err(e) => (p.into_loader(), Err(e)),
        }
    }
}

} // verus!
