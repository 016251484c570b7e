//! An in-memory file store, the handles that read and write its files, and
//! rooting of relative paths.

use crate::dictionary::Dictionary;
use crate::memfs_tracer::{Trace, Tracer};
use crate::template::strings_model;
use vstd::string::StrSliceExecFns;
use vstd::prelude::*;

verus! {

/// Why a file operation failed.
#[derive(Debug, Clone, Copy, PartialEq, Eq, Structural)]
pub enum FsError {
    /// No file is stored under the path.
    NotFound,
    /// The handle was opened for reading only.
    ReadOnly,
}

/// A store of files held in memory, keyed by path.
#[derive(Debug)]
pub struct MemFS {
    bucket: Dictionary<String, Vec<u8>>,
    fs_tracer: Tracer,
}

impl View for MemFS {
    type V = Map<Seq<char>, Seq<u8>>;

    closed spec fn view(&self) -> Map<Seq<char>, Seq<u8>> {
        self.bucket@
    }
}

impl Default for MemFS {
    fn default() -> (r: Self)
        ensures
            r@ == Map::<Seq<char>, Seq<u8>>::empty(),
    {
        MemFS { bucket: Dictionary::new(), fs_tracer: Tracer::default() }
    }
}

impl MemFS {
    /// The paths of the stored files.
    pub fn path_iter(&self) -> (r: Vec<String>)
        ensures
            forall|p: Seq<char>| self@.contains_key(p) <==> strings_model(r@).contains(p),
    {
        let mut r: Vec<String> = Vec::new();
        let mut i: usize = 0;
        while i < self.bucket.len()
            invariant
                i <= self.bucket.entries().len(),
                r@.len() == i,
                forall|j: int| 0 <= j < i ==> #[trigger] r@[j]@ == self.bucket.entries()[j].0@,
            decreases self.bucket.entries().len() - i,
        {
            r.push(self.bucket.key_at(i).clone());
            i = i + 1;
        }
        proof {
            self.bucket.lemma_keys();
            let e = self.bucket.entries();
            assert forall|p: Seq<char>|
                self@.contains_key(p) <==> strings_model(r@).contains(p) by {
                if self@.contains_key(p) {
                    let j = choose|j: int| 0 <= j < e.len() && #[trigger] e[j].0@ == p;
                    assert(strings_model(r@)[j] == p);
                }
                if strings_model(r@).contains(p) {
                    let j = choose|j: int| 0 <= j < r@.len() && strings_model(r@)[j] == p;
                    assert(self.bucket.entries()[j].0@ == p);
                }
            }
        }
        r
    }

    /// The content stored under `path`.
    fn content(&self, path: &String) -> (r: Result<Vec<u8>, FsError>)
        ensures
            r is Ok <==> self@.contains_key(path@),
            r matches Ok(v) ==> v@ == self@[path@],
            r matches Err(e) ==> e == FsError::NotFound,
    {
        match self.bucket.get(path) {
            Some(v) => Ok(v.clone()),
            None => Err(FsError::NotFound),
        }
    }

    /// A handle that reads the file at `path`, which must exist.
    pub fn open(&mut self, path: &str) -> (r: Result<FileStr<'_>, FsError>)
        ensures
            r is Ok <==> old(self)@.contains_key(path@),
            r matches Err(e) ==> e == FsError::NotFound,
            r matches Ok(f) ==> f.store() == old(self)@ && f.key() == path@ && !f.writable(),
            final(self)@ == old(self)@,
    {
        self.fs_tracer.on_open(path);
        let key = String::from_str(path);
        if self.bucket.get(&key).is_none() {
            self.fs_tracer.on_open_nonexist(path);
            return Err(FsError::NotFound);
        }
        Ok(FileStr::read(self, path))
    }

    /// Stores an empty file at `path`, replacing any file there, and hands
    /// back a handle that writes it.
    pub fn create(&mut self, path: &str) -> (r: FileStr<'_>)
        ensures
            r.store() == old(self)@.insert(path@, seq![]),
            r.key() == path@,
            r.writable(),
    {
        self.fs_tracer.on_create(path);
        let key = String::from_str(path);
        let last = self.bucket.insert(key, Vec::new());
        match last {
            Some(v) => self.fs_tracer.on_create_overwrite(path, Some(&v)),
            None => {},
        }
        FileStr::write(self, path)
    }
}

/// Whole-file access through a handle.
pub trait FileTrait {
    /// The files of the store that the handle is over.
    spec fn store(&self) -> Map<Seq<char>, Seq<u8>>;

    /// The path of the handle's file.
    spec fn key(&self) -> Seq<char>;

    /// Whether the handle may write.
    spec fn writable(&self) -> bool;

    /// The content of the file.
    fn read_all(&mut self) -> (r: Result<Vec<u8>, FsError>)
        ensures
            r is Ok <==> old(self).store().contains_key(old(self).key()),
            r matches Ok(v) ==> v@ == old(self).store()[old(self).key()],
            r matches Err(e) ==> e == FsError::NotFound,
            final(self).store() == old(self).store(),
            final(self).key() == old(self).key(),
            final(self).writable() == old(self).writable(),
    ;

    /// Replaces the content of the file by `content`.
    fn write_all(&mut self, content: Vec<u8>) -> (r: Result<(), FsError>)
        ensures
            r is Ok <==> old(self).writable(),
            r matches Err(e) ==> e == FsError::ReadOnly,
            old(self).writable() ==> final(self).store() == old(self).store().insert(
                old(self).key(),
                content@,
            ),
            !old(self).writable() ==> final(self).store() == old(self).store(),
            final(self).key() == old(self).key(),
            final(self).writable() == old(self).writable(),
    ;
}

/// A handle that reads one file of a store.
pub struct FileReadStr<'a> {
    fs: &'a MemFS,
    key: String,
}

/// A handle that reads and writes one file of a store.
pub struct FileWriteStr<'a> {
    fs: &'a mut MemFS,
    key: String,
}

impl<'a> FileReadStr<'a> {
    pub fn new(fs: &'a MemFS, key: &str) -> (r: Self)
        ensures
            r.store() == fs@,
            r.key() == key@,
    {
        FileReadStr { fs, key: String::from_str(key) }
    }
}

impl<'a> FileWriteStr<'a> {
    pub fn new(fs: &'a mut MemFS, key: &str) -> (r: Self)
        ensures
            r.store() == old(fs)@,
            r.key() == key@,
    {
        FileWriteStr { fs, key: String::from_str(key) }
    }
}

impl<'a> FileTrait for FileReadStr<'a> {
    closed spec fn store(&self) -> Map<Seq<char>, Seq<u8>> {
        self.fs@
    }

    closed spec fn key(&self) -> Seq<char> {
        self.key@
    }

    open spec fn writable(&self) -> bool {
        false
    }

    fn read_all(&mut self) -> (r: Result<Vec<u8>, FsError>) {
        self.fs.content(&self.key)
    }

    fn write_all(&mut self, _content: Vec<u8>) -> (r: Result<(), FsError>) {
        Err(FsError::ReadOnly)
    }
}

impl<'a> FileTrait for FileWriteStr<'a> {
    closed spec fn store(&self) -> Map<Seq<char>, Seq<u8>> {
        self.fs@
    }

    closed spec fn key(&self) -> Seq<char> {
        self.key@
    }

    open spec fn writable(&self) -> bool {
        true
    }

    fn read_all(&mut self) -> (r: Result<Vec<u8>, FsError>) {
        self.fs.content(&self.key)
    }

    fn write_all(&mut self, content: Vec<u8>) -> (r: Result<(), FsError>) {
        let last = self.fs.bucket.insert(self.key.clone(), content);
        match last {
            Some(v) => self.fs.fs_tracer.on_write_overwrite(self.key.as_str(), Some(&v)),
            None => {},
        }
        Ok(())
    }
}

/// A handle on one file of an in-memory store.
pub enum FileStr<'a> {
    FileReadStr(FileReadStr<'a>),
    FileWriteStr(FileWriteStr<'a>),
}

impl<'a> FileStr<'a> {
    /// A handle that reads the file at `key`.
    pub fn read(fs: &'a MemFS, key: &str) -> (r: Self)
        ensures
            r.store() == fs@,
            r.key() == key@,
            !r.writable(),
    {
        FileStr::FileReadStr(FileReadStr::new(fs, key))
    }

    /// A handle that reads and writes the file at `key`.
    pub fn write(fs: &'a mut MemFS, key: &str) -> (r: Self)
        ensures
            r.store() == old(fs)@,
            r.key() == key@,
            r.writable(),
    {
        FileStr::FileWriteStr(FileWriteStr::new(fs, key))
    }
}

impl<'a> FileTrait for FileStr<'a> {
    open spec fn store(&self) -> Map<Seq<char>, Seq<u8>> {
        match self {
            FileStr::FileReadStr(f) => f.store(),
            FileStr::FileWriteStr(f) => f.store(),
        }
    }

    open spec fn key(&self) -> Seq<char> {
        match self {
            FileStr::FileReadStr(f) => f.key(),
            FileStr::FileWriteStr(f) => f.key(),
        }
    }

    open spec fn writable(&self) -> bool {
        match self {
            FileStr::FileReadStr(f) => f.writable(),
            FileStr::FileWriteStr(f) => f.writable(),
        }
    }

    fn read_all(&mut self) -> (r: Result<Vec<u8>, FsError>) {
        match self {
            FileStr::FileReadStr(f) => f.read_all(),
            FileStr::FileWriteStr(f) => f.read_all(),
        }
    }

    fn write_all(&mut self, content: Vec<u8>) -> (r: Result<(), FsError>) {
        match self {
            FileStr::FileReadStr(f) => f.write_all(content),
            FileStr::FileWriteStr(f) => f.write_all(content),
        }
    }
}

} // verus!

verus! {

/// `path` joined onto directory `root`: an absolute path replaces the root,
/// and a separator is put between them unless the root is empty or already
/// ends with one.
pub open spec fn join_model(root: Seq<char>, path: Seq<char>) -> Seq<char> {
    if path.len() > 0 && path[0] == '/' {
        path
    } else if root.len() == 0 || root.last() == '/' {
        root + path
    } else {
        root + seq!['/'] + path
    }
}

/// Paths resolved against a root directory that can be changed.
#[derive(Debug, Clone)]
pub struct RootedFS {
    root: String,
}

impl RootedFS {
    pub closed spec fn root(&self) -> Seq<char> {
        self.root@
    }

    pub fn new(p: &str) -> (r: Self)
        ensures
            r.root() == p@,
    {
        RootedFS { root: String::from_str(p) }
    }

    pub fn change_root(&mut self, new_root: &str) -> (r: &mut Self)
        ensures
            r.root() == new_root@,
            *final(self) == *final(r),
    {
        self.root = String::from_str(new_root);
        self
    }

    /// `path` resolved against the root.
    pub fn rooted_path_of(&self, path: &str) -> (r: String)
        ensures
            r@ == join_model(self.root(), path@),
    {
        if !path.is_empty() && path.get_char(0) == '/' {
            return String::from_str(path);
        }
        let mut out = self.root.clone();
        let n = self.root.as_str().unicode_len();
        if n > 0 && self.root.as_str().get_char(n - 1) != '/' {
            let sep = "/";
            proof {
                reveal_strlit("/");
            }
            out.append(sep);
        }
        out.append(path);
        out
    }
}

impl Default for RootedFS {
    fn default() -> (r: Self)
        ensures
            r.root() == Seq::<char>::empty(),
    {
        RootedFS { root: String::new() }
    }
}

} // verus!
