//! Paths on a FAT16 volume: resolving directories, reading metadata,
//! testing existence, listing directories, and opening and reading files.
use vstd::prelude::*;
use vstd::string::StringSliceAdditionalSpecFns;
use crate::fat16::{bpb_of, bpb_signature_ok, BlockDevice, Cluster, DirEntry, DirEntryView, FsError, FsTime, parse_name_spec, ShortFileName, ROOT_DIR_CLUSTER};
use crate::fat16_impl::{entry_views, result_view, Directory, Fat16Impl};
use crate::listing::{listing, lookup};

verus! {

/// A directory as the reader sees it: its first cluster and the entry naming it.
pub open spec fn dir_view(d: Directory) -> (u32, Option<DirEntryView>) {
    (
        d.cluster.0,
        match d.entry {
            Some(e) => Some(e@),
            None => None,
        },
    )
}

pub open spec fn opt_dir_view(d: Option<Directory>) -> Option<(u32, Option<DirEntryView>)> {
    match d {
        Some(x) => Some(dir_view(x)),
        None => None,
    }
}

pub open spec fn root_view() -> (u32, Option<DirEntryView>) {
    (ROOT_DIR_CLUSTER, None)
}

/// The directory that an entry names.
pub open spec fn dir_of(e: DirEntryView) -> (u32, Option<DirEntryView>) {
    (e.cluster, Some(e))
}

/// The position of the first `/` in `p`, or -1 when there is none.
pub open spec fn slash_pos(p: Seq<u8>) -> int
    decreases p.len(),
{
    if p.len() == 0 {
        -1
    } else if p[0] == 0x2F {
        0
    } else {
        let k = slash_pos(p.drop_first());
        if k < 0 {
            -1
        } else {
            k + 1
        }
    }
}

pub proof fn lemma_slash_pos(p: Seq<u8>)
    ensures
        -1 <= slash_pos(p) < p.len(),
        slash_pos(p) >= 0 ==> p[slash_pos(p)] == 0x2F,
    decreases p.len(),
{
    if p.len() > 0 && p[0] != 0x2F {
        lemma_slash_pos(p.drop_first());
    }
}

/// The kind of an entry.
#[derive(PartialEq, Eq, Structural, Clone, Copy, Debug)]
pub enum FileType {
    File,
    Directory,
}

/// What the volume tells of an entry.
#[derive(Clone, Copy, Debug)]
pub struct Metadata {
    pub entry_type: FileType,
    pub len: usize,
    pub entry: DirEntry,
}

pub open spec fn meta_view(m: Metadata) -> (FileType, usize, DirEntryView) {
    (m.entry_type, m.len, m.entry@)
}

pub open spec fn meta_of(e: DirEntryView) -> (FileType, usize, DirEntryView) {
    (
        if e.is_directory() {
            FileType::Directory
        } else {
            FileType::File
        },
        e.size as usize,
        e,
    )
}

impl Metadata {
    pub fn from_entry(e: &DirEntry) -> (m: Metadata)
        ensures
            meta_view(m) == meta_of(e@),
    {
        Metadata {
            entry_type: if e.is_directory() {
                FileType::Directory
            } else {
                FileType::File
            },
            len: e.size as usize,
            entry: *e,
        }
    }
}

pub open spec fn meta_result_view(r: Result<Metadata, FsError>) -> Result<
    (FileType, usize, DirEntryView),
    FsError,
> {
    match r {
        Ok(m) => Ok(meta_view(m)),
        Err(e) => Err(e),
    }
}

/// The first `/` in `b[from..n]`.
fn find_slash(b: &[u8], from: usize, n: usize) -> (r: Option<usize>)
    requires
        from <= n <= b@.len(),
    ensures
        match r {
            Some(q) => from <= q < n && slash_pos(b@.subrange(from as int, n as int))
                == q - from,
            None => slash_pos(b@.subrange(from as int, n as int)) == -1,
        },
{
    let mut q = from;
    while q < n
        invariant
            from <= q <= n,
            n <= b@.len(),
            slash_pos(b@.subrange(from as int, n as int)) == if slash_pos(
                b@.subrange(q as int, n as int),
            ) < 0 {
                -1
            } else {
                slash_pos(b@.subrange(q as int, n as int)) + (q - from)
            },
        decreases n - q,
    {
        assert(b@.subrange(q as int, n as int).drop_first() =~= b@.subrange(q + 1, n as int));
        if b[q] == 0x2F {
            return Some(q);
        }
        q = q + 1;
    }
    assert(b@.subrange(n as int, n as int).len() == 0);
    None
}

/// The position of the last `/` in `p`, or -1 when there is none.
pub open spec fn last_slash(p: Seq<u8>) -> int
    decreases p.len(),
{
    if p.len() == 0 {
        -1
    } else if p.last() == 0x2F {
        p.len() - 1
    } else {
        last_slash(p.drop_last())
    }
}

pub proof fn lemma_last_slash(p: Seq<u8>)
    ensures
        -1 <= last_slash(p) < p.len(),
    decreases p.len(),
{
    if p.len() > 0 && p.last() != 0x2F {
        lemma_last_slash(p.drop_last());
    }
}

/// The last `/` in `b`, if any.
fn rfind_slash(b: &[u8]) -> (r: Option<usize>)
    ensures
        match r {
            Some(q) => q == last_slash(b@),
            None => last_slash(b@) == -1,
        },
{
    let mut q = b.len();
    assert(b@.take(q as int) =~= b@);
    while q > 0
        invariant
            q <= b@.len(),
            last_slash(b@) == last_slash(b@.take(q as int)),
        decreases q,
    {
        assert(b@.take(q as int).drop_last() =~= b@.take(q - 1));
        if b[q - 1] == 0x2F {
            return Some(q - 1);
        }
        q = q - 1;
    }
    None
}

impl<D: BlockDevice> Fat16Impl<D> {
    /// The directory that the path `p` leads to from `d`: each component
    /// before a `/` must name a directory; what follows the last `/` is ignored.
    pub open spec fn resolve_from(self, d: (u32, Option<DirEntryView>), p: Seq<u8>) -> Option<
        (u32, Option<DirEntryView>),
    >
        decreases p.len(),
    {
        let k = slash_pos(p);
        proof {
            lemma_slash_pos(p);
        }
        if k < 0 {
            Some(d)
        } else {
            match parse_name_spec(p.take(k)) {
                Err(_) => None,
                Ok(n) => match lookup(self.dir_entries(d.0), n) {
                    Err(_) => None,
                    Ok(e) => if !e.is_directory() {
                        None
                    } else if p.skip(k + 1).len() == 0 {
                        Some(dir_of(e))
                    } else {
                        self.resolve_from(dir_of(e), p.skip(k + 1))
                    },
                },
            }
        }
    }

    /// Every directory that resolving `p` from `d` searches can be read to its end.
    pub open spec fn resolve_safe(self, d: (u32, Option<DirEntryView>), p: Seq<u8>) -> bool
        decreases p.len(),
    {
        let k = slash_pos(p);
        proof {
            lemma_slash_pos(p);
        }
        k < 0 || (self.walkable(d.0) && match parse_name_spec(p.take(k)) {
            Err(_) => true,
            Ok(n) => match lookup(self.dir_entries(d.0), n) {
                Err(_) => true,
                Ok(e) => !e.is_directory() || p.skip(k + 1).len() == 0 || self.resolve_safe(
                    dir_of(e),
                    p.skip(k + 1),
                ),
            },
        })
    }

    /// Every directory that walking the whole of `p` from `d` searches can be
    /// read to its end (a component that is not a valid name reads nothing).
    pub open spec fn walk_safe(self, d: (u32, Option<DirEntryView>), p: Seq<u8>) -> bool
        decreases p.len(),
    {
        let k = slash_pos(p);
        proof {
            lemma_slash_pos(p);
        }
        if k < 0 {
            p.len() == 0 || (parse_name_spec(p) is Ok ==> self.walkable(d.0))
        } else {
            (parse_name_spec(p.take(k)) is Ok ==> self.walkable(d.0)) && match parse_name_spec(p.take(k)) {
                Err(_) => true,
                Ok(n) => match lookup(self.dir_entries(d.0), n) {
                    Err(_) => true,
                    Ok(e) => !e.is_directory() || p.skip(k + 1).len() == 0 || self.walk_safe(
                        dir_of(e),
                        p.skip(k + 1),
                    ),
                },
            }
        }
    }

    /// `resolve_safe` with a bound: every directory that resolving `p` from
    /// `d` reads has a chain that ends within `limit` steps.
    pub open spec fn resolve_within(self, d: (u32, Option<DirEntryView>), p: Seq<u8>, limit: nat) -> bool
        decreases p.len(),
    {
        let k = slash_pos(p);
        proof {
            lemma_slash_pos(p);
        }
        k < 0 || (self.chain_ok(d.0, limit) && match parse_name_spec(p.take(k)) {
            Err(_) => true,
            Ok(n) => match lookup(self.dir_entries(d.0), n) {
                Err(_) => true,
                Ok(e) => !e.is_directory() || p.skip(k + 1).len() == 0 || self.resolve_within(
                    dir_of(e),
                    p.skip(k + 1),
                    limit,
                ),
            },
        })
    }

    /// `walk_safe` with a bound: every directory that walking the whole of
    /// `p` from `d` searches has a chain that ends within `limit` steps.
    pub open spec fn walk_within(self, d: (u32, Option<DirEntryView>), p: Seq<u8>, limit: nat) -> bool
        decreases p.len(),
    {
        let k = slash_pos(p);
        proof {
            lemma_slash_pos(p);
        }
        if k < 0 {
            p.len() == 0 || (parse_name_spec(p) is Ok ==> self.chain_ok(d.0, limit))
        } else {
            (parse_name_spec(p.take(k)) is Ok ==> self.chain_ok(d.0, limit)) && match parse_name_spec(
                p.take(k),
            ) {
                Err(_) => true,
                Ok(n) => match lookup(self.dir_entries(d.0), n) {
                    Err(_) => true,
                    Ok(e) => !e.is_directory() || p.skip(k + 1).len() == 0 || self.walk_within(
                        dir_of(e),
                        p.skip(k + 1),
                        limit,
                    ),
                },
            }
        }
    }

    pub proof fn lemma_resolve_within(self, d: (u32, Option<DirEntryView>), p: Seq<u8>, limit: nat)
        requires
            self.resolve_within(d, p, limit),
        ensures
            self.resolve_safe(d, p),
        decreases p.len(),
    {
        let k = slash_pos(p);
        lemma_slash_pos(p);
        if k >= 0 {
            assert(self.walkable(d.0));
            match parse_name_spec(p.take(k)) {
                Err(_) => {},
                Ok(n) => match lookup(self.dir_entries(d.0), n) {
                    Err(_) => {},
                    Ok(e) => {
                        if e.is_directory() && p.skip(k + 1).len() != 0 {
                            self.lemma_resolve_within(dir_of(e), p.skip(k + 1), limit);
                        }
                    },
                },
            }
        }
    }

    pub proof fn lemma_walk_within(self, d: (u32, Option<DirEntryView>), p: Seq<u8>, limit: nat)
        requires
            self.walk_within(d, p, limit),
        ensures
            self.walk_safe(d, p),
        decreases p.len(),
    {
        let k = slash_pos(p);
        lemma_slash_pos(p);
        if k < 0 {
            if p.len() != 0 && parse_name_spec(p) is Ok {
                assert(self.walkable(d.0));
            }
        } else {
            if parse_name_spec(p.take(k)) is Ok {
                assert(self.walkable(d.0));
            }
            match parse_name_spec(p.take(k)) {
                Err(_) => {},
                Ok(n) => match lookup(self.dir_entries(d.0), n) {
                    Err(_) => {},
                    Ok(e) => {
                        if e.is_directory() && p.skip(k + 1).len() != 0 {
                            self.lemma_walk_within(dir_of(e), p.skip(k + 1), limit);
                        }
                    },
                },
            }
        }
    }

    /// The metadata of the entry that the path `p` names from `d`: every
    /// component before a `/` must be a directory; the last component, file
    /// or directory, is looked up (a path that ends with `/` names the last
    /// directory walked); `ret` is the answer so far.
    pub open spec fn metadata_from(
        self,
        d: (u32, Option<DirEntryView>),
        p: Seq<u8>,
        ret: Result<(FileType, usize, DirEntryView), FsError>,
    ) -> Result<(FileType, usize, DirEntryView), FsError>
        decreases p.len(),
    {
        let k = slash_pos(p);
        proof {
            lemma_slash_pos(p);
        }
        if k < 0 {
            if p.len() == 0 {
                ret
            } else {
                match parse_name_spec(p) {
                    Err(_) => Err(FsError::FileNotFound),
                    Ok(n) => match lookup(self.dir_entries(d.0), n) {
                        Err(_) => Err(FsError::FileNotFound),
                        Ok(e) => Ok(meta_of(e)),
                    },
                }
            }
        } else {
            match parse_name_spec(p.take(k)) {
                Err(_) => Err(FsError::FileNotFound),
                Ok(n) => match lookup(self.dir_entries(d.0), n) {
                    Err(_) => Err(FsError::FileNotFound),
                    Ok(e) => if !e.is_directory() {
                        Err(FsError::FileNotFound)
                    } else if p.skip(k + 1).len() == 0 {
                        Ok(meta_of(e))
                    } else {
                        self.metadata_from(dir_of(e), p.skip(k + 1), Ok(meta_of(e)))
                    },
                },
            }
        }
    }

    /// Whether the path `p` names an entry from `d`: each component is found,
    /// every one but the last is a directory.
    pub open spec fn exists_from(self, d: (u32, Option<DirEntryView>), p: Seq<u8>) -> bool
        decreases p.len(),
    {
        let k = slash_pos(p);
        proof {
            lemma_slash_pos(p);
        }
        if k < 0 {
            if p.len() == 0 {
                true
            } else {
                match parse_name_spec(p) {
                    Err(_) => false,
                    Ok(n) => lookup(self.dir_entries(d.0), n) is Ok,
                }
            }
        } else {
            match parse_name_spec(p.take(k)) {
                Err(_) => false,
                Ok(n) => match lookup(self.dir_entries(d.0), n) {
                    Err(_) => false,
                    Ok(e) => if p.skip(k + 1).len() == 0 {
                        true
                    } else if !e.is_directory() {
                        false
                    } else {
                        self.exists_from(dir_of(e), p.skip(k + 1))
                    },
                },
            }
        }
    }

    /// Resolves the directory part of a path from the root (see `resolve_from`).
    pub fn resolve_path(&self, root_path: &str) -> (r: Option<Directory>)
        requires
            self.layout_ok(),
            self.resolve_safe(root_view(), root_path.spec_bytes()),
        ensures
            opt_dir_view(r) == self.resolve_from(root_view(), root_path.spec_bytes()),
    {
        let b = root_path.as_bytes();
        assert(b@.subrange(0, b@.len() as int) =~= b@);
        self.resolve_prefix(b, b.len())
    }

    /// Resolves `b[..n]` from the root (see `resolve_from`).
    pub fn resolve_prefix(&self, b: &[u8], n: usize) -> (r: Option<Directory>)
        requires
            self.layout_ok(),
            n <= b@.len(),
            self.resolve_safe(root_view(), b@.subrange(0, n as int)),
        ensures
            opt_dir_view(r) == self.resolve_from(root_view(), b@.subrange(0, n as int)),
    {
        let ghost start: int = 0;
        let ghost target = self.resolve_from(root_view(), b@.subrange(0, n as int));
        let mut root = Self::root_dir();
        let mut p: usize = 0;
        loop
            invariant
                0 <= p <= n,
                n <= b@.len(),
                self.layout_ok(),
                self.resolve_safe(dir_view(root), b@.subrange(p as int, n as int)),
                self.resolve_from(dir_view(root), b@.subrange(p as int, n as int)) == target,
                target == self.resolve_from(root_view(), b@.subrange(0, n as int)),
            decreases n - p,
        {
            let ghost sub = b@.subrange(p as int, n as int);
            match find_slash(b, p, n) {
                None => {
                    return Some(root);
                },
                Some(q) => {
                    let k = q - p;
                    proof {
                        assert(sub.take(k as int) =~= b@.subrange(p as int, q as int));
                        assert(sub.skip(k + 1) =~= b@.subrange(q + 1, n as int));
                    }
                    let tmp = self.find_directory_entry_bytes(&root, b, p, q);
                    match tmp {
                        Err(_) => {
                            return None;
                        },
                        Ok(e) => {
                            if !e.is_directory() {
                                return None;
                            }
                            root = Directory::from_entry(e);
                            p = q + 1;
                            if p == n {
                                return Some(root);
                            }
                        },
                    }
                },
            }
        }
    }

    /// Whether every directory that resolving `b[..n]` from the root reads
    /// has a chain that ends within `limit` steps; `true` makes the
    /// resolution safe.
    pub fn check_resolve(&self, b: &[u8], n: usize, limit: usize) -> (r: bool)
        requires
            self.layout_ok(),
            n <= b@.len(),
        ensures
            r == self.resolve_within(root_view(), b@.subrange(0, n as int), limit as nat),
            r ==> self.resolve_safe(root_view(), b@.subrange(0, n as int)),
    {
        proof {
            if self.resolve_within(root_view(), b@.subrange(0, n as int), limit as nat) {
                self.lemma_resolve_within(root_view(), b@.subrange(0, n as int), limit as nat);
            }
        }
        let mut root = Self::root_dir();
        let mut p: usize = 0;
        loop
            invariant
                0 <= p <= n,
                n <= b@.len(),
                self.layout_ok(),
                self.resolve_within(dir_view(root), b@.subrange(p as int, n as int), limit as nat)
                    == self.resolve_within(root_view(), b@.subrange(0, n as int), limit as nat),
                self.resolve_within(root_view(), b@.subrange(0, n as int), limit as nat) ==> self.resolve_safe(
                    root_view(),
                    b@.subrange(0, n as int),
                ),
            decreases n - p,
        {
            let ghost sub = b@.subrange(p as int, n as int);
            match find_slash(b, p, n) {
                None => {
                    return true;
                },
                Some(q) => {
                    let k = q - p;
                    proof {
                        assert(sub.take(k as int) =~= b@.subrange(p as int, q as int));
                        assert(sub.skip(k + 1) =~= b@.subrange(q + 1, n as int));
                    }
                    if !self.check_chain(root.cluster.0, limit) {
                        return false;
                    }
                    let tmp = self.find_directory_entry_bytes(&root, b, p, q);
                    match tmp {
                        Err(_) => {
                            return true;
                        },
                        Ok(e) => {
                            if !e.is_directory() {
                                return true;
                            }
                            root = Directory::from_entry(e);
                            p = q + 1;
                            if p == n {
                                return true;
                            }
                        },
                    }
                },
            }
        }
    }

    /// The metadata of the entry that a path names (see `metadata_from`).
    pub fn metadata_bytes(&self, b: &[u8]) -> (r: Result<Metadata, FsError>)
        requires
            self.layout_ok(),
            self.walk_safe(root_view(), b@),
        ensures
            meta_result_view(r) == self.metadata_from(root_view(), b@, Err(FsError::FileNotFound)),
    {
        let n = b.len();
        let ghost target = self.metadata_from(root_view(), b@, Err(FsError::FileNotFound));
        let mut root = Self::root_dir();
        let mut ret: Result<Metadata, FsError> = Err(FsError::FileNotFound);
        let mut p: usize = 0;
        assert(b@.subrange(0, n as int) =~= b@);
        loop
            invariant
                p <= n,
                n == b@.len(),
                self.layout_ok(),
                self.walk_safe(dir_view(root), b@.subrange(p as int, n as int)),
                self.metadata_from(dir_view(root), b@.subrange(p as int, n as int), meta_result_view(ret))
                    == target,
                target == self.metadata_from(root_view(), b@, Err(FsError::FileNotFound)),
            decreases n - p,
        {
            let ghost sub = b@.subrange(p as int, n as int);
            match find_slash(b, p, n) {
                None => {
                    if p == n {
                        return ret;
                    }
                    match self.find_directory_entry_bytes(&root, b, p, n) {
                        Err(_) => {
                            return Err(FsError::FileNotFound);
                        },
                        Ok(e) => {
                            return Ok(Metadata::from_entry(&e));
                        },
                    }
                },
                Some(q) => {
                    let k = q - p;
                    proof {
                        assert(sub.take(k as int) =~= b@.subrange(p as int, q as int));
                        assert(sub.skip(k + 1) =~= b@.subrange(q + 1, n as int));
                    }
                    let tmp = self.find_directory_entry_bytes(&root, b, p, q);
                    match tmp {
                        Err(_) => {
                            return Err(FsError::FileNotFound);
                        },
                        Ok(e) => {
                            ret = Ok(Metadata::from_entry(&e));
                            if !e.is_directory() {
                                return Err(FsError::FileNotFound);
                            }
                            root = Directory::from_entry(e);
                            p = q + 1;
                            if p == n {
                                return ret;
                            }
                        },
                    }
                },
            }
        }
    }

    /// Whether every directory that walking the whole of `b` from the root
    /// searches has a chain that ends within `limit` steps; `true` makes the
    /// walk safe.
    pub fn check_walk(&self, b: &[u8], limit: usize) -> (r: bool)
        requires
            self.layout_ok(),
        ensures
            r == self.walk_within(root_view(), b@, limit as nat),
            r ==> self.walk_safe(root_view(), b@),
    {
        proof {
            if self.walk_within(root_view(), b@, limit as nat) {
                self.lemma_walk_within(root_view(), b@, limit as nat);
            }
        }
        let n = b.len();
        let mut root = Self::root_dir();
        let mut p: usize = 0;
        assert(b@.subrange(0, n as int) =~= b@);
        loop
            invariant
                p <= n,
                n == b@.len(),
                self.layout_ok(),
                self.walk_within(dir_view(root), b@.subrange(p as int, n as int), limit as nat)
                    == self.walk_within(root_view(), b@, limit as nat),
                self.walk_within(root_view(), b@, limit as nat) ==> self.walk_safe(root_view(), b@),
            decreases n - p,
        {
            let ghost sub = b@.subrange(p as int, n as int);
            match find_slash(b, p, n) {
                None => {
                    if p == n {
                        return true;
                    }
                    if ShortFileName::parse_bytes(b, p, n).is_err() {
                        return true;
                    }
                    return self.check_chain(root.cluster.0, limit);
                },
                Some(q) => {
                    let k = q - p;
                    proof {
                        assert(sub.take(k as int) =~= b@.subrange(p as int, q as int));
                        assert(sub.skip(k + 1) =~= b@.subrange(q + 1, n as int));
                    }
                    if ShortFileName::parse_bytes(b, p, q).is_err() {
                        return true;
                    }
                    if !self.check_chain(root.cluster.0, limit) {
                        return false;
                    }
                    match self.find_directory_entry_bytes(&root, b, p, q) {
                        Err(_) => {
                            return true;
                        },
                        Ok(e) => {
                            if !e.is_directory() {
                                return true;
                            }
                            root = Directory::from_entry(e);
                            p = q + 1;
                            if p == n {
                                return true;
                            }
                        },
                    }
                },
            }
        }
    }

    /// Whether a path exists (see `exists_from`).
    pub fn exists_bytes(&self, b: &[u8]) -> (r: bool)
        requires
            self.layout_ok(),
            self.walk_safe(root_view(), b@),
        ensures
            r == self.exists_from(root_view(), b@),
    {
        let n = b.len();
        let ghost target = self.exists_from(root_view(), b@);
        let mut root = Self::root_dir();
        let mut p: usize = 0;
        assert(b@.subrange(0, n as int) =~= b@);
        loop
            invariant
                p <= n,
                n == b@.len(),
                self.layout_ok(),
                self.walk_safe(dir_view(root), b@.subrange(p as int, n as int)),
                self.exists_from(dir_view(root), b@.subrange(p as int, n as int)) == target,
                target == self.exists_from(root_view(), b@),
            decreases n - p,
        {
            let ghost sub = b@.subrange(p as int, n as int);
            match find_slash(b, p, n) {
                None => {
                    if p == n {
                        return true;
                    }
                    match self.find_directory_entry_bytes(&root, b, p, n) {
                        Err(_) => {
                            return false;
                        },
                        Ok(_) => {
                            return true;
                        },
                    }
                },
                Some(q) => {
                    let k = q - p;
                    proof {
                        assert(sub.take(k as int) =~= b@.subrange(p as int, q as int));
                        assert(sub.skip(k + 1) =~= b@.subrange(q + 1, n as int));
                    }
                    let tmp = self.find_directory_entry_bytes(&root, b, p, q);
                    match tmp {
                        Err(_) => {
                            return false;
                        },
                        Ok(e) => {
                            p = q + 1;
                            if p == n {
                                return true;
                            }
                            if !e.is_directory() {
                                return false;
                            }
                            root = Directory::from_entry(e);
                        },
                    }
                },
            }
        }
    }
}

/// An open file of a FAT16 volume.
pub struct File<'a, D: BlockDevice> {
    /// The current offset in the file
    pub offset: usize,
    /// The current cluster of this file
    pub current_cluster: Cluster,
    /// The entry of this file
    pub entry: DirEntry,
    /// The volume that holds this file
    pub handle: &'a Fat16Impl<D>,
}

impl<'a, D: BlockDevice> File<'a, D> {
    pub fn new(handle: &'a Fat16Impl<D>, entry: DirEntry) -> (f: File<'a, D>)
        ensures
            f.offset == 0,
            f.current_cluster == entry.cluster,
            f.entry@ == entry@,
            f.handle == handle,
    {
        File { offset: 0, current_cluster: entry.cluster, entry, handle }
    }

    /// The size of the file in bytes.
    pub fn length(&self) -> (r: usize)
        ensures
            r == self.entry.size as usize,
    {
        self.entry.size as usize
    }

    /// The file's contents: its size in bytes from the clusters that the
    /// table chains from its first cluster.
    pub open spec fn contents(self) -> Seq<u8> {
        self.handle.first_bytes(self.entry.cluster.0, self.entry.size as usize as nat)
    }

    /// The file can be read: the volume is laid out and the first clusters
    /// that the table chains from the file's first one are addressable and
    /// hold at least the file's size in bytes (the chain may go on after
    /// them).
    pub open spec fn readable(self) -> bool {
        &&& self.handle.layout_ok()
        &&& self.handle.holds_size(self.entry.cluster.0, self.entry.size as usize as nat)
    }

    /// Reads the rest of the file, from the current offset to its end, into
    /// the front of `buf` and moves the offset to the end; fails when `buf`
    /// is shorter than what is left. At the end of the file nothing is read.
    pub fn read(&mut self, buf: &mut [u8]) -> (r: Result<usize, FsError>)
        requires
            old(self).offset < old(self).entry.size as usize && old(buf)@.len() >= old(self).entry.size as usize
                - old(self).offset ==> old(self).readable(),
        ensures
            final(buf)@.len() == old(buf)@.len(),
            old(self).offset >= old(self).entry.size as usize ==> r == Ok::<usize, FsError>(0)
                && *final(self) == *old(self) && final(buf)@ == old(buf)@,
            old(self).offset < old(self).entry.size as usize && old(buf)@.len() < old(
                self,
            ).entry.size as usize - old(self).offset ==> r == Err::<usize, FsError>(
                FsError::InvalidOperation,
            ) && *final(self) == *old(self) && final(buf)@ == old(buf)@,
            old(self).offset < old(self).entry.size as usize && old(buf)@.len() >= old(
                self,
            ).entry.size as usize - old(self).offset ==> {
                let off = old(self).offset as int;
                let n = old(self).entry.size as usize - old(self).offset;
                &&& r == Ok::<usize, FsError>(n as usize)
                &&& *final(self) == (File { offset: old(self).entry.size as usize, ..*old(self) })
                &&& final(buf)@.take(n) == old(self).contents().subrange(off, off + n)
                &&& final(buf)@.skip(n) == old(buf)@.skip(n)
            },
    {
        let size = self.length();
        let off = self.offset;
        if off >= size {
            return Ok(0);
        }
        let want = size - off;
        if buf.len() < want {
            return Err(FsError::InvalidOperation);
        }
        let ghost h = *self.handle;
        let ghost c0 = self.entry.cluster.0;
        let ghost fuel0: nat = choose|f: nat| #[trigger] h.prefix_ok(c0, f) && h.prefix_bytes(c0, f).len()
            >= size as nat;
        let ghost all = h.prefix_bytes(c0, fuel0);
        let ghost ob = buf@;
        let ghost mut fuel: nat = fuel0;
        let mut cluster = self.entry.cluster;
        let mut pos: usize = 0;
        let mut block: [u8; 512] = [0u8; 512];
        proof {
            assert(all.skip(0) =~= all);
        }
        loop
            invariant
                h == *self.handle,
                h.layout_ok(),
                h.prefix_ok(cluster.0, fuel),
                all == h.prefix_bytes(c0, fuel0),
                fuel0 == choose|f: nat| #[trigger] h.prefix_ok(c0, f) && h.prefix_bytes(c0, f).len() >= size as nat,
                c0 == old(self).entry.cluster.0,
                h == *old(self).handle,
                size == self.entry.size as usize,
                off == self.offset,
                off < size <= all.len(),
                want == size - off,
                want <= ob.len(),
                ob == old(buf)@,
                *self == *old(self),
                pos < size,
                all.skip(pos as int) == h.chain_bytes(h.chain_from(cluster.0, fuel)),
                buf@.len() == ob.len(),
                forall|k: int|
                    0 <= k < ob.len() ==> #[trigger] buf@[k] == (if k + off < pos {
                        all[k + off]
                    } else {
                        ob[k]
                    }),
            decreases fuel,
        {
            let ghost chain = h.chain_from(cluster.0, fuel);
            let ghost rest = h.chain_bytes(chain.drop_first());
            let sector0 = self.handle.cluster_to_sector(&cluster);
            let dsize = self.handle.dir_size_of(cluster);
            proof {
                assert(chain[0] == cluster.0);
                assert(h.chain_bytes(chain) == h.sectors_bytes(h.sector_of(cluster.0), h.dir_size(cluster.0) as nat) + rest);
            }
            let mut s_i = sector0;
            while s_i < sector0 + dsize
                invariant
                    h == *self.handle,
                    sector0 <= s_i <= sector0 + dsize,
                    sector0 + dsize <= usize::MAX,
                    all == h.prefix_bytes(c0, fuel0),
                    fuel0 == choose|f: nat| #[trigger] h.prefix_ok(c0, f) && h.prefix_bytes(c0, f).len() >= size as nat,
                    c0 == old(self).entry.cluster.0,
                    h == *old(self).handle,
                    size == self.entry.size as usize,
                    off == self.offset,
                    off < size <= all.len(),
                    want == size - off,
                    want <= ob.len(),
                    ob == old(buf)@,
                    *self == *old(self),
                    pos < size,
                    all.skip(pos as int) == h.sectors_bytes(s_i as int, (sector0 + dsize - s_i) as nat) + rest,
                    buf@.len() == ob.len(),
                    forall|k: int|
                        0 <= k < ob.len() ==> #[trigger] buf@[k] == (if k + off < pos {
                            all[k + off]
                        } else {
                            ob[k]
                        }),
                decreases sector0 + dsize - s_i,
            {
                self.handle.inner.read_block(s_i, &mut block);
                let ghost more = h.sectors_bytes(s_i + 1, (sector0 + dsize - s_i - 1) as nat);
                proof {
                    assert(block@ =~= h.sector_bytes(s_i as int));
                    assert(h.sectors_bytes(s_i as int, (sector0 + dsize - s_i) as nat) == block@ + more);
                }
                let mut j: usize = 0;
                while j < 512
                    invariant
                        j <= 512,
                        block@.len() == 512,
                        all == h.prefix_bytes(c0, fuel0),
                    fuel0 == choose|f: nat| #[trigger] h.prefix_ok(c0, f) && h.prefix_bytes(c0, f).len() >= size as nat,
                        c0 == old(self).entry.cluster.0,
                        h == *old(self).handle,
                        size == self.entry.size as usize,
                        off == self.offset,
                        off < size <= all.len(),
                        want == size - off,
                        want <= ob.len(),
                        ob == old(buf)@,
                        *self == *old(self),
                        pos < size,
                        all.skip(pos as int) == block@.skip(j as int) + more + rest,
                        buf@.len() == ob.len(),
                        forall|k: int|
                            0 <= k < ob.len() ==> #[trigger] buf@[k] == (if k + off < pos {
                                all[k + off]
                            } else {
                                ob[k]
                            }),
                    decreases 512 - j,
                {
                    proof {
                        assert(all.skip(pos as int)[0] == all[pos as int]);
                        assert((block@.skip(j as int) + more + rest)[0] == block[j as int]);
                        assert(all.skip(pos + 1) =~= all.skip(pos as int).drop_first());
                        assert((block@.skip(j as int) + more + rest).drop_first() =~= block@.skip(j + 1) + more + rest);
                    }
                    if pos >= off {
                        buf[pos - off] = block[j];
                    }
                    pos = pos + 1;
                    j = j + 1;
                    if pos == size {
                        proof {
                            let c = old(self).contents();
                            assert(c =~= all.take(size as int));
                            assert forall|k: int| 0 <= k < want implies #[trigger] buf@[k] == c[k + off] by {
                                assert(buf@[k] == all[k + off]);
                            }
                            assert(buf@.take(want as int) =~= c.subrange(off as int, off + want));
                        }
                        self.offset = size;
                        proof {
                            assert(buf@.skip(want as int) =~= ob.skip(want as int));
                        }
                        return Ok(want);
                    }
                }
                proof {
                    assert(block@.skip(512) =~= Seq::<u8>::empty());
                    assert(Seq::<u8>::empty() + more + rest =~= more + rest);
                }
                s_i = s_i + 1;
            }
            proof {
                assert(h.sectors_bytes(s_i as int, 0) =~= Seq::<u8>::empty());
                assert(Seq::<u8>::empty() + rest =~= rest);
            }
            let next = if cluster.0 == ROOT_DIR_CLUSTER {
                None
            } else {
                match self.handle.next_cluster(cluster) {
                    Ok(nc) => Some(nc),
                    Err(_) => None,
                }
            };
            match next {
                Some(nc) => {
                    proof {
                        if fuel == 0 {
                            assert(chain.drop_first() =~= Seq::<u32>::empty());
                            assert(rest =~= Seq::<u8>::empty());
                            assert(all.skip(pos as int).len() == 0);
                            assert(false);
                        }
                        assert(chain.drop_first() =~= h.chain_from(nc.0, (fuel - 1) as nat));
                        fuel = (fuel - 1) as nat;
                    }
                    cluster = nc;
                },
                None => {
                    proof {
                        assert(chain.drop_first() =~= Seq::<u32>::empty());
                        assert(rest =~= Seq::<u8>::empty());
                        assert(all.skip(pos as int).len() == 0);
                        assert(false);
                    }
                    return Err(FsError::EndOfFile);
                },
            }
        }
    }
}

/// A FAT16 file system.
pub struct Fat16<D: BlockDevice> {
    pub handle: Fat16Impl<D>,
}

/// An open file together with the metadata that the handle carries.
pub struct FileHandle<'a, D: BlockDevice> {
    pub meta: Metadata,
    pub file: File<'a, D>,
}

pub open spec fn metas_view(v: Seq<Metadata>) -> Seq<(FileType, usize, DirEntryView)> {
    v.map_values(|m: Metadata| meta_view(m))
}

/// The bytes of the path `APP/`, whose metadata every file handle carries.
pub open spec fn app_dir_path() -> Seq<u8> {
    seq![0x41u8, 0x50u8, 0x50u8, 0x2Fu8]
}

impl<D: BlockDevice> Fat16<D> {
    pub fn new(inner: D) -> (r: Self)
        requires
            bpb_signature_ok(inner.block_view(0)),
        ensures
            r.handle.inner == inner,
            r.handle.layout_ok(),
            r.handle.bpb == bpb_of(inner.block_view(0)),
            r.handle.fat_start == r.handle.bpb.reserved_sector_count,
            r.handle.first_root_dir_sector == r.handle.fat_start + r.handle.bpb.fat_count
                * r.handle.bpb.sectors_per_fat,
            r.handle.first_data_sector == r.handle.first_root_dir_sector + (
            r.handle.bpb.root_entries_count * 32 + 512 - 1) / 512,
    {
        Fat16 { handle: Fat16Impl::new(inner) }
    }

    /// Listing a path can be carried out: the walk to its directory and the
    /// directory itself can be read to their ends.
    pub open spec fn read_dir_safe(self, p: Seq<u8>) -> bool {
        &&& self.handle.resolve_safe(root_view(), p)
        &&& (self.handle.resolve_from(root_view(), p) matches Some(d) ==> self.handle.walkable(d.0))
    }

    /// `read_dir_safe` with a bound: every directory that resolving `p`
    /// reads, and the one it ends at, has a chain that ends within `limit`
    /// steps.
    pub open spec fn read_dir_within(self, p: Seq<u8>, limit: nat) -> bool {
        &&& self.handle.resolve_within(root_view(), p, limit)
        &&& (self.handle.resolve_from(root_view(), p) matches Some(d) ==> self.handle.chain_ok(d.0, limit))
    }

    /// The metadata of the shown entries of the directory that a path resolves to.
    pub fn read_dir(&self, path: &str) -> (r: Result<Vec<Metadata>, FsError>)
        requires
            self.handle.layout_ok(),
            self.read_dir_safe(path.spec_bytes()),
        ensures
            self.read_dir_result(path.spec_bytes(), r),
    {
        self.read_dir_bytes(path.as_bytes())
    }

    /// What listing path `p` answers: `FileNotFound` when it does not
    /// resolve, else the metadata of the shown entries of its directory.
    pub open spec fn read_dir_result(self, p: Seq<u8>, r: Result<Vec<Metadata>, FsError>) -> bool {
        match self.handle.resolve_from(root_view(), p) {
            None => r == Err::<Vec<Metadata>, FsError>(FsError::FileNotFound),
            Some(d) => r matches Ok(v) && metas_view(v@) == listing(
                self.handle.dir_entries(d.0),
            ).map_values(|e: DirEntryView| meta_of(e)),
        }
    }

    /// Whether listing the directory at `b` is safe: the volume is laid out
    /// and every directory that the resolution reads, and the one it ends
    /// at, has a chain that ends within `limit` steps.
    pub fn check_read_dir(&self, b: &[u8], limit: usize) -> (r: bool)
        ensures
            r == (self.handle.layout_ok() && self.read_dir_within(b@, limit as nat)),
            r ==> self.handle.layout_ok() && self.read_dir_safe(b@),
    {
        if !self.handle.check_layout() {
            return false;
        }
        assert(b@.subrange(0, b@.len() as int) =~= b@);
        if !self.handle.check_resolve(b, b.len(), limit) {
            return false;
        }
        match self.handle.resolve_prefix(b, b.len()) {
            None => true,
            Some(d) => self.handle.check_chain(d.cluster.0, limit),
        }
    }

    /// `read_dir` on the bytes of a path.
    pub fn read_dir_bytes(&self, b: &[u8]) -> (r: Result<Vec<Metadata>, FsError>)
        requires
            self.handle.layout_ok(),
            self.read_dir_safe(b@),
        ensures
            self.read_dir_result(b@, r),
    {
        assert(b@.subrange(0, b@.len() as int) =~= b@);
        let root = match self.handle.resolve_prefix(b, b.len()) {
            Some(root) => root,
            None => return Err(FsError::FileNotFound),
        };
        let entries = self.handle.iterate_dir(&root);
        let ghost ev = entry_views(entries@);
        let mut ret: Vec<Metadata> = Vec::new();
        let mut i: usize = 0;
        while i < entries.len()
            invariant
                i <= entries@.len(),
                ev == entry_views(entries@),
                metas_view(ret@) == ev.take(i as int).map_values(|e: DirEntryView| meta_of(e)),
            decreases entries@.len() - i,
        {
            let m = Metadata::from_entry(&entries[i]);
            let ghost before = metas_view(ret@);
            ret.push(m);
            proof {
                assert(ev.take(i + 1) =~= ev.take(i as int).push(entries@[i as int]@));
                assert(metas_view(ret@) =~= before.push(meta_view(m)));
                assert(ev.take(i + 1).map_values(|e: DirEntryView| meta_of(e)) =~= ev.take(
                    i as int,
                ).map_values(|e: DirEntryView| meta_of(e)).push(meta_of(entries@[i as int]@)));
            }
            i = i + 1;
        }
        assert(ev.take(entries@.len() as int) =~= ev);
        Ok(ret)
    }

    /// The metadata of the entry a path names (see `metadata_from`).
    pub fn metadata(&self, path: &str) -> (r: Result<Metadata, FsError>)
        requires
            self.handle.layout_ok(),
            self.handle.walk_safe(root_view(), path.spec_bytes()),
        ensures
            meta_result_view(r) == self.handle.metadata_from(
                root_view(),
                path.spec_bytes(),
                Err(FsError::FileNotFound),
            ),
    {
        self.handle.metadata_bytes(path.as_bytes())
    }

    /// The metadata of `metadata`, when the volume can be checked to allow
    /// it (its layout, and every directory that the path reads has a chain
    /// that ends within `limit` steps); `None` when it cannot.
    pub fn metadata_checked(&self, path: &str, limit: usize) -> (r: Option<Result<Metadata, FsError>>)
        ensures
            r is Some <== (self.handle.layout_ok() && self.handle.walk_within(
                root_view(),
                path.spec_bytes(),
                limit as nat,
            )),
            r is Some ==> (self.handle.layout_ok() && self.handle.walk_within(
                root_view(),
                path.spec_bytes(),
                limit as nat,
            )),
            r matches Some(x) ==> meta_result_view(x) == self.handle.metadata_from(
                root_view(),
                path.spec_bytes(),
                Err(FsError::FileNotFound),
            ),
    {
        if !self.handle.check_layout() {
            return None;
        }
        if !self.handle.check_walk(path.as_bytes(), limit) {
            return None;
        }
        Some(self.handle.metadata_bytes(path.as_bytes()))
    }

    /// Whether a path exists (see `exists_from`).
    pub fn exists_path(&self, path: &str) -> (r: Result<bool, FsError>)
        requires
            self.handle.layout_ok(),
            self.handle.walk_safe(root_view(), path.spec_bytes()),
        ensures
            r == Ok::<bool, FsError>(self.handle.exists_from(root_view(), path.spec_bytes())),
    {
        Ok(self.handle.exists_bytes(path.as_bytes()))
    }

    /// The directory in which opening path `p` looks up the file name.
    pub open spec fn open_dir(self, p: Seq<u8>) -> Option<(u32, Option<DirEntryView>)> {
        let q = last_slash(p);
        if q < 0 {
            Some(root_view())
        } else {
            self.handle.resolve_from(root_view(), p.take(q + 1))
        }
    }

    /// The entry that opening path `p` finds, or the error it ends with.
    pub open spec fn open_spec(self, p: Seq<u8>) -> Result<DirEntryView, FsError> {
        match self.open_dir(p) {
            None => Err(FsError::FileNotFound),
            Some(d) => match parse_name_spec(p.skip(last_slash(p) + 1)) {
                Err(e) => Err(FsError::FileNameError(e)),
                Ok(n) => match lookup(self.handle.dir_entries(d.0), n) {
                    Err(x) => Err(x),
                    Ok(e) => if e.is_directory() {
                        Err(FsError::NotAFile)
                    } else {
                        Ok(e)
                    },
                },
            },
        }
    }

    /// Opening path `p` can be carried out: the walk, the directory searched,
    /// and the `APP/` directory whose metadata the handle carries can be read,
    /// and `APP/` exists.
    pub open spec fn open_safe(self, p: Seq<u8>) -> bool {
        &&& last_slash(p) >= 0 ==> self.handle.resolve_safe(root_view(), p.take(last_slash(p) + 1))
        &&& (self.open_dir(p) matches Some(d) ==> self.handle.walkable(d.0))
        &&& self.handle.walk_safe(root_view(), app_dir_path())
        &&& self.handle.metadata_from(root_view(), app_dir_path(), Err(FsError::FileNotFound)) is Ok
    }

    /// `open_safe` with a bound, and what reading the file then needs: every
    /// directory that opening reads, and the file found, has a chain that
    /// ends within `limit` steps, the `APP` directory is there, and the
    /// file's chain holds its size.
    pub open spec fn open_within(self, p: Seq<u8>, limit: nat) -> bool {
        &&& last_slash(p) >= 0 ==> self.handle.resolve_within(root_view(), p.take(last_slash(p) + 1), limit)
        &&& (self.open_dir(p) matches Some(d) ==> self.handle.chain_ok(d.0, limit))
        &&& self.handle.walk_within(root_view(), app_dir_path(), limit)
        &&& self.handle.metadata_from(root_view(), app_dir_path(), Err(FsError::FileNotFound)) is Ok
        &&& (self.open_spec(p) matches Ok(e) ==> self.handle.chain_ok(e.cluster, limit)
            && self.handle.file_bytes(e.cluster).len() >= e.size as usize)
    }

    /// Opens the file at a path: the name after the last `/` is looked up in
    /// the directory before it; a directory is not a file.
    pub fn open_file(&self, path: &str) -> (r: Result<FileHandle<'_, D>, FsError>)
        requires
            self.handle.layout_ok(),
            self.open_safe(path.spec_bytes()),
        ensures
            match self.open_spec(path.spec_bytes()) {
                Ok(e) => r matches Ok(h) && h.file.entry@ == e && h.file.offset == 0
                    && h.file.current_cluster.0 == e.cluster && h.file.handle == &self.handle
                    && meta_result_view(Ok(h.meta)) == self.handle.metadata_from(
                    root_view(),
                    app_dir_path(),
                    Err(FsError::FileNotFound),
                ),
                Err(x) => r matches Err(y) && y == x,
            },
    {
        let b = path.as_bytes();
        let n = b.len();
        let root;
        let name_start;
        match rfind_slash(b) {
            None => {
                root = Fat16Impl::<D>::root_dir();
                name_start = 0;
            },
            Some(pos) => {
                proof {
                    lemma_last_slash(b@);
                }
                let rootu = self.handle.resolve_prefix(b, pos + 1);
                assert(b@.subrange(0, pos + 1) =~= b@.take(pos + 1));
                name_start = pos + 1;
                match rootu {
                    None => return Err(FsError::FileNotFound),
                    Some(d) => {
                        root = d;
                    },
                }
            },
        }
        proof {
            lemma_last_slash(b@);
            assert(b@.subrange(name_start as int, n as int) =~= b@.skip(last_slash(b@) + 1));
        }
        let dir_entry = match self.handle.find_directory_entry_bytes(&root, b, name_start, n) {
            Ok(e) => e,
            Err(x) => return Err(x),
        };
        if dir_entry.is_directory() {
            return Err(FsError::NotAFile);
        }
        let file = File::new(&self.handle, dir_entry);
        let app: [u8; 4] = [0x41u8, 0x50u8, 0x50u8, 0x2Fu8];
        let app_s = app.as_slice();
        assert(app_s@ =~= app_dir_path());
        let meta = match self.handle.metadata_bytes(app_s) {
            Ok(m) => m,
            Err(_) => {
                assert(false);
                Metadata::from_entry(&dir_entry)
            },
        };
        Ok(FileHandle { meta, file })
    }

    /// Whether opening and reading the file at `b` is safe: the volume is
    /// laid out, every directory that opening reads has a chain that ends
    /// within `limit` steps, the `APP` directory is there, and the file that
    /// opening finds has a chain that ends and holds its size.
    pub fn check_open(&self, b: &[u8], limit: usize) -> (r: bool)
        ensures
            r == (self.handle.layout_ok() && self.open_within(b@, limit as nat)),
            r ==> {
                &&& self.handle.layout_ok()
                &&& self.open_safe(b@)
                &&& self.open_spec(b@) matches Ok(e) ==> self.handle.walkable(e.cluster)
                    && self.handle.file_bytes(e.cluster).len() >= e.size as usize
            },
    {
        if !self.handle.check_layout() {
            return false;
        }
        let n = b.len();
        let app: [u8; 4] = [0x41u8, 0x50u8, 0x50u8, 0x2Fu8];
        let app_s = app.as_slice();
        assert(app_s@ =~= app_dir_path());
        if !self.handle.check_walk(app_s, limit) {
            return false;
        }
        if self.handle.metadata_bytes(app_s).is_err() {
            return false;
        }
        let root;
        let name_start;
        proof {
            lemma_last_slash(b@);
        }
        match rfind_slash(b) {
            None => {
                root = Fat16Impl::<D>::root_dir();
                name_start = 0;
            },
            Some(pos) => {
                assert(b@.subrange(0, pos + 1) =~= b@.take(pos + 1));
                if !self.handle.check_resolve(b, pos + 1, limit) {
                    return false;
                }
                name_start = pos + 1;
                match self.handle.resolve_prefix(b, pos + 1) {
                    None => {
                        return true;
                    },
                    Some(d) => {
                        root = d;
                    },
                }
            },
        }
        if !self.handle.check_chain(root.cluster.0, limit) {
            return false;
        }
        assert(b@.subrange(name_start as int, n as int) =~= b@.skip(last_slash(b@) + 1));
        match self.handle.find_directory_entry_bytes(&root, b, name_start, n) {
            Err(_) => true,
            Ok(e) => {
                if e.is_directory() {
                    return true;
                }
                if !self.handle.check_chain(e.cluster.0, limit) {
                    return false;
                }
                self.handle.check_chain_holds(e.cluster.0, e.size as usize)
            },
        }
    }
}

} // verus!
