//! The kernel's root file system: mounting the FAT16 volume once, listing
//! directories and reading whole files for the system calls.
use vstd::prelude::*;
use vstd::string::StringSliceAdditionalSpecFns;
use crate::fat16::{bpb_of, bpb_signature_ok, short_name_text, BlockDevice, FsError, ROOT_DIR_CLUSTER};
use crate::fat16_fs::{root_view, Fat16, FileHandle, FileType, Metadata};
use crate::fat16_impl::Fat16Impl;
use crate::fat16::DirEntryView;

verus! {

/// The mounted root file system, set once.
pub struct RootFs<D: BlockDevice> {
    pub mount: Option<Fat16<D>>,
}

impl<D: BlockDevice> RootFs<D> {
    /// Nothing mounted yet.
    pub fn new() -> (r: Self)
        ensures
            r.mount is None,
    {
        RootFs { mount: None }
    }

    /// Mounts the FAT16 volume on `part` as the root file system; once a
    /// volume is mounted, later calls change nothing.
    pub fn init(&mut self, part: D)
        requires
            bpb_signature_ok(part.block_view(0)),
        ensures
            old(self).mount is Some ==> final(self).mount == old(self).mount,
            old(self).mount is None ==> (final(self).mount matches Some(f) && f.handle.inner == part
                && f.handle.layout_ok() && f.handle.bpb == bpb_of(part.block_view(0))),
    {
        if self.mount.is_none() {
            self.mount = Some(Fat16::new(part));
        }
    }

    /// The mounted root file system.
    pub fn get_rootfs(&self) -> (r: &Fat16<D>)
        requires
            self.mount is Some,
        ensures
            *r == self.mount.unwrap(),
    {
        match &self.mount {
            Some(f) => f,
            None => {
                assert(false);
                unreached()
            },
        }
    }
}

/// The path that `ls` lists: the path given, with a `/` added unless it
/// ends with one.
pub open spec fn ls_path(p: Seq<u8>) -> Seq<u8> {
    if p.len() > 0 && p.last() == 0x2Fu8 {
        p
    } else {
        p.push(0x2Fu8)
    }
}

/// The bytes of `ls_path` for a path.
pub fn ls_path_bytes(root_path: &str) -> (r: Vec<u8>)
    ensures
        r@ == ls_path(root_path.spec_bytes()),
{
    let b = root_path.as_bytes();
    let mut v: Vec<u8> = Vec::new();
    let mut i: usize = 0;
    while i < b.len()
        invariant
            i <= b@.len(),
            v@ == b@.take(i as int),
        decreases b@.len() - i,
    {
        v.push(b[i]);
        i = i + 1;
        assert(v@ =~= b@.take(i as int));
    }
    assert(b@.take(b@.len() as int) =~= b@);
    if b.len() == 0 || b[b.len() - 1] != 0x2Fu8 {
        v.push(0x2Fu8);
    }
    v
}

/// The directory listing that `ls` shows for a path: the metadata of the
/// entries of `ls_path` of it (see `Fat16::read_dir_result`).
pub fn list_dir<D: BlockDevice>(fs: &Fat16<D>, root_path: &str) -> (r: Result<Vec<Metadata>, FsError>)
    requires
        fs.handle.layout_ok(),
        fs.read_dir_safe(ls_path(root_path.spec_bytes())),
    ensures
        fs.read_dir_result(ls_path(root_path.spec_bytes()), r),
{
    let p = ls_path_bytes(root_path);
    fs.read_dir_bytes(p.as_slice())
}

/// A cluster chain of a FAT16 volume that ends visits each of the at most
/// 65536 clusters once, so it ends within this many steps.
pub const FAT16_CHAIN_LIMIT: usize = 65536;

/// The directory listing of `list_dir`, when the volume can be checked to
/// allow it (its layout, and every directory that the path reads has a
/// chain that ends); `None` when it cannot.
pub fn list_dir_checked<D: BlockDevice>(fs: &Fat16<D>, root_path: &str) -> (r: Option<Result<Vec<Metadata>, FsError>>)
    ensures
        r is Some <== (fs.handle.layout_ok() && fs.read_dir_within(
            ls_path(root_path.spec_bytes()),
            FAT16_CHAIN_LIMIT as nat,
        )),
        r is Some ==> (fs.handle.layout_ok() && fs.read_dir_within(
            ls_path(root_path.spec_bytes()),
            FAT16_CHAIN_LIMIT as nat,
        )),
        r matches Some(x) ==> fs.read_dir_result(ls_path(root_path.spec_bytes()), x),
{
    let p = ls_path_bytes(root_path);
    if fs.check_read_dir(p.as_slice(), FAT16_CHAIN_LIMIT) {
        Some(fs.read_dir_bytes(p.as_slice()))
    } else {
        None
    }
}

/// The word `ls` shows for the type of an entry.
pub fn entry_type_name(t: FileType) -> (s: &'static str)
    ensures
        t == FileType::File ==> s@ == "file"@,
        t == FileType::Directory ==> s@ == "directory"@,
{
    match t {
        FileType::File => "file",
        FileType::Directory => "directory",
    }
}

/// The name `ls` shows for an entry: its short name, with `/` after the
/// name of a directory.
pub fn listing_name(meta: &Metadata) -> (r: Vec<u8>)
    ensures
        r@ == short_name_text(meta.entry.filename.name@, meta.entry.filename.ext@) + (if meta.entry_type
            == FileType::Directory {
            seq![0x2Fu8]
        } else {
            Seq::<u8>::empty()
        }),
{
    let mut r = meta.entry.filename.text();
    let ghost t = r@;
    match meta.entry_type {
        FileType::Directory => {
            r.push(0x2Fu8);
        },
        FileType::File => {
            assert(r@ =~= t + Seq::<u8>::empty());
        },
    }
    r
}

/// Opens the file at `path` on the root file system (see `Fat16::open_file`).
pub fn try_get_file<'a, D: BlockDevice>(fs: &'a Fat16<D>, path: &str) -> (r: Result<FileHandle<'a, D>, FsError>)
    requires
        fs.handle.layout_ok(),
        fs.open_safe(path.spec_bytes()),
    ensures
        match fs.open_spec(path.spec_bytes()) {
            Ok(e) => r matches Ok(h) && h.file.entry@ == e && h.file.offset == 0
                && h.file.current_cluster.0 == e.cluster && h.file.handle == &fs.handle,
            Err(x) => r matches Err(y) && y == x,
        },
{
    fs.open_file(path)
}

/// The contents of the file of entry `e`: its size in bytes from the
/// clusters that the table chains from its first cluster.
pub open spec fn entry_contents<D: BlockDevice>(h: Fat16Impl<D>, e: DirEntryView) -> Seq<u8> {
    h.first_bytes(e.cluster, e.size as usize as nat)
}

/// The file of entry `e` can be read: the first clusters of its chain are
/// addressable and hold at least the file's size.
pub open spec fn entry_readable<D: BlockDevice>(h: Fat16Impl<D>, e: DirEntryView) -> bool {
    h.holds_size(e.cluster, e.size as usize as nat)
}

/// What reading the file at path `p` into a buffer of `n` bytes answers, and
/// the bytes it leaves at the front of the buffer.
pub open spec fn read_file_spec<D: BlockDevice>(fs: Fat16<D>, p: Seq<u8>, n: nat) -> Result<(usize, Seq<u8>), FsError> {
    match fs.open_spec(p) {
        Err(x) => Err(x),
        Ok(e) => if n < e.size as usize {
            Err(FsError::InvalidOperation)
        } else {
            Ok((e.size as usize, entry_contents(fs.handle, e)))
        },
    }
}

/// Reads the whole file at `path` into the front of `buf`, and answers its
/// length; the rest of `buf` is left as it was, and all of it on an error.
pub fn read_file<D: BlockDevice>(fs: &Fat16<D>, path: &str, buf: &mut [u8]) -> (r: Result<usize, FsError>)
    requires
        fs.handle.layout_ok(),
        fs.open_safe(path.spec_bytes()),
        fs.open_spec(path.spec_bytes()) matches Ok(e) ==> (old(buf)@.len() >= e.size as usize ==> entry_readable(
            fs.handle,
            e,
        )),
    ensures
        final(buf)@.len() == old(buf)@.len(),
        match read_file_spec(*fs, path.spec_bytes(), old(buf)@.len()) {
            Err(x) => r == Err::<usize, FsError>(x) && final(buf)@ == old(buf)@,
            Ok((len, data)) => r == Ok::<usize, FsError>(len) && final(buf)@.take(len as int) == data
                && final(buf)@.skip(len as int) == old(buf)@.skip(len as int),
        },
{
    let file = try_get_file(fs, path);
    let mut file = match file {
        Ok(file) => file,
        Err(err) => return Err(err),
    };
    let ghost e = file.file.entry@;
    assert(file.file.contents() == entry_contents(fs.handle, e));
    file.file.read(buf)
}

/// The `cat` system call: the length of the file at `path` read into `buf`,
/// or 0 when it cannot be read.
pub fn sys_cat<D: BlockDevice>(fs: &Fat16<D>, path: &str, buf: &mut [u8]) -> (n: usize)
    requires
        fs.handle.layout_ok(),
        fs.open_safe(path.spec_bytes()),
        fs.open_spec(path.spec_bytes()) matches Ok(e) ==> (old(buf)@.len() >= e.size as usize ==> entry_readable(
            fs.handle,
            e,
        )),
    ensures
        final(buf)@.len() == old(buf)@.len(),
        match read_file_spec(*fs, path.spec_bytes(), old(buf)@.len()) {
            Err(x) => n == 0 && final(buf)@ == old(buf)@,
            Ok((len, data)) => n == len && final(buf)@.take(len as int) == data,
        },
{
    match read_file(fs, path, buf) {
        Ok(len) => len,
        Err(_) => 0,
    }
}

/// The `cat` system call when the volume can be checked to allow it (see
/// `Fat16::check_open`); `None`, with `buf` untouched, when it cannot.
pub fn sys_cat_checked<D: BlockDevice>(fs: &Fat16<D>, path: &str, buf: &mut [u8]) -> (r: Option<usize>)
    ensures
        r is Some <== (fs.handle.layout_ok() && fs.open_within(path.spec_bytes(), FAT16_CHAIN_LIMIT as nat)),
        r is Some ==> (fs.handle.layout_ok() && fs.open_within(path.spec_bytes(), FAT16_CHAIN_LIMIT as nat)),
        final(buf)@.len() == old(buf)@.len(),
        r is None ==> final(buf)@ == old(buf)@,
        r matches Some(n) ==> match read_file_spec(*fs, path.spec_bytes(), old(buf)@.len()) {
            Err(x) => n == 0 && final(buf)@ == old(buf)@,
            Ok((len, data)) => n == len && final(buf)@.take(len as int) == data,
        },
{
    if fs.check_open(path.as_bytes(), FAT16_CHAIN_LIMIT) {
        proof {
            if let Ok(e) = fs.open_spec(path.spec_bytes()) {
                fs.handle.lemma_walkable_holds(e.cluster, e.size as usize as nat);
            }
        }
        Some(sys_cat(fs, path, buf))
    } else {
        None
    }
}

} // verus!
