//! The FAT16 on-disk layout: the boot parameter block, short file names,
//! directory entries, clusters, and the block device they are read from.
use vstd::prelude::*;
use vstd::string::StringSliceAdditionalSpecFns;

verus! {

/// Bytes in one block (sector) of the device.
pub const BLOCK_SIZE: usize = 512;

/// Bytes in one directory entry.
pub const DIR_ENTRY_LEN: usize = 32;

/// Directory entries in one block.
pub const ENTRIES_PER_BLOCK: usize = 16;

/// A device that hands out blocks of 512 bytes.
pub trait BlockDevice {
    /// The contents of the block at `offset`.
    spec fn block_view(&self, offset: usize) -> Seq<u8>;

    /// Reads the block at `offset` into `block`.
    fn read_block(&self, offset: usize, block: &mut [u8; 512])
        ensures
            final(block)@ == self.block_view(offset),
    ;
}

/// A block device held in memory: block `i` is the `i`-th array of
/// `blocks`, and a block past the end reads as zeros.
pub struct MemDisk {
    pub blocks: Vec<[u8; 512]>,
}

impl MemDisk {
    /// The device whose blocks are `blocks`, in order.
    pub fn new(blocks: Vec<[u8; 512]>) -> (d: MemDisk)
        ensures
            d.blocks@ == blocks@,
    {
        MemDisk { blocks }
    }

    /// The number of blocks held.
    pub fn len(&self) -> (n: usize)
        ensures
            n == self.blocks@.len(),
    {
        self.blocks.len()
    }
}

impl BlockDevice for MemDisk {
    open spec fn block_view(&self, offset: usize) -> Seq<u8> {
        if offset < self.blocks@.len() {
            self.blocks@[offset as int]@
        } else {
            Seq::new(512, |i: int| 0u8)
        }
    }

    fn read_block(&self, offset: usize, block: &mut [u8; 512]) {
        if offset < self.blocks.len() {
            *block = self.blocks[offset];
        } else {
            *block = [0u8; 512];
            assert(block@ =~= Seq::new(512, |i: int| 0u8));
        }
    }
}

/// Errors of the file system.
#[derive(PartialEq, Eq, Structural, Clone, Copy, Debug)]
pub enum FsError {
    FileNotFound,
    NotAFile,
    NotADirectory,
    EndOfFile,
    InvalidOperation,
    NotInSector,
    BadCluster,
    BadBootSector,
    FileNameError(FilenameError),
}

/// Why a string is not a valid short (8.3) file name.
#[derive(PartialEq, Eq, Structural, Clone, Copy, Debug)]
pub enum FilenameError {
    InvalidCharacter,
    FilenameEmpty,
    NameTooLong,
    MisplacedPeriod,
}

/// A cluster number; a few values are reserved as markers.
#[derive(PartialEq, Eq, Structural, Clone, Copy, Debug)]
pub struct Cluster(pub u32);

/// The cluster number that marks the root directory, which lives outside the data region.
pub const ROOT_DIR_CLUSTER: u32 = 0xFFFF_FFFC;

/// Little-endian 16-bit value at `i` in `b`.
pub open spec fn le16(b: Seq<u8>, i: int) -> u16 {
    (b[i] + 256 * b[i + 1]) as u16
}

/// Little-endian 32-bit value at `i` in `b`.
pub open spec fn le32(b: Seq<u8>, i: int) -> u32 {
    (b[i] + 256 * b[i + 1] + 65536 * b[i + 2] + 16777216 * b[i + 3]) as u32
}

fn read_le16(b: &[u8; 512], i: usize) -> (r: u16)
    requires
        i + 1 < 512,
    ensures
        r == le16(b@, i as int),
{
    b[i] as u16 + (b[i + 1] as u16) * 256
}

fn read_le16_slice(b: &[u8], i: usize) -> (r: u16)
    requires
        i + 1 < b@.len(),
    ensures
        r == le16(b@, i as int),
{
    b[i] as u16 + (b[i + 1] as u16) * 256
}

fn read_le32_slice(b: &[u8], i: usize) -> (r: u32)
    requires
        i + 3 < b@.len(),
    ensures
        r == le32(b@, i as int),
{
    b[i] as u32 + (b[i + 1] as u32) * 256 + (b[i + 2] as u32) * 65536 + (b[i + 3] as u32)
        * 16777216
}

/// The fields of the boot parameter block that the reader uses.
#[derive(Clone, Copy, Debug)]
pub struct Fat16Bpb {
    pub sectors_per_cluster: u8,
    pub reserved_sector_count: u16,
    pub fat_count: u8,
    pub root_entries_count: u16,
    pub sectors_per_fat: u16,
}

/// A boot sector ends with the signature 0x55 0xAA.
pub open spec fn bpb_signature_ok(b: Seq<u8>) -> bool {
    b[510] == 0x55 && b[511] == 0xAA
}

/// Whether the first block of a device ends with the boot sector signature,
/// which mounting a volume demands.
pub fn bpb_signature_present<D: BlockDevice>(dev: &D) -> (b: bool)
    ensures
        b == bpb_signature_ok(dev.block_view(0)),
{
    let mut block = [0u8; 512];
    dev.read_block(0, &mut block);
    block[510] == 0x55 && block[511] == 0xAA
}

/// The boot parameter block that a valid boot sector `b` describes.
pub open spec fn bpb_of(b: Seq<u8>) -> Fat16Bpb {
    Fat16Bpb {
        sectors_per_cluster: b[13],
        reserved_sector_count: le16(b, 14),
        fat_count: b[16],
        root_entries_count: le16(b, 17),
        sectors_per_fat: le16(b, 22),
    }
}

impl Fat16Bpb {
    /// Reads the boot parameter block from the boot sector; fails unless the
    /// sector carries the boot signature.
    pub fn new(data: &[u8; 512]) -> (r: Result<Fat16Bpb, FsError>)
        ensures
            bpb_signature_ok(data@) ==> r == Ok::<Fat16Bpb, FsError>(bpb_of(data@)),
            !bpb_signature_ok(data@) ==> r == Err::<Fat16Bpb, FsError>(FsError::BadBootSector),
    {
        if data[510] == 0x55 && data[511] == 0xAA {
            Ok(
                Fat16Bpb {
                    sectors_per_cluster: data[13],
                    reserved_sector_count: read_le16(data, 14),
                    fat_count: data[16],
                    root_entries_count: read_le16(data, 17),
                    sectors_per_fat: read_le16(data, 22),
                },
            )
        } else {
            Err(FsError::BadBootSector)
        }
    }
}

/// An 8.3 file name as stored in a directory entry, padded with spaces.
#[derive(Clone, Copy, Debug)]
pub struct ShortFileName {
    pub name: [u8; 8],
    pub ext: [u8; 3],
}

/// `s` without its trailing spaces.
pub open spec fn trim_spaces(s: Seq<u8>) -> Seq<u8>
    decreases s.len(),
{
    if s.len() > 0 && s.last() == 0x20u8 {
        trim_spaces(s.drop_last())
    } else {
        s
    }
}

/// How a short name is shown: the name without its padding, then a dot and
/// the extension when there is one.
pub open spec fn short_name_text(name: Seq<u8>, ext: Seq<u8>) -> Seq<u8> {
    if trim_spaces(ext).len() == 0 {
        trim_spaces(name)
    } else {
        trim_spaces(name).push(0x2Eu8) + trim_spaces(ext)
    }
}

/// The bytes of `s[..n]` without trailing spaces, appended to `out`.
fn push_trimmed(out: &mut Vec<u8>, s: &[u8], n: usize)
    requires
        n <= s@.len(),
    ensures
        final(out)@ == old(out)@ + trim_spaces(s@.take(n as int)),
{
    let mut k = n;
    while k > 0 && s[k - 1] == 0x20u8
        invariant
            k <= n <= s@.len(),
            trim_spaces(s@.take(n as int)) == trim_spaces(s@.take(k as int)),
        decreases k,
    {
        assert(s@.take(k as int).drop_last() =~= s@.take(k - 1));
        k = k - 1;
    }
    assert(trim_spaces(s@.take(k as int)) == s@.take(k as int));
    let mut i: usize = 0;
    while i < k
        invariant
            i <= k <= n <= s@.len(),
            final_ok(out@, old(out)@, s@, i as int),
        decreases k - i,
    {
        out.push(s[i]);
        i = i + 1;
        assert(out@ =~= old(out)@ + s@.take(i as int));
    }
}

spec fn final_ok(now: Seq<u8>, before: Seq<u8>, s: Seq<u8>, i: int) -> bool {
    now == before + s.take(i)
}

impl ShortFileName {
    /// The name as it is shown (see `short_name_text`).
    pub fn text(&self) -> (r: Vec<u8>)
        ensures
            r@ == short_name_text(self.name@, self.ext@),
    {
        let mut out: Vec<u8> = Vec::new();
        assert(self.name@.take(8) =~= self.name@);
        assert(self.ext@.take(3) =~= self.ext@);
        push_trimmed(&mut out, self.name.as_slice(), 8);
        let mut ext: Vec<u8> = Vec::new();
        push_trimmed(&mut ext, self.ext.as_slice(), 3);
        assert(ext@ =~= trim_spaces(self.ext@));
        if ext.len() > 0 {
            out.push(0x2Eu8);
            let mut i: usize = 0;
            let ghost base = out@;
            while i < ext.len()
                invariant
                    i <= ext@.len(),
                    out@ == base + ext@.take(i as int),
                decreases ext@.len() - i,
            {
                out.push(ext[i]);
                i = i + 1;
                assert(out@ =~= base + ext@.take(i as int));
            }
            assert(ext@.take(ext@.len() as int) =~= ext@);
        }
        assert(out@ =~= short_name_text(self.name@, self.ext@));
        out
    }
}

/// Bytes that may not stand in a short file name.
pub open spec fn is_invalid_name_byte(c: u8) -> bool {
    c <= 0x20 || c == 0x22 || c == 0x2A || c == 0x2B || c == 0x2C || c == 0x2F || c == 0x3A || c
        == 0x3B || c == 0x3C || c == 0x3D || c == 0x3E || c == 0x3F || c == 0x5B || c == 0x5C || c
        == 0x5D || c == 0x7C
}

pub open spec fn ascii_upper(c: u8) -> u8 {
    if 0x61 <= c <= 0x7A {
        (c - 32) as u8
    } else {
        c
    }
}

/// The state of the short-name parser: the name and extension so far, the
/// position, and whether a period has been read.
pub struct NameState {
    pub name: Seq<u8>,
    pub ext: Seq<u8>,
    pub idx: int,
    pub seen_dot: bool,
}

pub open spec fn name_state_init() -> NameState {
    NameState { name: Seq::new(8, |i: int| 0x20u8), ext: Seq::new(3, |i: int| 0x20u8), idx: 0, seen_dot: false }
}

/// One byte of the short-name parser.
pub open spec fn name_step(st: NameState, c: u8) -> Result<NameState, FilenameError> {
    if is_invalid_name_byte(c) {
        Err(FilenameError::InvalidCharacter)
    } else if c == 0x2E {
        if 1 <= st.idx <= 8 {
            Ok(NameState { seen_dot: true, idx: 8, ..st })
        } else {
            Err(FilenameError::MisplacedPeriod)
        }
    } else if st.seen_dot {
        if 8 <= st.idx < 11 {
            Ok(NameState { ext: st.ext.update(st.idx - 8, ascii_upper(c)), idx: st.idx + 1, ..st })
        } else {
            Err(FilenameError::NameTooLong)
        }
    } else if st.idx < 8 {
        Ok(NameState { name: st.name.update(st.idx, ascii_upper(c)), idx: st.idx + 1, ..st })
    } else {
        Err(FilenameError::NameTooLong)
    }
}

/// The parser state after the bytes `s`, or the first error.
pub open spec fn name_run(s: Seq<u8>) -> Result<NameState, FilenameError>
    decreases s.len(),
{
    if s.len() == 0 {
        Ok(name_state_init())
    } else {
        match name_run(s.drop_last()) {
            Ok(st) => name_step(st, s.last()),
            Err(e) => Err(e),
        }
    }
}

/// The short file name that the bytes `s` denote, or why they denote none.
pub open spec fn parse_name_spec(s: Seq<u8>) -> Result<(Seq<u8>, Seq<u8>), FilenameError> {
    match name_run(s) {
        Ok(st) => if st.idx == 0 {
            Err(FilenameError::FilenameEmpty)
        } else {
            Ok((st.name, st.ext))
        },
        Err(e) => Err(e),
    }
}

impl ShortFileName {
    /// The end-of-directory marker: a name whose first bytes are zero.
    pub open spec fn spec_is_eod(self) -> bool {
        self.name@[0] == 0 && self.ext@[0] == 0
    }

    /// A deleted entry.
    pub open spec fn spec_is_unused(self) -> bool {
        self.name@[0] == 0xE5
    }

    pub fn is_eod(&self) -> (b: bool)
        ensures
            b == self.spec_is_eod(),
    {
        self.name[0] == 0 && self.ext[0] == 0
    }

    pub fn is_unused(&self) -> (b: bool)
        ensures
            b == self.spec_is_unused(),
    {
        self.name[0] == 0xE5
    }

    /// Whether two names are equal.
    pub fn matches(&self, other: &ShortFileName) -> (b: bool)
        ensures
            b == (self.name@ == other.name@ && self.ext@ == other.ext@),
    {
        let mut i: usize = 0;
        while i < 8
            invariant
                i <= 8,
                forall|k: int| 0 <= k < i ==> self.name@[k] == other.name@[k],
            decreases 8 - i,
        {
            if self.name[i] != other.name[i] {
                return false;
            }
            i = i + 1;
        }
        let mut j: usize = 0;
        while j < 3
            invariant
                j <= 3,
                forall|k: int| 0 <= k < 8 ==> self.name@[k] == other.name@[k],
                forall|k: int| 0 <= k < j ==> self.ext@[k] == other.ext@[k],
            decreases 3 - j,
        {
            if self.ext[j] != other.ext[j] {
                return false;
            }
            j = j + 1;
        }
        assert(self.name@ =~= other.name@);
        assert(self.ext@ =~= other.ext@);
        true
    }

    /// Parses the bytes `s[start..end]` as an 8.3 name: upper-cased, padded
    /// with spaces, with at most one period after one to eight name bytes.
    pub fn parse_bytes(s: &[u8], start: usize, end: usize) -> (r: Result<ShortFileName, FsError>)
        requires
            start <= end <= s@.len(),
        ensures
            match parse_name_spec(s@.subrange(start as int, end as int)) {
                Ok(p) => r matches Ok(sfn) && sfn@ == p,
                Err(e) => r == Err::<ShortFileName, FsError>(FsError::FileNameError(e)),
            },
    {
        let mut name: [u8; 8] = [0x20u8; 8];
        let mut ext: [u8; 3] = [0x20u8; 3];
        let mut idx: usize = 0;
        let mut seen_dot = false;
        let mut k = start;
        proof {
            assert(s@.subrange(start as int, start as int) =~= Seq::<u8>::empty());
            assert(name@ =~= name_state_init().name);
            assert(ext@ =~= name_state_init().ext);
        }
        while k < end
            invariant
                start <= k <= end <= s@.len(),
                idx <= 11,
                name_run(s@.subrange(start as int, k as int)) == Ok::<NameState, FilenameError>(
                    NameState { name: name@, ext: ext@, idx: idx as int, seen_dot },
                ),
            decreases end - k,
        {
            let c = s[k];
            let ghost st = NameState { name: name@, ext: ext@, idx: idx as int, seen_dot };
            proof {
                let sub = s@.subrange(start as int, k + 1);
                assert(sub.drop_last() =~= s@.subrange(start as int, k as int));
                assert(sub.last() == c);
            }
            if c <= 0x20 || c == 0x22 || c == 0x2A || c == 0x2B || c == 0x2C || c == 0x2F || c
                == 0x3A || c == 0x3B || c == 0x3C || c == 0x3D || c == 0x3E || c == 0x3F || c == 0x5B
                || c == 0x5C || c == 0x5D || c == 0x7C {
                proof {
                    lemma_name_run_err_sticks(s@, start as int, k + 1, end as int);
                }
                return Err(FsError::FileNameError(FilenameError::InvalidCharacter));
            }
            let up = if 0x61 <= c && c <= 0x7A {
                c - 32
            } else {
                c
            };
            if c == 0x2E {
                if 1 <= idx && idx <= 8 {
                    seen_dot = true;
                    idx = 8;
                } else {
                    proof {
                        lemma_name_run_err_sticks(s@, start as int, k + 1, end as int);
                    }
                    return Err(FsError::FileNameError(FilenameError::MisplacedPeriod));
                }
            } else if seen_dot {
                if 8 <= idx && idx < 11 {
                    ext[idx - 8] = up;
                    idx = idx + 1;
                } else {
                    proof {
                        lemma_name_run_err_sticks(s@, start as int, k + 1, end as int);
                    }
                    return Err(FsError::FileNameError(FilenameError::NameTooLong));
                }
            } else if idx < 8 {
                name[idx] = up;
                idx = idx + 1;
            } else {
                proof {
                    lemma_name_run_err_sticks(s@, start as int, k + 1, end as int);
                }
                return Err(FsError::FileNameError(FilenameError::NameTooLong));
            }
            proof {
                let n2 = NameState { name: name@, ext: ext@, idx: idx as int, seen_dot };
                assert(name_step(st, c) == Ok::<NameState, FilenameError>(n2));
            }
            k = k + 1;
        }
        if idx == 0 {
            return Err(FsError::FileNameError(FilenameError::FilenameEmpty));
        }
        Ok(ShortFileName { name, ext })
    }

    /// Parses a string as an 8.3 name (see `parse_bytes`).
    pub fn parse(name: &str) -> (r: Result<ShortFileName, FsError>)
        ensures
            match parse_name_spec(name.spec_bytes()) {
                Ok(p) => r matches Ok(sfn) && sfn@ == p,
                Err(e) => r == Err::<ShortFileName, FsError>(FsError::FileNameError(e)),
            },
    {
        let b = name.as_bytes();
        assert(b@.subrange(0, b@.len() as int) =~= b@);
        ShortFileName::parse_bytes(b, 0, b.len())
    }
}

proof fn lemma_name_run_err_sticks(s: Seq<u8>, start: int, k: int, end: int)
    requires
        0 <= start <= k <= end <= s.len(),
        name_run(s.subrange(start, k)) is Err,
    ensures
        name_run(s.subrange(start, end)) == name_run(s.subrange(start, k)),
    decreases end - k,
{
    if k < end {
        let sub = s.subrange(start, end);
        assert(sub.drop_last() =~= s.subrange(start, end - 1));
        lemma_name_run_err_sticks(s, start, k, end - 1);
    }
}

/// A byte that the short-name parser stores: valid, not a period, and
/// already upper case.
pub open spec fn stored_byte(c: u8) -> bool {
    !is_invalid_name_byte(c) && c != 0x2E && ascii_upper(c) == c
}

/// `n` spaces.
pub open spec fn space_pad(n: int) -> Seq<u8> {
    Seq::new(if n > 0 { n as nat } else { 0 }, |i: int| 0x20u8)
}

/// Stored bytes followed by space padding up to `w` bytes.
pub open spec fn padded_field(f: Seq<u8>, p: Seq<u8>, w: int) -> bool {
    &&& p.len() <= w
    &&& forall|i: int| 0 <= i < p.len() ==> stored_byte(#[trigger] p[i])
    &&& f == p + space_pad(w - p.len())
}

/// What every state the parser reaches looks like.
pub open spec fn reachable_state(st: NameState) -> bool {
    if !st.seen_dot {
        &&& 0 <= st.idx <= 8
        &&& padded_field(st.name, st.name.take(st.idx), 8)
        &&& st.ext == space_pad(3)
    } else {
        &&& 8 <= st.idx <= 11
        &&& padded_field(st.ext, st.ext.take(st.idx - 8), 3)
        &&& exists|k: int| 1 <= k <= 8 && #[trigger] padded_field(st.name, st.name.take(k), 8)
    }
}

proof fn lemma_upper_stored(c: u8)
    requires
        !is_invalid_name_byte(c),
        c != 0x2E,
    ensures
        stored_byte(ascii_upper(c)),
{
}

proof fn lemma_name_run_reachable(s: Seq<u8>)
    ensures
        name_run(s) matches Ok(st) ==> reachable_state(st),
    decreases s.len(),
{
    if s.len() == 0 {
        let st = name_state_init();
        assert(st.name.take(0) + space_pad(8) =~= st.name);
        assert(st.ext =~= space_pad(3));
    } else {
        lemma_name_run_reachable(s.drop_last());
        match name_run(s.drop_last()) {
            Ok(st) => {
                let c = s.last();
                if !is_invalid_name_byte(c) {
                    if c == 0x2E {
                        if 1 <= st.idx <= 8 {
                            let k = st.idx;
                            let n = NameState { seen_dot: true, idx: 8, ..st };
                            if !st.seen_dot {
                                assert(padded_field(n.name, n.name.take(k), 8));
                            }
                            assert(n.ext.take(0) + space_pad(3) =~= n.ext);
                        }
                    } else if st.seen_dot {
                        if 8 <= st.idx < 11 {
                            lemma_upper_stored(c);
                            let j = st.idx - 8;
                            let n = NameState { ext: st.ext.update(j, ascii_upper(c)), idx: st.idx + 1, ..st };
                            assert(n.ext.take(j + 1) =~= st.ext.take(j).push(ascii_upper(c)));
                            assert(n.ext =~= n.ext.take(j + 1) + space_pad(3 - (j + 1)));
                            let k = choose|k: int| 1 <= k <= 8 && #[trigger] padded_field(st.name, st.name.take(k), 8);
                            assert(padded_field(n.name, n.name.take(k), 8));
                        }
                    } else if st.idx < 8 {
                        lemma_upper_stored(c);
                        let j = st.idx;
                        let n = NameState { name: st.name.update(j, ascii_upper(c)), idx: st.idx + 1, ..st };
                        assert(n.name.take(j + 1) =~= st.name.take(j).push(ascii_upper(c)));
                        assert(n.name =~= n.name.take(j + 1) + space_pad(8 - (j + 1)));
                    }
                }
            },
            Err(_) => {},
        }
    }
}

proof fn lemma_trim_padded(p: Seq<u8>, w: int)
    requires
        p.len() <= w,
        forall|i: int| 0 <= i < p.len() ==> stored_byte(#[trigger] p[i]),
    ensures
        trim_spaces(p + space_pad(w - p.len())) == p,
    decreases w - p.len(),
{
    let f = p + space_pad(w - p.len());
    if w > p.len() {
        assert(f.drop_last() =~= p + space_pad(w - 1 - p.len()));
        lemma_trim_padded(p, w - 1);
    } else {
        assert(f =~= p);
        if p.len() > 0 {
            assert(stored_byte(p[p.len() - 1]));
        }
    }
}

proof fn lemma_name_run_plain(p: Seq<u8>)
    requires
        p.len() <= 8,
        forall|i: int| 0 <= i < p.len() ==> stored_byte(#[trigger] p[i]),
    ensures
        name_run(p) == Ok::<NameState, FilenameError>(NameState {
            name: p + space_pad(8 - p.len()),
            ext: space_pad(3),
            idx: p.len() as int,
            seen_dot: false,
        }),
    decreases p.len(),
{
    if p.len() == 0 {
        assert(name_state_init().name =~= p + space_pad(8));
        assert(name_state_init().ext =~= space_pad(3));
    } else {
        let q = p.drop_last();
        assert(forall|i: int| 0 <= i < q.len() ==> q[i] == p[i]);
        lemma_name_run_plain(q);
        let c = p.last();
        assert(stored_byte(c));
        assert((q + space_pad(8 - q.len())).update(q.len() as int, ascii_upper(c)) =~= p + space_pad(
            8 - p.len(),
        ));
    }
}

proof fn lemma_name_run_dotted(p: Seq<u8>, e: Seq<u8>)
    requires
        1 <= p.len() <= 8,
        e.len() <= 3,
        forall|i: int| 0 <= i < p.len() ==> stored_byte(#[trigger] p[i]),
        forall|i: int| 0 <= i < e.len() ==> stored_byte(#[trigger] e[i]),
    ensures
        name_run(p.push(0x2Eu8) + e) == Ok::<NameState, FilenameError>(NameState {
            name: p + space_pad(8 - p.len()),
            ext: e + space_pad(3 - e.len()),
            idx: 8 + e.len() as int,
            seen_dot: true,
        }),
    decreases e.len(),
{
    if e.len() == 0 {
        assert(p.push(0x2Eu8) + e =~= p.push(0x2Eu8));
        assert(p.push(0x2Eu8).drop_last() =~= p);
        lemma_name_run_plain(p);
        assert(space_pad(3) =~= e + space_pad(3 - e.len()));
    } else {
        let f = e.drop_last();
        assert(forall|i: int| 0 <= i < f.len() ==> f[i] == e[i]);
        lemma_name_run_dotted(p, f);
        assert((p.push(0x2Eu8) + e).drop_last() =~= p.push(0x2Eu8) + f);
        let c = e.last();
        assert(stored_byte(c));
        assert((f + space_pad(3 - f.len())).update(f.len() as int, ascii_upper(c)) =~= e + space_pad(
            3 - e.len(),
        ));
    }
}

/// A name as a listing shows it parses back to the same short name: what
/// `ls` prints can be typed to open the file.
pub proof fn law_shown_name_parses_back(s: Seq<u8>, name: Seq<u8>, ext: Seq<u8>)
    requires
        parse_name_spec(s) == Ok::<(Seq<u8>, Seq<u8>), FilenameError>((name, ext)),
    ensures
        parse_name_spec(short_name_text(name, ext)) == Ok::<(Seq<u8>, Seq<u8>), FilenameError>(
            (name, ext),
        ),
{
    lemma_name_run_reachable(s);
    let st = name_run(s)->Ok_0;
    let k: int = if !st.seen_dot {
        st.idx
    } else {
        choose|k: int| 1 <= k <= 8 && #[trigger] padded_field(st.name, st.name.take(k), 8)
    };
    let p = name.take(k);
    assert(padded_field(name, p, 8));
    assert(p.len() >= 1);
    lemma_trim_padded(p, 8);
    let m: int = if st.seen_dot { st.idx - 8 } else { 0 };
    let e = ext.take(m);
    if !st.seen_dot {
        assert(e =~= Seq::<u8>::empty());
        assert(ext =~= e + space_pad(3));
    }
    assert(padded_field(ext, e, 3));
    lemma_trim_padded(e, 3);
    if e.len() == 0 {
        lemma_name_run_plain(p);
        assert(ext =~= space_pad(3));
    } else {
        lemma_name_run_dotted(p, e);
    }
}

/// A raw FAT date-time stamp as stored on disk (date in the high half).
#[derive(PartialEq, Eq, Structural, Clone, Copy, Debug)]
pub struct FsTime(pub u32);

/// The calendar fields of a FAT stamp: year, month, day, hour, minute,
/// second. The date half holds the years since 1980 in its top seven bits,
/// then four bits of month and five of day; the time half holds five bits
/// of hour, six of minute and five of seconds halved.
pub open spec fn stamp_fields(t: u32) -> (int, int, int, int, int, int) {
    let date: int = t as int / 0x10000;
    let time: int = t as int % 0x10000;
    (1980 + date / 512, (date / 32) % 16, date % 32, time / 2048, (time / 32) % 64, (time % 32) * 2)
}

impl FsTime {
    /// The calendar fields of the stamp (see `stamp_fields`).
    pub fn fields(&self) -> (r: (u16, u8, u8, u8, u8, u8))
        ensures
            (r.0 as int, r.1 as int, r.2 as int, r.3 as int, r.4 as int, r.5 as int) == stamp_fields(
                self.0,
            ),
    {
        let date = self.0 / 0x10000;
        let time = self.0 % 0x10000;
        (
            (1980 + date / 512) as u16,
            ((date / 32) % 16) as u8,
            (date % 32) as u8,
            (time / 2048) as u8,
            ((time / 32) % 64) as u8,
            ((time % 32) * 2) as u8,
        )
    }
}

/// One 32-byte directory entry.
#[derive(Clone, Copy, Debug)]
pub struct DirEntry {
    pub filename: ShortFileName,
    pub modified_time: FsTime,
    pub created_time: FsTime,
    pub accessed_time: FsTime,
    pub cluster: Cluster,
    pub attributes: u8,
    pub size: u32,
}

/// The values of a directory entry.
pub struct DirEntryView {
    pub name: Seq<u8>,
    pub ext: Seq<u8>,
    pub attributes: u8,
    pub created: u32,
    pub accessed: u32,
    pub modified: u32,
    pub cluster: u32,
    pub size: u32,
}

impl View for ShortFileName {
    type V = (Seq<u8>, Seq<u8>);

    open spec fn view(&self) -> (Seq<u8>, Seq<u8>) {
        (self.name@, self.ext@)
    }
}

impl View for DirEntry {
    type V = DirEntryView;

    open spec fn view(&self) -> DirEntryView {
        DirEntryView {
            name: self.filename.name@,
            ext: self.filename.ext@,
            attributes: self.attributes,
            created: self.created_time.0,
            accessed: self.accessed_time.0,
            modified: self.modified_time.0,
            cluster: self.cluster.0,
            size: self.size,
        }
    }
}

/// Attribute bits.
pub const ATTR_DIRECTORY: u8 = 0x10;

pub const ATTR_LONG_NAME: u8 = 0x0F;

impl DirEntryView {
    pub open spec fn is_eod(self) -> bool {
        self.name[0] == 0 && self.ext[0] == 0
    }

    pub open spec fn is_unused(self) -> bool {
        self.name[0] == 0xE5
    }

    /// Neither the end marker nor a deleted entry.
    pub open spec fn is_valid(self) -> bool {
        !self.is_eod() && !self.is_unused()
    }

    pub open spec fn is_directory(self) -> bool {
        self.attributes & 0x10 != 0
    }

    /// A slot of a long file name.
    pub open spec fn is_long_name(self) -> bool {
        self.attributes & 0x0F == 0x0F
    }

    /// Whether the entry carries the name `n`.
    pub open spec fn has_name(self, n: (Seq<u8>, Seq<u8>)) -> bool {
        self.name == n.0 && self.ext == n.1
    }
}

/// The entry that the 32 bytes at `start` in `b` encode.
pub open spec fn dir_entry_at(b: Seq<u8>, start: int) -> DirEntryView {
    DirEntryView {
        name: b.subrange(start, start + 8),
        ext: b.subrange(start + 8, start + 11),
        attributes: (b[start + 11] & 0x3F) as u8,
        created: le32(b, start + 14),
        accessed: le16(b, start + 18) as u32,
        modified: le32(b, start + 22),
        cluster: (b[start + 26] + 256 * b[start + 27] + 65536 * b[start + 20] + 16777216 * b[start
            + 21]) as u32,
        size: le32(b, start + 28),
    }
}

impl DirEntry {
    pub fn is_eod(&self) -> (b: bool)
        ensures
            b == self@.is_eod(),
    {
        self.filename.is_eod()
    }

    pub fn is_unused(&self) -> (b: bool)
        ensures
            b == self@.is_unused(),
    {
        self.filename.is_unused()
    }

    pub fn is_valid(&self) -> (b: bool)
        ensures
            b == self@.is_valid(),
    {
        !self.is_eod() && !self.is_unused()
    }

    pub fn is_directory(&self) -> (b: bool)
        ensures
            b == self@.is_directory(),
    {
        self.attributes & 0x10 != 0
    }

    pub fn is_long_name(&self) -> (b: bool)
        ensures
            b == self@.is_long_name(),
    {
        self.attributes & 0x0F == 0x0F
    }

    /// Decodes the directory entry stored in `data[start..start + 32]`.
    pub fn parse(data: &[u8], start: usize) -> (e: DirEntry)
        requires
            start + 32 <= data.len(),
        ensures
            e@ == dir_entry_at(data@, start as int),
    {
        let mut name: [u8; 8] = [0u8; 8];
        let mut i: usize = 0;
        while i < 8
            invariant
                i <= 8,
                start + 32 <= data.len(),
                forall|k: int| 0 <= k < i ==> name@[k] == data@[start + k],
            decreases 8 - i,
        {
            name[i] = data[start + i];
            i = i + 1;
        }
        let mut ext: [u8; 3] = [0u8; 3];
        let mut j: usize = 0;
        while j < 3
            invariant
                j <= 3,
                start + 32 <= data.len(),
                forall|k: int| 0 <= k < j ==> ext@[k] == data@[start + 8 + k],
            decreases 3 - j,
        {
            ext[j] = data[start + 8 + j];
            j = j + 1;
        }
        assert(name@ =~= data@.subrange(start as int, start + 8));
        assert(ext@ =~= data@.subrange(start + 8, start + 11));
        let cluster = data[start + 26] as u32 + (data[start + 27] as u32) * 256 + (data[start
            + 20] as u32) * 65536 + (data[start + 21] as u32) * 16777216;
        DirEntry {
            filename: ShortFileName { name, ext },
            attributes: data[start + 11] & 0x3F,
            created_time: FsTime(read_le32_slice(data, start + 14)),
            accessed_time: FsTime(read_le16_slice(data, start + 18) as u32),
            modified_time: FsTime(read_le32_slice(data, start + 22)),
            cluster: Cluster(cluster),
            size: read_le32_slice(data, start + 28),
        }
    }
}

/// The boot parameter block is read from its fixed places in the boot
/// sector: sectors per cluster at byte 13, the reserved sectors at bytes
/// 14 and 15, the number of FAT copies at byte 16, the root entries at bytes
/// 17 and 18 and the sectors of one FAT at bytes 22 and 23, each number
/// little-endian.
pub proof fn law_bpb_offsets(b: Seq<u8>)
    requires
        b.len() == 512,
    ensures
        bpb_of(b).sectors_per_cluster == b[13],
        bpb_of(b).reserved_sector_count == b[14] + 256 * b[15],
        bpb_of(b).fat_count == b[16],
        bpb_of(b).root_entries_count == b[17] + 256 * b[18],
        bpb_of(b).sectors_per_fat == b[22] + 256 * b[23],
{
}

} // verus!
