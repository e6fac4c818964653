//! Reading a FAT16 volume: the layout of its regions, the cluster chains of
//! the file allocation table, and the entries of its directories.
use vstd::prelude::*;
use vstd::string::StringSliceAdditionalSpecFns;
use crate::fat16::{
    bpb_of, bpb_signature_ok, le16, BlockDevice, Cluster, DirEntry, DirEntryView, Fat16Bpb, FsError,
    ShortFileName, parse_name_spec, ROOT_DIR_CLUSTER,
};
use crate::listing::{
    block_entries, block_lookup, eod_index, filt, listing, lookup, no_eod, no_stop, stops_lookup,
    lemma_eod_index_bounds, lemma_filt_append, lemma_listing_append, lemma_listing_no_eod,
    lemma_lookup_append,
};

verus! {

/// A directory: the first cluster of its entries, and the entry that names it
/// (none for the root directory).
#[derive(Clone, Copy, Debug)]
pub struct Directory {
    pub cluster: Cluster,
    pub entry: Option<DirEntry>,
}

impl Directory {
    pub fn new(cluster: Cluster) -> (d: Directory)
        ensures
            d.cluster == cluster,
            d.entry is None,
    {
        Directory { cluster, entry: None }
    }

    pub fn from_entry(entry: DirEntry) -> (d: Directory)
        ensures
            d.cluster == entry.cluster,
            d.entry matches Some(e) && e@ == entry@,
    {
        Directory { cluster: entry.cluster, entry: Some(entry) }
    }
}

/// The views of a sequence of entries.
pub open spec fn entry_views(v: Seq<DirEntry>) -> Seq<DirEntryView> {
    v.map_values(|e: DirEntry| e@)
}

/// The view of a lookup result.
pub open spec fn result_view(r: Result<DirEntry, FsError>) -> Result<DirEntryView, FsError> {
    match r {
        Ok(e) => Ok(e@),
        Err(x) => Err(x),
    }
}

/// What a FAT entry says of the cluster after the one it belongs to.
pub open spec fn decode_fat_entry(e: u16) -> Result<u32, FsError> {
    if e == 0xFFF7 {
        Err(FsError::BadCluster)
    } else if e >= 0xFFF8 {
        Err(FsError::EndOfFile)
    } else {
        Ok(e as u32)
    }
}

/// A FAT16 volume on a block device.
pub struct Fat16Impl<D: BlockDevice> {
    pub bpb: Fat16Bpb,
    pub inner: D,
    pub fat_start: usize,
    pub first_data_sector: usize,
    pub first_root_dir_sector: usize,
}

impl<D: BlockDevice> Fat16Impl<D> {
    /// The root directory region lies before the data region.
    pub open spec fn layout_ok(self) -> bool {
        self.first_root_dir_sector <= self.first_data_sector
    }

    /// The first sector of cluster `c`.
    pub open spec fn sector_of(self, c: u32) -> int {
        if c == ROOT_DIR_CLUSTER {
            self.first_root_dir_sector as int
        } else {
            (c - 2) * self.bpb.sectors_per_cluster + self.first_data_sector
        }
    }

    /// The number of sectors of directory entries that cluster `c` holds.
    pub open spec fn dir_size(self, c: u32) -> int {
        if c == ROOT_DIR_CLUSTER {
            self.first_data_sector - self.first_root_dir_sector
        } else {
            self.bpb.sectors_per_cluster as int
        }
    }

    /// The sector of the table that holds the entry of cluster `c`.
    pub open spec fn fat_sector_of(self, c: u32) -> int {
        self.fat_start + (c * 2) / 512
    }

    /// The table entry of cluster `c`.
    pub open spec fn fat_entry(self, c: u32) -> u16 {
        le16(self.inner.block_view(self.fat_sector_of(c) as usize), (c * 2) % 512)
    }

    /// The cluster after `c`, as the table says.
    pub open spec fn next_spec(self, c: u32) -> Result<u32, FsError> {
        decode_fat_entry(self.fat_entry(c))
    }

    /// Cluster `c` can be turned into sectors and looked up in the table
    /// without leaving the machine's integers.
    pub open spec fn cluster_fits(self, c: u32) -> bool {
        c == ROOT_DIR_CLUSTER || {
            &&& 2 <= c
            &&& c * 2 <= u32::MAX
            &&& self.fat_sector_of(c) <= usize::MAX
            &&& self.sector_of(c) + self.dir_size(c) <= usize::MAX
        }
    }

    /// The chain from `c` ends within `fuel` steps and every cluster on it fits.
    pub open spec fn chain_ok(self, c: u32, fuel: nat) -> bool
        decreases fuel,
    {
        self.cluster_fits(c) && (c == ROOT_DIR_CLUSTER || match self.next_spec(c) {
            Ok(n) => fuel > 0 && self.chain_ok(n, (fuel - 1) as nat),
            Err(_) => true,
        })
    }

    /// The clusters of the chain from `c`, following the table at most `fuel` times.
    pub open spec fn chain_from(self, c: u32, fuel: nat) -> Seq<u32>
        decreases fuel,
    {
        if c == ROOT_DIR_CLUSTER || fuel == 0 {
            seq![c]
        } else {
            match self.next_spec(c) {
                Ok(n) => seq![c] + self.chain_from(n, (fuel - 1) as nat),
                Err(_) => seq![c],
            }
        }
    }

    /// The directory starting at cluster `c` can be read to its end: its chain
    /// is finite and every cluster on it fits.
    pub open spec fn walkable(self, c: u32) -> bool {
        exists|f: nat| #[trigger] self.chain_ok(c, f)
    }

    pub open spec fn chain_fuel(self, c: u32) -> nat {
        choose|f: nat| #[trigger] self.chain_ok(c, f)
    }

    /// The clusters of the directory that starts at cluster `c`.
    pub open spec fn dir_chain(self, c: u32) -> Seq<u32> {
        self.chain_from(c, self.chain_fuel(c))
    }

    /// The raw entries of `count` sectors from `start`.
    pub open spec fn sectors_entries(self, start: int, count: nat) -> Seq<DirEntryView>
        decreases count,
    {
        if count == 0 {
            Seq::empty()
        } else {
            block_entries(self.inner.block_view(start as usize)) + self.sectors_entries(
                start + 1,
                (count - 1) as nat,
            )
        }
    }

    /// The raw entries that cluster `c` of a directory holds.
    pub open spec fn cluster_entries(self, c: u32) -> Seq<DirEntryView> {
        self.sectors_entries(self.sector_of(c), self.dir_size(c) as nat)
    }

    pub open spec fn chain_entries(self, chain: Seq<u32>) -> Seq<DirEntryView>
        decreases chain.len(),
    {
        if chain.len() == 0 {
            Seq::empty()
        } else {
            self.cluster_entries(chain[0]) + self.chain_entries(chain.drop_first())
        }
    }

    /// The raw entries of the directory that starts at cluster `c`.
    pub open spec fn dir_entries(self, c: u32) -> Seq<DirEntryView> {
        self.chain_entries(self.dir_chain(c))
    }

    /// The 512 bytes of sector `sector`.
    pub open spec fn sector_bytes(self, sector: int) -> Seq<u8> {
        Seq::new(512, |j: int| self.inner.block_view(sector as usize)[j])
    }

    /// The bytes of `count` sectors from `start`, one after another.
    pub open spec fn sectors_bytes(self, start: int, count: nat) -> Seq<u8>
        decreases count,
    {
        if count == 0 {
            Seq::empty()
        } else {
            self.sector_bytes(start) + self.sectors_bytes(start + 1, (count - 1) as nat)
        }
    }

    /// The bytes of the clusters of `chain`, cluster after cluster.
    pub open spec fn chain_bytes(self, chain: Seq<u32>) -> Seq<u8>
        decreases chain.len(),
    {
        if chain.len() == 0 {
            Seq::empty()
        } else {
            self.sectors_bytes(self.sector_of(chain[0]), self.dir_size(chain[0]) as nat) + self.chain_bytes(
                chain.drop_first(),
            )
        }
    }

    /// The bytes of the clusters that the table chains from cluster `c`.
    pub open spec fn file_bytes(self, c: u32) -> Seq<u8> {
        self.chain_bytes(self.dir_chain(c))
    }

    /// Every cluster that the first `fuel` steps of the chain from `c` meet
    /// fits (the chain may go on after them).
    pub open spec fn prefix_ok(self, c: u32, fuel: nat) -> bool
        decreases fuel,
    {
        self.cluster_fits(c) && (c == ROOT_DIR_CLUSTER || fuel == 0 || match self.next_spec(c) {
            Ok(n) => self.prefix_ok(n, (fuel - 1) as nat),
            Err(_) => true,
        })
    }

    /// The bytes of the clusters that the first `fuel` steps of the chain
    /// from `c` meet.
    pub open spec fn prefix_bytes(self, c: u32, fuel: nat) -> Seq<u8> {
        self.chain_bytes(self.chain_from(c, fuel))
    }

    /// Some first steps of the chain from `c` fit and hold `size` bytes.
    pub open spec fn holds_size(self, c: u32, size: nat) -> bool {
        exists|f: nat| #[trigger] self.prefix_ok(c, f) && self.prefix_bytes(c, f).len() >= size
    }

    /// The first `size` bytes of the chain from `c` (see `holds_size`).
    pub open spec fn first_bytes(self, c: u32, size: nat) -> Seq<u8> {
        let f = choose|f: nat| #[trigger] self.prefix_ok(c, f) && self.prefix_bytes(c, f).len() >= size;
        self.prefix_bytes(c, f).take(size as int)
    }

    /// A chain that ends fits in any number of first steps.
    pub proof fn lemma_chain_ok_prefix(self, c: u32, f: nat, g: nat)
        requires
            self.chain_ok(c, f),
        ensures
            self.prefix_ok(c, g),
        decreases g,
    {
        if c != ROOT_DIR_CLUSTER && g > 0 {
            if let Ok(n) = self.next_spec(c) {
                self.lemma_chain_ok_prefix(n, (f - 1) as nat, (g - 1) as nat);
            }
        }
    }

    /// The bytes of fewer first steps start the bytes of more.
    pub proof fn lemma_prefix_bytes_grow(self, c: u32, f1: nat, f2: nat)
        requires
            f1 <= f2,
        ensures
            self.prefix_bytes(c, f1).len() <= self.prefix_bytes(c, f2).len(),
            self.prefix_bytes(c, f2).take(self.prefix_bytes(c, f1).len() as int) == self.prefix_bytes(c, f1),
        decreases f1,
    {
        let a = self.chain_from(c, f1);
        let b = self.chain_from(c, f2);
        let s0 = self.sectors_bytes(self.sector_of(c), self.dir_size(c) as nat);
        assert(a[0] == c && b[0] == c);
        if c == ROOT_DIR_CLUSTER || f1 == 0 {
            assert(a.drop_first() =~= Seq::<u32>::empty());
            assert(self.chain_bytes(a.drop_first()) =~= Seq::<u8>::empty());
            assert(self.chain_bytes(a) == s0 + self.chain_bytes(a.drop_first()));
            assert(self.chain_bytes(a) =~= s0);
            assert(self.chain_bytes(b) == s0 + self.chain_bytes(b.drop_first()));
            assert((s0 + self.chain_bytes(b.drop_first())).take(s0.len() as int) =~= s0);
        } else {
            match self.next_spec(c) {
                Ok(n) => {
                    self.lemma_prefix_bytes_grow(n, (f1 - 1) as nat, (f2 - 1) as nat);
                    assert(a.drop_first() =~= self.chain_from(n, (f1 - 1) as nat));
                    assert(b.drop_first() =~= self.chain_from(n, (f2 - 1) as nat));
                    let x = self.prefix_bytes(n, (f1 - 1) as nat);
                    let y = self.prefix_bytes(n, (f2 - 1) as nat);
                    assert((s0 + y).take((s0 + x).len() as int) =~= s0 + y.take(x.len() as int));
                },
                Err(_) => {
                    assert(a =~= b);
                },
            }
        }
    }

    /// Any first steps that fit and hold `size` bytes give the same first
    /// `size` bytes.
    pub proof fn lemma_first_bytes(self, c: u32, size: nat, g: nat)
        requires
            self.prefix_ok(c, g),
            self.prefix_bytes(c, g).len() >= size,
        ensures
            self.holds_size(c, size),
            self.first_bytes(c, size) == self.prefix_bytes(c, g).take(size as int),
    {
        let f = choose|f: nat| #[trigger] self.prefix_ok(c, f) && self.prefix_bytes(c, f).len() >= size;
        assert(self.prefix_ok(c, g) && self.prefix_bytes(c, g).len() >= size);
        let pf = self.prefix_bytes(c, f);
        let pg = self.prefix_bytes(c, g);
        if f <= g {
            self.lemma_prefix_bytes_grow(c, f, g);
            assert(pf.take(size as int) =~= pg.take(size as int)) by {
                assert forall|k: int| 0 <= k < size implies pf[k] == pg[k] by {
                    assert(pg.take(pf.len() as int)[k] == pg[k]);
                }
            }
        } else {
            self.lemma_prefix_bytes_grow(c, g, f);
            assert(pf.take(size as int) =~= pg.take(size as int)) by {
                assert forall|k: int| 0 <= k < size implies pf[k] == pg[k] by {
                    assert(pf.take(pg.len() as int)[k] == pf[k]);
                }
            }
        }
    }

    /// A chain that ends and holds `size` bytes holds them in its first
    /// steps, and they are its first `size` bytes.
    pub proof fn lemma_walkable_holds(self, c: u32, size: nat)
        requires
            self.walkable(c),
            self.file_bytes(c).len() >= size,
        ensures
            self.holds_size(c, size),
            self.first_bytes(c, size) == self.file_bytes(c).take(size as int),
    {
        let f = self.chain_fuel(c);
        self.lemma_chain_ok_prefix(c, f, f);
        self.lemma_first_bytes(c, size, f);
    }

    /// Opens the volume: reads the boot sector and places the table, the root
    /// directory and the data region.
    pub fn new(inner: D) -> (r: Self)
        requires
            bpb_signature_ok(inner.block_view(0)),
        ensures
            r.inner == inner,
            r.bpb == bpb_of(inner.block_view(0)),
            r.fat_start == r.bpb.reserved_sector_count,
            r.first_root_dir_sector == r.fat_start + r.bpb.fat_count * r.bpb.sectors_per_fat,
            r.first_data_sector == r.first_root_dir_sector + (r.bpb.root_entries_count * 32 + 512
                - 1) / 512,
            r.layout_ok(),
    {
        let mut block: [u8; 512] = [0u8; 512];
        inner.read_block(0, &mut block);
        let bpb = match Fat16Bpb::new(&block) {
            Ok(b) => b,
            Err(_) => {
                assert(false);
                Fat16Bpb {
                    sectors_per_cluster: 0,
                    reserved_sector_count: 0,
                    fat_count: 0,
                    root_entries_count: 0,
                    sectors_per_fat: 0,
                }
            },
        };
        let fat_start = bpb.reserved_sector_count as usize;
        let entries = bpb.root_entries_count as usize;
        let root_dir_size = (entries * 32 + 512 - 1) / 512;
        let fat_count = bpb.fat_count as usize;
        let spf = bpb.sectors_per_fat as usize;
        assert(fat_count * spf <= 255 * 65535) by (nonlinear_arith)
            requires
                fat_count <= 255,
                spf <= 65535,
        ;
        let first_root_dir_sector = fat_start + fat_count * spf;
        let first_data_sector = first_root_dir_sector + root_dir_size;
        Self { bpb, inner, fat_start, first_data_sector, first_root_dir_sector }
    }

    /// The first sector of a cluster.
    pub fn cluster_to_sector(&self, cluster: &Cluster) -> (r: usize)
        requires
            cluster.0 == ROOT_DIR_CLUSTER || (2 <= cluster.0 && self.sector_of(cluster.0)
                <= usize::MAX),
        ensures
            r == self.sector_of(cluster.0),
    {
        if cluster.0 == ROOT_DIR_CLUSTER {
            self.first_root_dir_sector
        } else {
            let c = (cluster.0 - 2) as usize;
            let spc = self.bpb.sectors_per_cluster as usize;
            assert(c * spc <= self.sector_of(cluster.0));
            c * spc + self.first_data_sector
        }
    }

    /// Whether the root directory region lies before the data region.
    pub fn check_layout(&self) -> (r: bool)
        ensures
            r == self.layout_ok(),
    {
        self.first_root_dir_sector <= self.first_data_sector
    }

    /// Whether cluster `c` fits (see `cluster_fits`).
    pub fn check_cluster_fits(&self, c: u32) -> (r: bool)
        ensures
            r == self.cluster_fits(c),
    {
        if c == ROOT_DIR_CLUSTER {
            return true;
        }
        if c < 2 || c > u32::MAX / 2 {
            return false;
        }
        let max: u128 = usize::MAX as u128;
        let fat = self.fat_start as u128 + (c as u128 * 2) / 512;
        let spc = self.bpb.sectors_per_cluster as u128;
        assert((c - 2) * spc <= 0xFFFF_FFFFu128 * 0xFFu128) by (nonlinear_arith)
            requires
                c - 2 <= 0xFFFF_FFFFu128,
                spc <= 0xFFu128,
        ;
        let last = (c as u128 - 2) * spc + self.first_data_sector as u128 + spc;
        fat <= max && last <= max
    }

    /// Whether the chain from `c` ends, every cluster on it fitting, within
    /// `limit` steps of the table; `true` makes `c` walkable.
    pub fn check_chain(&self, c: u32, limit: usize) -> (r: bool)
        ensures
            r == self.chain_ok(c, limit as nat),
            r ==> self.walkable(c),
    {
        let mut cur = c;
        let mut i: usize = 0;
        loop
            invariant
                i <= limit,
                self.chain_ok(cur, (limit - i) as nat) == self.chain_ok(c, limit as nat),
            decreases limit - i,
        {
            if !self.check_cluster_fits(cur) {
                return false;
            }
            if cur == ROOT_DIR_CLUSTER {
                return true;
            }
            match self.next_cluster(Cluster(cur)) {
                Err(_) => {
                    return true;
                },
                Ok(n) => {
                    if i == limit {
                        return false;
                    }
                    proof {
                        assert(self.chain_ok(cur, (limit - i) as nat) == self.chain_ok(n.0, (limit - (i + 1)) as nat));
                    }
                    cur = n.0;
                    i = i + 1;
                },
            }
        }
    }

    /// Whether the clusters that the table chains from `c` hold at least
    /// `size` bytes.
    pub fn check_chain_holds(&self, c: u32, size: usize) -> (r: bool)
        requires
            self.layout_ok(),
            self.walkable(c),
        ensures
            r == (self.file_bytes(c).len() >= size),
    {
        if size == 0 {
            return true;
        }
        let ghost mut fuel: nat = self.chain_fuel(c);
        let ghost total = self.file_bytes(c).len();
        let mut cur = c;
        let mut acc: u128 = 0;
        loop
            invariant
                self.layout_ok(),
                self.chain_ok(cur, fuel),
                total == self.file_bytes(c).len(),
                total == acc + self.chain_bytes(self.chain_from(cur, fuel)).len(),
                acc < size,
            decreases fuel,
        {
            let ghost chain = self.chain_from(cur, fuel);
            let ghost rest = self.chain_bytes(chain.drop_first());
            proof {
                lemma_sectors_bytes_len(*self, self.sector_of(cur), self.dir_size(cur) as nat);
                assert(chain[0] == cur);
            }
            let d = self.dir_size_of(Cluster(cur));
            acc = acc + d as u128 * 512;
            if acc >= size as u128 {
                return true;
            }
            if cur == ROOT_DIR_CLUSTER {
                proof {
                    assert(chain.drop_first() =~= Seq::<u32>::empty());
                }
                return false;
            }
            match self.next_cluster(Cluster(cur)) {
                Err(_) => {
                    proof {
                        assert(chain.drop_first() =~= Seq::<u32>::empty());
                    }
                    return false;
                },
                Ok(n) => {
                    proof {
                        assert(chain.drop_first() =~= self.chain_from(n.0, (fuel - 1) as nat));
                        fuel = (fuel - 1) as nat;
                    }
                    cur = n.0;
                },
            }
        }
    }

    /// The cluster after `cluster` in its chain, read from the table; an
    /// error when the table marks the cluster bad or last.
    pub fn next_cluster(&self, cluster: Cluster) -> (r: Result<Cluster, FsError>)
        requires
            cluster.0 * 2 <= u32::MAX,
            self.fat_sector_of(cluster.0) <= usize::MAX,
        ensures
            match self.next_spec(cluster.0) {
                Ok(n) => r == Ok::<Cluster, FsError>(Cluster(n)),
                Err(e) => r == Err::<Cluster, FsError>(e),
            },
    {
        let fat_offset = (cluster.0 * 2) as usize;
        let cur_fat_sector = self.fat_start + fat_offset / 512;
        let offset = fat_offset % 512;
        let mut block: [u8; 512] = [0u8; 512];
        self.inner.read_block(cur_fat_sector, &mut block);
        assert(offset + 1 < 512) by {
            assert(fat_offset % 2 == 0);
        }
        let fat_entry = block[offset] as u16 + (block[offset + 1] as u16) * 256;
        if fat_entry == 0xFFF7 {
            Err(FsError::BadCluster)
        } else if fat_entry >= 0xFFF8 {
            Err(FsError::EndOfFile)
        } else {
            Ok(Cluster(fat_entry as u32))
        }
    }

    pub(crate) fn dir_size_of(&self, cluster: Cluster) -> (r: usize)
        requires
            self.layout_ok(),
        ensures
            r == self.dir_size(cluster.0),
    {
        if cluster.0 == ROOT_DIR_CLUSTER {
            self.first_data_sector - self.first_root_dir_sector
        } else {
            self.bpb.sectors_per_cluster as usize
        }
    }

    /// Collects the shown entries of one block; true when the block holds the end marker.
    fn scan_block(block: &[u8; 512], acc: &mut Vec<DirEntry>) -> (ended: bool)
        ensures
            ended == !no_eod(block_entries(block@)),
            entry_views(final(acc)@) == entry_views(old(acc)@) + filt(
                block_entries(block@).take(eod_index(block_entries(block@)) as int),
            ),
    {
        let ghost be = block_entries(block@);
        let ghost a0 = entry_views(acc@);
        let mut i: usize = 0;
        proof {
            assert(be.take(0) =~= Seq::<DirEntryView>::empty());
            assert(a0 + filt(Seq::<DirEntryView>::empty()) =~= a0);
        }
        while i < 16
            invariant
                i <= 16,
                be == block_entries(block@),
                be.len() == 16,
                a0 == entry_views(old(acc)@),
                no_eod(be.take(i as int)),
                entry_views(acc@) == a0 + filt(be.take(i as int)),
            decreases 16 - i,
        {
            let e = DirEntry::parse(block, i * 32);
            assert(be[i as int] == e@);
            if e.is_eod() {
                proof {
                    lemma_eod_index_bounds(be);
                    lemma_eod_index_of(be, i as int);
                    assert(eod_index(be) == i);
                    assert(be.take(eod_index(be) as int) == be.take(i as int));
                }
                return true;
            }
            let ghost before = entry_views(acc@);
            proof {
                assert(be.take(i + 1).drop_last() =~= be.take(i as int));
                assert(be.take(i + 1).last() == e@);
            }
            if e.is_valid() && !e.is_long_name() {
                acc.push(e);
                assert(entry_views(acc@) =~= before.push(e@));
                assert(a0 + filt(be.take(i as int)).push(e@) =~= (a0 + filt(be.take(i as int))).push(
                    e@,
                ));
            }
            proof {
                assert forall|k: int| 0 <= k < be.take(i + 1).len() implies !(#[trigger] be.take(
                    i + 1,
                )[k]).is_eod() by {
                    if k < i {
                        assert(be.take(i + 1)[k] == be.take(i as int)[k]);
                    }
                }
            }
            i = i + 1;
        }
        proof {
            assert(be.take(16) =~= be);
            lemma_eod_index_bounds(be);
        }
        false
    }

    /// Collects the shown entries of `count` sectors from `start`; true when
    /// they hold the end marker.
    fn scan_sectors(&self, start: usize, count: usize, acc: &mut Vec<DirEntry>) -> (ended: bool)
        requires
            start + count <= usize::MAX,
        ensures
            ended == !no_eod(self.sectors_entries(start as int, count as nat)),
            entry_views(final(acc)@) == entry_views(old(acc)@) + listing(
                self.sectors_entries(start as int, count as nat),
            ),
    {
        let ghost all = self.sectors_entries(start as int, count as nat);
        let ghost a0 = entry_views(acc@);
        let ghost mut done: Seq<DirEntryView> = Seq::empty();
        let mut block: [u8; 512] = [0u8; 512];
        let mut s = start;
        proof {
            assert(done + all =~= all);
            assert(a0 + filt(done) =~= a0);
        }
        while s < start + count
            invariant
                start <= s <= start + count,
                start + count <= usize::MAX,
                all == self.sectors_entries(start as int, count as nat),
                a0 == entry_views(old(acc)@),
                done + self.sectors_entries(s as int, (start + count - s) as nat) == all,
                no_eod(done),
                entry_views(acc@) == a0 + filt(done),
            decreases start + count - s,
        {
            self.inner.read_block(s, &mut block);
            let ghost be = block_entries(block@);
            let ghost rest = self.sectors_entries(s + 1, (start + count - s - 1) as nat);
            let ghost before = entry_views(acc@);
            assert(self.sectors_entries(s as int, (start + count - s) as nat) == be + rest);
            let ended = Self::scan_block(&block, acc);
            if ended {
                proof {
                    assert(all =~= done + (be + rest));
                    lemma_listing_append(done, be + rest);
                    lemma_listing_append(be, rest);
                    assert(listing(be) == filt(be.take(eod_index(be) as int)));
                    assert(entry_views(acc@) == before + listing(be));
                    assert(entry_views(acc@) =~= a0 + (filt(done) + listing(be)));
                    assert(listing(all) == filt(done) + listing(be));
                    assert(!no_eod(all)) by {
                        lemma_no_eod_append(done, be + rest);
                        lemma_no_eod_append(be, rest);
                    }
                }
                return true;
            }
            proof {
                lemma_eod_index_bounds(be);
                assert(be.take(be.len() as int) =~= be);
                lemma_filt_append(done, be);
                lemma_no_eod_append(done, be);
                assert(entry_views(acc@) =~= a0 + filt(done + be));
                assert(done + be + rest =~= done + (be + rest));
                done = done + be;
            }
            s = s + 1;
        }
        proof {
            assert(self.sectors_entries(s as int, 0) =~= Seq::<DirEntryView>::empty());
            assert(done + Seq::<DirEntryView>::empty() =~= done);
            lemma_listing_no_eod(all);
        }
        false
    }

    /// The shown entries of a directory, in order, up to its end marker.
    pub fn iterate_dir(&self, dir: &Directory) -> (r: Vec<DirEntry>)
        requires
            self.layout_ok(),
            self.walkable(dir.cluster.0),
        ensures
            entry_views(r@) == listing(self.dir_entries(dir.cluster.0)),
    {
        let ghost fuel0 = self.chain_fuel(dir.cluster.0);
        let ghost all = self.dir_entries(dir.cluster.0);
        let ghost mut fuel: nat = fuel0;
        let ghost mut done: Seq<DirEntryView> = Seq::empty();
        let mut acc: Vec<DirEntry> = Vec::new();
        let mut cluster = dir.cluster;
        proof {
            assert(done + all =~= all);
            assert(entry_views(acc@) =~= filt(done));
        }
        loop
            invariant
                self.layout_ok(),
                self.chain_ok(cluster.0, fuel),
                all == self.dir_entries(dir.cluster.0),
                done + self.chain_entries(self.chain_from(cluster.0, fuel)) == all,
                no_eod(done),
                entry_views(acc@) == filt(done),
            decreases fuel,
        {
            let sector = self.cluster_to_sector(&cluster);
            let size = self.dir_size_of(cluster);
            let ghost ce = self.cluster_entries(cluster.0);
            let ghost chain = self.chain_from(cluster.0, fuel);
            let ghost rest = self.chain_entries(chain.drop_first());
            proof {
                assert(chain[0] == cluster.0);
                assert(self.chain_entries(chain) == ce + rest);
            }
            let ended = self.scan_sectors(sector, size, &mut acc);
            if ended {
                proof {
                    assert(all =~= done + (ce + rest));
                    lemma_listing_append(done, ce + rest);
                    lemma_listing_append(ce, rest);
                }
                return acc;
            }
            proof {
                lemma_listing_no_eod(ce);
                lemma_filt_append(done, ce);
                lemma_no_eod_append(done, ce);
                assert(done + ce + rest =~= done + (ce + rest));
                done = done + ce;
            }
            if cluster.0 == ROOT_DIR_CLUSTER {
                proof {
                    assert(chain.drop_first() =~= Seq::<u32>::empty());
                    assert(done + Seq::<DirEntryView>::empty() =~= done);
                    lemma_listing_no_eod(all);
                }
                return acc;
            }
            match self.next_cluster(cluster) {
                Ok(n) => {
                    proof {
                        assert(chain.drop_first() =~= self.chain_from(n.0, (fuel - 1) as nat));
                        fuel = (fuel - 1) as nat;
                    }
                    cluster = n;
                },
                Err(_) => {
                    proof {
                        assert(chain.drop_first() =~= Seq::<u32>::empty());
                        assert(done + Seq::<DirEntryView>::empty() =~= done);
                        lemma_listing_no_eod(all);
                    }
                    return acc;
                },
            }
        }
    }

    /// Looks up `match_name` in one sector: the first entry that is the end
    /// marker or carries the name decides; `NotInSector` when none does.
    pub fn find_entry_in_sector(&self, match_name: &ShortFileName, sector: usize) -> (r: Result<
        DirEntry,
        FsError,
    >)
        ensures
            result_view(r) == block_lookup(block_entries(self.inner.block_view(sector)), match_name@),
    {
        let mut block: [u8; 512] = [0u8; 512];
        self.inner.read_block(sector, &mut block);
        let ghost be = block_entries(block@);
        let ghost n = match_name@;
        let mut i: usize = 0;
        proof {
            assert(be.take(0) =~= Seq::<DirEntryView>::empty());
        }
        while i < 16
            invariant
                i <= 16,
                be == block_entries(block@),
                block@ == self.inner.block_view(sector),
                be.len() == 16,
                n == match_name@,
                no_stop(be.take(i as int), n),
            decreases 16 - i,
        {
            let e = DirEntry::parse(&block, i * 32);
            assert(be[i as int] == e@);
            if e.is_eod() || e.filename.matches(match_name) {
                proof {
                    assert(be =~= be.take(i as int) + be.skip(i as int));
                    lemma_lookup_append(be.take(i as int), be.skip(i as int), n);
                    assert(be.skip(i as int)[0] == e@);
                    assert(!no_stop(be, n)) by {
                        assert(stops_lookup(be[i as int], n));
                    }
                    assert(block_lookup(be, n) == lookup(be.skip(i as int), n));
                    assert(be.skip(i as int).len() > 0);
                }
                if e.is_eod() {
                    return Err(FsError::FileNotFound);
                }
                return Ok(e);
            }
            proof {
                assert forall|k: int| 0 <= k < be.take(i + 1).len() implies !stops_lookup(
                    #[trigger] be.take(i + 1)[k],
                    n,
                ) by {
                    if k < i {
                        assert(be.take(i + 1)[k] == be.take(i as int)[k]);
                    }
                }
            }
            i = i + 1;
        }
        assert(be.take(16) =~= be);
        Err(FsError::NotInSector)
    }

    /// Looks up the entry named `s[start..end]` in a directory (see `lookup`).
    pub fn find_directory_entry_bytes(&self, dir: &Directory, s: &[u8], start: usize, end: usize) -> (r:
        Result<DirEntry, FsError>)
        requires
            self.layout_ok(),
            parse_name_spec(s@.subrange(start as int, end as int)) is Ok ==> self.walkable(dir.cluster.0),
            start <= end <= s@.len(),
        ensures
            match parse_name_spec(s@.subrange(start as int, end as int)) {
                Ok(n) => result_view(r) == lookup(self.dir_entries(dir.cluster.0), n),
                Err(e) => r == Err::<DirEntry, FsError>(FsError::FileNameError(e)),
            },
    {
        let match_name = match ShortFileName::parse_bytes(s, start, end) {
            Ok(n) => n,
            Err(e) => return Err(e),
        };
        let ghost n = match_name@;
        let ghost fuel0 = self.chain_fuel(dir.cluster.0);
        let ghost all = self.dir_entries(dir.cluster.0);
        let ghost mut fuel: nat = fuel0;
        let ghost mut done: Seq<DirEntryView> = Seq::empty();
        let mut cluster = dir.cluster;
        proof {
            assert(done + all =~= all);
        }
        loop
            invariant
                self.layout_ok(),
                self.chain_ok(cluster.0, fuel),
                n == match_name@,
                start <= end <= s@.len(),
                parse_name_spec(s@.subrange(start as int, end as int)) == Ok::<
                    (Seq<u8>, Seq<u8>),
                    crate::fat16::FilenameError,
                >(n),
                all == self.dir_entries(dir.cluster.0),
                done + self.chain_entries(self.chain_from(cluster.0, fuel)) == all,
                no_stop(done, n),
            decreases fuel,
        {
            let sector0 = self.cluster_to_sector(&cluster);
            let size = self.dir_size_of(cluster);
            let ghost chain = self.chain_from(cluster.0, fuel);
            let ghost rest = self.chain_entries(chain.drop_first());
            proof {
                assert(chain[0] == cluster.0);
                assert(self.chain_entries(chain) == self.cluster_entries(cluster.0) + rest);
            }
            let mut s_i = sector0;
            while s_i < sector0 + size
                invariant
                    sector0 <= s_i <= sector0 + size,
                    sector0 + size <= usize::MAX,
                    n == match_name@,
                    start <= end <= s@.len(),
                    parse_name_spec(s@.subrange(start as int, end as int)) == Ok::<
                        (Seq<u8>, Seq<u8>),
                        crate::fat16::FilenameError,
                    >(n),
                    all == self.dir_entries(dir.cluster.0),
                    done + self.sectors_entries(s_i as int, (sector0 + size - s_i) as nat) + rest
                        == all,
                    no_stop(done, n),
                decreases sector0 + size - s_i,
            {
                let ghost be = block_entries(self.inner.block_view(s_i));
                let ghost more = self.sectors_entries(s_i + 1, (sector0 + size - s_i - 1) as nat);
                assert(self.sectors_entries(s_i as int, (sector0 + size - s_i) as nat) == be + more);
                let x = self.find_entry_in_sector(&match_name, s_i);
                match x {
                    Err(FsError::NotInSector) => {
                        proof {
                            crate::listing::lemma_lookup_never_not_in_sector(be, n);
                            lemma_no_stop_append(done, be, n);
                            assert(done + (be + more) + rest =~= (done + be) + more + rest);
                            done = done + be;
                        }
                    },
                    _ => {
                        proof {
                            crate::listing::lemma_lookup_never_not_in_sector(be, n);
                            assert(!no_stop(be, n));
                            assert(all =~= done + (be + (more + rest)));
                            lemma_lookup_append(done, be + (more + rest), n);
                            lemma_lookup_append(be, more + rest, n);
                        }
                        return x;
                    },
                }
                s_i = s_i + 1;
            }
            proof {
                assert(self.sectors_entries(s_i as int, 0) =~= Seq::<DirEntryView>::empty());
                assert(done + Seq::<DirEntryView>::empty() + rest =~= done + rest);
            }
            let next = if cluster.0 == ROOT_DIR_CLUSTER {
                None
            } else {
                match self.next_cluster(cluster) {
                    Ok(nc) => Some(nc),
                    Err(_) => None,
                }
            };
            match next {
                Some(nc) => {
                    proof {
                        assert(chain.drop_first() =~= self.chain_from(nc.0, (fuel - 1) as nat));
                        fuel = (fuel - 1) as nat;
                    }
                    cluster = nc;
                },
                None => {
                    proof {
                        assert(chain.drop_first() =~= Seq::<u32>::empty());
                        assert(done + Seq::<DirEntryView>::empty() =~= done);
                        lemma_lookup_append(done, Seq::<DirEntryView>::empty(), n);
                    }
                    return Err(FsError::FileNotFound);
                },
            }
        }
    }

    /// Looks up the entry called `name` in a directory (see `lookup`).
    pub fn find_directory_entry(&self, dir: &Directory, name: &str) -> (r: Result<DirEntry, FsError>)
        requires
            self.layout_ok(),
            parse_name_spec(name.spec_bytes()) is Ok ==> self.walkable(dir.cluster.0),
        ensures
            match parse_name_spec(name.spec_bytes()) {
                Ok(n) => result_view(r) == lookup(self.dir_entries(dir.cluster.0), n),
                Err(e) => r == Err::<DirEntry, FsError>(FsError::FileNameError(e)),
            },
    {
        let b = name.as_bytes();
        assert(b@.subrange(0, b@.len() as int) =~= b@);
        self.find_directory_entry_bytes(dir, b, 0, b.len())
    }

    /// The root directory.
    pub fn root_dir() -> (d: Directory)
        ensures
            d.cluster.0 == ROOT_DIR_CLUSTER,
            d.entry is None,
    {
        Directory::new(Cluster(ROOT_DIR_CLUSTER))
    }
}

proof fn lemma_eod_index_of(be: Seq<DirEntryView>, i: int)
    requires
        0 <= i < be.len(),
        no_eod(be.take(i)),
        be[i].is_eod(),
    ensures
        eod_index(be) == i,
        !no_eod(be),
{
    crate::listing::lemma_eod_index_append(be.take(i), be.skip(i));
    assert(be =~= be.take(i) + be.skip(i));
    assert(be.skip(i)[0].is_eod());
    assert(be.take(i).len() == i);
}

proof fn lemma_no_eod_append(a: Seq<DirEntryView>, b: Seq<DirEntryView>)
    ensures
        no_eod(a + b) == (no_eod(a) && no_eod(b)),
{
    if no_eod(a) && no_eod(b) {
        assert forall|i: int| 0 <= i < (a + b).len() implies !(#[trigger] (a + b)[i]).is_eod() by {
            if i < a.len() {
                assert((a + b)[i] == a[i]);
            } else {
                assert((a + b)[i] == b[i - a.len()]);
            }
        }
    }
    if no_eod(a + b) {
        assert forall|i: int| 0 <= i < a.len() implies !(#[trigger] a[i]).is_eod() by {
            assert((a + b)[i] == a[i]);
        }
        assert forall|i: int| 0 <= i < b.len() implies !(#[trigger] b[i]).is_eod() by {
            assert((a + b)[a.len() + i] == b[i]);
        }
    }
}

proof fn lemma_no_stop_append(a: Seq<DirEntryView>, b: Seq<DirEntryView>, n: (Seq<u8>, Seq<u8>))
    requires
        no_stop(a, n),
        no_stop(b, n),
    ensures
        no_stop(a + b, n),
{
    assert forall|i: int| 0 <= i < (a + b).len() implies !stops_lookup(#[trigger] (a + b)[i], n) by {
        if i < a.len() {
            assert((a + b)[i] == a[i]);
        } else {
            assert((a + b)[i] == b[i - a.len()]);
        }
    }
}

/// `count` sectors hold `count` times 512 bytes.
proof fn lemma_sectors_bytes_len<D: BlockDevice>(h: Fat16Impl<D>, start: int, count: nat)
    ensures
        h.sectors_bytes(start, count).len() == count * 512,
    decreases count,
{
    if count > 0 {
        lemma_sectors_bytes_len(h, start + 1, (count - 1) as nat);
    }
}

/// Data clusters follow one another on the volume from the first data
/// sector on, each `sectors_per_cluster` sectors long: cluster 2 starts the
/// data region and each next cluster starts one cluster's sectors later.
pub proof fn law_cluster_sectors<D: BlockDevice>(h: Fat16Impl<D>, c: u32)
    requires
        2 <= c < 0xFFFF_FFFB,
    ensures
        h.sector_of(2) == h.first_data_sector,
        h.sector_of((c + 1) as u32) == h.sector_of(c) + h.bpb.sectors_per_cluster,
        h.sector_of(c) >= h.first_data_sector,
{
    assert((c + 1 - 2) * h.bpb.sectors_per_cluster == (c - 2) * h.bpb.sectors_per_cluster
        + h.bpb.sectors_per_cluster) by (nonlinear_arith);
    assert((c - 2) * h.bpb.sectors_per_cluster >= 0) by (nonlinear_arith)
        requires
            c >= 2,
    ;
}

/// The table entry of cluster `c` is the little-endian 16-bit number at
/// byte `2c mod 512` of sector `fat_start + 2c / 512` of the volume, and the
/// next cluster is that number unless it marks a bad cluster or the end of
/// the chain.
pub proof fn law_fat_entry_place<D: BlockDevice>(h: Fat16Impl<D>, c: u32)
    ensures
        ({
            let blk = h.inner.block_view((h.fat_start + (2 * c) / 512) as usize);
            let i = (2 * c) % 512;
            let e: int = blk[i] + 256 * blk[i + 1];
            &&& h.fat_entry(c) as int == e
            &&& e == 0xFFF7 ==> h.next_spec(c) == Err::<u32, FsError>(FsError::BadCluster)
            &&& e >= 0xFFF8 ==> h.next_spec(c) == Err::<u32, FsError>(FsError::EndOfFile)
            &&& e < 0xFFF7 ==> h.next_spec(c) == Ok::<u32, FsError>(e as u32)
        }),
{
}

} // verus!
