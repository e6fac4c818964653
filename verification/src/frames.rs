//! The physical frame allocator: it hands out the 4 KiB frames of the
//! conventional regions of the firmware's memory map, in map order, and
//! reuses freed frames first, last freed first.
use vstd::prelude::*;

verus! {

/// The size of a frame.
pub const FRAME_SIZE: u64 = 4096;

/// The memory type of a region that is free for the kernel to use.
pub const CONVENTIONAL: u32 = 7;

/// Physical addresses stay below this bound.
pub const PHYS_LIMIT: u64 = 0x10_0000_0000_0000;

/// One entry of the firmware's memory map.
#[derive(Clone, Copy, Debug, PartialEq, Eq, Structural)]
pub struct MemoryRegion {
    pub ty: u32,
    pub phys_start: u64,
    pub page_count: u64,
}

/// The start of the frame that holds `addr`.
pub open spec fn align_down(addr: int) -> int {
    addr - addr % (FRAME_SIZE as int)
}

/// The frames of region `r` from page `p` on, or none when `r` is not
/// conventional.
pub open spec fn region_rest(r: MemoryRegion, p: int) -> Seq<u64> {
    if r.ty == CONVENTIONAL && p <= r.page_count {
        Seq::new(
            (r.page_count - p) as nat,
            |v: int| align_down(r.phys_start + (p + v) * (FRAME_SIZE as int)) as u64,
        )
    } else {
        Seq::empty()
    }
}

/// The frames of a memory map, region after region.
pub open spec fn map_frames(regions: Seq<MemoryRegion>) -> Seq<u64>
    decreases regions.len(),
{
    if regions.len() == 0 {
        Seq::empty()
    } else {
        region_rest(regions[0], 0) + map_frames(regions.drop_first())
    }
}

/// Every conventional region lies below the physical address limit.
pub open spec fn map_ok(regions: Seq<MemoryRegion>) -> bool {
    forall|i: int|
        0 <= i < regions.len() && (#[trigger] regions[i]).ty == CONVENTIONAL
            ==> regions[i].phys_start + regions[i].page_count * (FRAME_SIZE as int)
            <= PHYS_LIMIT as int
}

/// The frame of a recycled key.
pub open spec fn key_frame(key: u32) -> u64 {
    (key * (FRAME_SIZE as int)) as u64
}

/// What the allocator holds, as values: the freed frames by key (the last
/// freed at the end), the frames of the map not handed out yet, the count of
/// used frames and the machine's frame count.
pub struct AllocView {
    pub recycled: Seq<u32>,
    pub pending: Seq<u64>,
    pub used: nat,
    pub size: nat,
}

/// The allocator after `frame` is freed.
pub open spec fn free_spec(v: AllocView, frame: u64) -> AllocView {
    AllocView { recycled: v.recycled.push((frame / FRAME_SIZE) as u32), ..v }
}

/// The allocator after a frame is asked for, and the frame handed out.
pub open spec fn alloc_spec(v: AllocView) -> (AllocView, Option<u64>) {
    if v.recycled.len() > 0 {
        (AllocView { recycled: v.recycled.drop_last(), ..v }, Some(key_frame(v.recycled.last())))
    } else if v.pending.len() > 0 {
        (AllocView { pending: v.pending.drop_first(), used: v.used + 1, ..v }, Some(v.pending[0]))
    } else {
        (AllocView { used: v.used + 1, ..v }, None)
    }
}

/// The frame allocator. `region` and `page` point at the next frame of the
/// memory map that has not been handed out.
pub struct BootInfoFrameAllocator {
    size: usize,
    used: usize,
    regions: Vec<MemoryRegion>,
    region: usize,
    page: u64,
    recycled: Vec<u32>,
}

impl View for BootInfoFrameAllocator {
    type V = AllocView;

    closed spec fn view(&self) -> AllocView {
        AllocView {
            recycled: self.recycled@,
            pending: self.pending(),
            used: self.used as nat,
            size: self.size as nat,
        }
    }
}

impl BootInfoFrameAllocator {
    /// The frames of the memory map not handed out yet, in order.
    closed spec fn pending(&self) -> Seq<u64> {
        if self.region < self.regions@.len() {
            region_rest(self.regions@[self.region as int], self.page as int) + map_frames(
                self.regions@.subrange(self.region + 1, self.regions@.len() as int),
            )
        } else {
            Seq::empty()
        }
    }

    /// The cursor stays inside the map and its region.
    pub closed spec fn wf(&self) -> bool {
        &&& map_ok(self.regions@)
        &&& self.region <= self.regions@.len()
        &&& self.region < self.regions@.len() ==> self.page <= self.regions@[self.region as int].page_count
    }

    /// The cursor, when inside the map, points at a frame that exists.
    closed spec fn cursor_ready(&self) -> bool {
        self.region < self.regions@.len() ==> {
            let r = self.regions@[self.region as int];
            r.ty == CONVENTIONAL && self.page < r.page_count
        }
    }

    proof fn lemma_map_frames_step(regions: Seq<MemoryRegion>, i: int)
        requires
            0 <= i < regions.len(),
        ensures
            map_frames(regions.subrange(i, regions.len() as int)) == region_rest(regions[i], 0)
                + map_frames(regions.subrange(i + 1, regions.len() as int)),
    {
        let s = regions.subrange(i, regions.len() as int);
        assert(s.drop_first() =~= regions.subrange(i + 1, regions.len() as int));
        assert(s[0] == regions[i]);
    }

    /// Moves the cursor past regions with no frame left; what is pending
    /// does not change.
    fn skip_spent(&mut self)
        requires
            old(self).wf(),
        ensures
            final(self).wf(),
            final(self).pending() == old(self).pending(),
            final(self).regions@ == old(self).regions@,
            final(self).recycled@ == old(self).recycled@,
            final(self).used == old(self).used,
            final(self).size == old(self).size,
            final(self).cursor_ready(),
    {
        let n = self.regions.len();
        while self.region < n && (self.regions[self.region].ty != CONVENTIONAL || self.page
            >= self.regions[self.region].page_count)
            invariant
                n == self.regions@.len(),
                self.wf(),
                self.pending() == old(self).pending(),
                self.regions@ == old(self).regions@,
                self.recycled@ == old(self).recycled@,
                self.used == old(self).used,
                self.size == old(self).size,
            decreases n - self.region,
        {
            let ghost before = self.pending();
            let ghost i = self.region as int;
            let ghost r = self.regions@[i];
            assert(region_rest(r, self.page as int) =~= Seq::<u64>::empty());
            self.region = self.region + 1;
            self.page = 0;
            proof {
                if self.region < n {
                    Self::lemma_map_frames_step(self.regions@, self.region as int);
                    assert(before =~= Seq::<u64>::empty() + map_frames(
                        self.regions@.subrange(self.region as int, n as int),
                    ));
                    assert(self.pending() =~= before);
                } else {
                    assert(self.regions@.subrange(i + 1, n as int) =~= Seq::<MemoryRegion>::empty());
                    assert(before =~= Seq::<u64>::empty());
                }
            }
        }
    }

    /// An allocator over the conventional regions of `memory_map`, for a
    /// machine of `size` frames.
    pub fn init(memory_map: Vec<MemoryRegion>, size: usize) -> (a: Self)
        requires
            map_ok(memory_map@),
        ensures
            a.wf(),
            a@ == (AllocView {
                recycled: Seq::empty(),
                pending: map_frames(memory_map@),
                used: 0,
                size: size as nat,
            }),
    {
        let mut a = BootInfoFrameAllocator {
            size,
            used: 0,
            regions: memory_map,
            region: 0,
            page: 0,
            recycled: Vec::new(),
        };
        proof {
            if a.regions@.len() > 0 {
                let s = a.regions@;
                assert(s.subrange(1, s.len() as int) =~= s.drop_first());
            } else {
                assert(map_frames(a.regions@) =~= Seq::<u64>::empty());
            }
        }
        a.skip_spent();
        a
    }

    /// The number of frames taken from the memory map so far, counting the
    /// attempts made after it ran out.
    pub fn frames_used(&self) -> (n: usize)
        ensures
            n == self@.used,
    {
        self.used
    }

    /// The number of frames of the machine.
    pub fn frames_total(&self) -> (n: usize)
        ensures
            n == self@.size,
    {
        self.size
    }

    /// The number of freed frames waiting to be reused.
    pub fn recycled_count(&self) -> (n: usize)
        ensures
            n == self@.recycled.len(),
    {
        self.recycled.len()
    }

    /// The bytes of the frames in use (taken from the map and not freed) and
    /// the bytes of all frames, as the process list reports them.
    pub fn memory_usage(&self) -> (r: (u64, u64))
        requires
            self@.recycled.len() <= self@.used,
            self@.used * (FRAME_SIZE as int) <= u64::MAX,
            self@.size * (FRAME_SIZE as int) <= u64::MAX,
        ensures
            r.0 == (self@.used - self@.recycled.len()) * (FRAME_SIZE as int),
            r.1 == self@.size * (FRAME_SIZE as int),
    {
        let in_use = self.used - self.recycled.len();
        assert(in_use * 4096 <= self.used * 4096) by (nonlinear_arith)
            requires
                in_use <= self.used,
        ;
        ((in_use as u64) * FRAME_SIZE, (self.size as u64) * FRAME_SIZE)
    }

    /// Hands out a frame: the last freed one if any, else the next frame of
    /// the memory map, or `None` when the map is spent (see `alloc_spec`).
    pub fn allocate_frame(&mut self) -> (r: Option<u64>)
        requires
            old(self).wf(),
            old(self)@.recycled.len() == 0 ==> old(self)@.used < usize::MAX,
        ensures
            final(self).wf(),
            (final(self)@, r) == alloc_spec(old(self)@),
    {
        if let Some(key) = self.recycled.pop() {
            Some(u32_to_phys_frame(key))
        } else {
            self.used = self.used + 1;
            let r = self.next_frame();
            proof {
                assert(self@.recycled =~= old(self)@.recycled);
            }
            r
        }
    }

    /// The next frame of the memory map, if any is left.
    fn next_frame(&mut self) -> (r: Option<u64>)
        requires
            old(self).wf(),
        ensures
            final(self).wf(),
            final(self).recycled@ == old(self).recycled@,
            final(self).used == old(self).used,
            final(self).size == old(self).size,
            old(self).pending().len() > 0 ==> r == Some(old(self).pending()[0])
                && final(self).pending() == old(self).pending().drop_first(),
            old(self).pending().len() == 0 ==> r is None && final(self).pending()
                == old(self).pending(),
    {
        self.skip_spent();
        let n = self.regions.len();
        if self.region >= n {
            return None;
        }
        let ghost before = self.pending();
        let r = self.regions[self.region];
        let ghost i = self.region as int;
        proof {
            assert(self.regions@[i] == r);
            assert(r.phys_start + r.page_count * (FRAME_SIZE as int) <= PHYS_LIMIT as int);
            assert(self.page * (FRAME_SIZE as int) < r.page_count * (FRAME_SIZE as int))
                by (nonlinear_arith)
                requires
                    self.page < r.page_count,
            ;
        }
        let addr: u64 = r.phys_start + self.page * FRAME_SIZE;
        let frame: u64 = addr - addr % FRAME_SIZE;
        proof {
            assert(before[0] == frame);
        }
        self.page = self.page + 1;
        proof {
            let rest_old = region_rest(r, self.page - 1);
            let rest_new = region_rest(r, self.page as int);
            assert(rest_new =~= rest_old.drop_first());
            assert(self.pending() =~= before.drop_first());
        }
        Some(frame)
    }

    /// Takes back `frame` for reuse.
    pub fn deallocate_frame(&mut self, frame: u64)
        requires
            frame % FRAME_SIZE == 0,
            frame / FRAME_SIZE <= u32::MAX,
        ensures
            final(self)@ == free_spec(old(self)@, frame),
            old(self).wf() ==> final(self).wf(),
    {
        let key = phys_frame_to_u32(frame);
        self.recycled.push(key);
        proof {
            assert(self@.recycled =~= old(self)@.recycled.push(key));
        }
    }
}

/// A frame freed and then asked for again comes back, and the allocator is
/// as it was before the two calls.
pub proof fn law_free_then_allocate(v: AllocView, frame: u64)
    requires
        frame % FRAME_SIZE == 0,
        frame / FRAME_SIZE <= u32::MAX,
    ensures
        alloc_spec(free_spec(v, frame)) == (v, Some(frame)),
{
    let w = free_spec(v, frame);
    assert(w.recycled.drop_last() =~= v.recycled);
    assert((frame / FRAME_SIZE) * (FRAME_SIZE as int) + frame % FRAME_SIZE == frame)
        by (nonlinear_arith);
}

/// Frames of the memory map come out in map order: asking twice on an
/// allocator with no freed frame gives the first two pending frames.
pub proof fn law_map_order(v: AllocView)
    requires
        v.recycled.len() == 0,
        v.pending.len() >= 2,
    ensures
        alloc_spec(v).1 == Some(v.pending[0]),
        alloc_spec(alloc_spec(v).0).1 == Some(v.pending[1]),
{
}

/// Every conventional region starts on a frame boundary.
pub open spec fn regions_aligned(m: Seq<MemoryRegion>) -> bool {
    forall|i: int|
        0 <= i < m.len() && (#[trigger] m[i]).ty == CONVENTIONAL ==> m[i].phys_start % FRAME_SIZE == 0
}

/// The first address past a region.
pub open spec fn region_limit(r: MemoryRegion) -> int {
    r.phys_start + r.page_count * (FRAME_SIZE as int)
}

/// No two conventional regions overlap.
pub open spec fn regions_disjoint(m: Seq<MemoryRegion>) -> bool {
    forall|i: int, j: int|
        0 <= i < j < m.len() && (#[trigger] m[i]).ty == CONVENTIONAL && (#[trigger] m[j]).ty
            == CONVENTIONAL ==> region_limit(m[i]) <= m[j].phys_start || region_limit(m[j])
            <= m[i].phys_start
}

proof fn lemma_frame_of_page(start: int, v: int)
    requires
        start % 4096 == 0,
        start >= 0,
        v >= 0,
    ensures
        align_down(start + v * 4096) == start + v * 4096,
{
    assert((start + v * 4096) % 4096 == 0) by (nonlinear_arith)
        requires
            start % 4096 == 0,
            start >= 0,
            v >= 0,
    ;
}

proof fn lemma_region_frames(r: MemoryRegion)
    requires
        r.ty == CONVENTIONAL,
        r.phys_start % 4096 == 0,
        region_limit(r) <= PHYS_LIMIT as int,
    ensures
        region_rest(r, 0).no_duplicates(),
        forall|k: int|
            0 <= k < region_rest(r, 0).len() ==> r.phys_start <= #[trigger] region_rest(r, 0)[k]
                < region_limit(r),
{
    let f = region_rest(r, 0);
    assert forall|k: int| 0 <= k < f.len() implies f[k] == r.phys_start + k * 4096 && r.phys_start
        <= #[trigger] f[k] < region_limit(r) by {
        lemma_frame_of_page(r.phys_start as int, k);
        assert(k * 4096 < r.page_count * 4096) by (nonlinear_arith)
            requires
                k < r.page_count,
        ;
        assert(k * 4096 >= 0) by (nonlinear_arith)
            requires
                k >= 0,
        ;
    }
    assert forall|a: int, b: int| 0 <= a < f.len() && 0 <= b < f.len() && a != b implies f[a] != f[b] by {
        lemma_frame_of_page(r.phys_start as int, a);
        lemma_frame_of_page(r.phys_start as int, b);
        assert(a * 4096 != b * 4096) by (nonlinear_arith)
            requires
                a != b,
        ;
    }
}

proof fn lemma_map_frames_in_regions(m: Seq<MemoryRegion>, x: u64)
    requires
        map_frames(m).contains(x),
        map_ok(m),
        regions_aligned(m),
    ensures
        exists|i: int|
            0 <= i < m.len() && (#[trigger] m[i]).ty == CONVENTIONAL && m[i].phys_start <= x
                < region_limit(m[i]),
    decreases m.len(),
{
    let first = region_rest(m[0], 0);
    let rest = m.drop_first();
    let k = choose|k: int| 0 <= k < map_frames(m).len() && map_frames(m)[k] == x;
    if k < first.len() {
        assert(m[0].ty == CONVENTIONAL);
        lemma_region_frames(m[0]);
        assert(first[k] == x);
    } else {
        assert(map_frames(rest)[k - first.len()] == x);
        assert(map_ok(rest));
        assert(regions_aligned(rest));
        lemma_map_frames_in_regions(rest, x);
        let i = choose|i: int|
            0 <= i < rest.len() && (#[trigger] rest[i]).ty == CONVENTIONAL && rest[i].phys_start <= x
                < region_limit(rest[i]);
        assert(m[i + 1] == rest[i]);
    }
}

/// A memory map of aligned, non-overlapping regions yields every frame at
/// most once.
pub proof fn law_map_frames_distinct(m: Seq<MemoryRegion>)
    requires
        map_ok(m),
        regions_aligned(m),
        regions_disjoint(m),
    ensures
        map_frames(m).no_duplicates(),
    decreases m.len(),
{
    if m.len() > 0 {
        let rest = m.drop_first();
        let first = region_rest(m[0], 0);
        assert(map_ok(rest));
        assert(regions_aligned(rest));
        assert forall|i: int, j: int|
            0 <= i < j < rest.len() && (#[trigger] rest[i]).ty == CONVENTIONAL && (#[trigger] rest[j]).ty
                == CONVENTIONAL implies region_limit(rest[i]) <= rest[j].phys_start || region_limit(
            rest[j],
        ) <= rest[i].phys_start by {
            assert(m[i + 1] == rest[i] && m[j + 1] == rest[j]);
        }
        law_map_frames_distinct(rest);
        let all = map_frames(m);
        let tail = map_frames(rest);
        if m[0].ty == CONVENTIONAL {
            lemma_region_frames(m[0]);
            assert forall|a: int, b: int| 0 <= a < all.len() && 0 <= b < all.len() && a != b implies all[a]
                != all[b] by {
                if a < first.len() && b >= first.len() {
                    let x = all[b];
                    assert(tail[b - first.len()] == x);
                    assert(tail.contains(x));
                    lemma_map_frames_in_regions(rest, x);
                    let i = choose|i: int|
                        0 <= i < rest.len() && (#[trigger] rest[i]).ty == CONVENTIONAL && rest[i].phys_start
                            <= x < region_limit(rest[i]);
                    assert(m[i + 1] == rest[i]);
                    assert(first[a] == all[a]);
                } else if b < first.len() && a >= first.len() {
                    let x = all[a];
                    assert(tail[a - first.len()] == x);
                    assert(tail.contains(x));
                    lemma_map_frames_in_regions(rest, x);
                    let i = choose|i: int|
                        0 <= i < rest.len() && (#[trigger] rest[i]).ty == CONVENTIONAL && rest[i].phys_start
                            <= x < region_limit(rest[i]);
                    assert(m[i + 1] == rest[i]);
                    assert(first[b] == all[b]);
                } else if a < first.len() {
                    assert(first[a] == all[a] && first[b] == all[b]);
                } else {
                    assert(tail[a - first.len()] == all[a] && tail[b - first.len()] == all[b]);
                }
            }
        } else {
            assert(first =~= Seq::<u64>::empty());
            assert(all =~= tail);
        }
    }
}

/// A frame taken fresh from the memory map is not pending any more, so the
/// map never hands it out again.
pub proof fn law_fresh_frame_not_pending_again(v: AllocView)
    requires
        v.recycled.len() == 0,
        v.pending.len() > 0,
        v.pending.no_duplicates(),
    ensures
        alloc_spec(v).1 == Some(v.pending[0]),
        !alloc_spec(v).0.pending.contains(v.pending[0]),
        alloc_spec(v).0.pending.no_duplicates(),
{
    let p = v.pending;
    let q = p.drop_first();
    assert forall|k: int| 0 <= k < q.len() implies q[k] != p[0] by {
        assert(q[k] == p[k + 1]);
    }
}

/// The key under which a frame is kept: its address over the frame size.
pub fn phys_frame_to_u32(frame: u64) -> (key: u32)
    requires
        frame / FRAME_SIZE <= u32::MAX,
    ensures
        key == frame / FRAME_SIZE,
{
    (frame / FRAME_SIZE) as u32
}

/// The frame of a key.
pub fn u32_to_phys_frame(key: u32) -> (frame: u64)
    ensures
        frame == key_frame(key),
        frame % FRAME_SIZE == 0,
{
    let f = (key as u64) * FRAME_SIZE;
    assert(f % FRAME_SIZE == 0) by (nonlinear_arith)
        requires
            f == key * 4096,
    ;
    f
}

/// Keys and frames convert both ways: the key of the frame of a key is that
/// key, and the frame of the key of a frame-aligned address whose key fits
/// in 32 bits is that address.
pub proof fn law_frame_key_roundtrip(key: u32, frame: u64)
    ensures
        key_frame(key) / FRAME_SIZE == key,
        key_frame(key) % FRAME_SIZE == 0,
        frame % FRAME_SIZE == 0 && frame / FRAME_SIZE <= u32::MAX ==> key_frame(
            (frame / FRAME_SIZE) as u32,
        ) == frame,
{
    assert(key * 4096 <= u64::MAX) by (nonlinear_arith)
        requires
            key <= u32::MAX,
    ;
    assert((key * 4096) / 4096 == key && (key * 4096) % 4096 == 0) by (nonlinear_arith);
    if frame % FRAME_SIZE == 0 && frame / FRAME_SIZE <= u32::MAX {
        assert((frame / 4096) * 4096 == frame) by (nonlinear_arith)
            requires
                frame % 4096 == 0,
        ;
    }
}

} // verus!
