//! The firmware's memory map, and how the frame allocator is built from it.

use vstd::prelude::*;
use crate::memory::{BitmapFrameAllocator, mark_range};

verus! {

/// What the firmware says a region of physical memory is for.
#[derive(Clone, Copy, Debug, PartialEq, Eq, Structural)]
pub enum RegionKind {
    /// Ordinary RAM, free for use.
    Usable,
    /// Code of the firmware's boot services, free once they have ended.
    BootServicesCode,
    /// Data of the firmware's boot services, free once they have ended.
    BootServicesData,
    /// Anything else: never handed out.
    Reserved,
}

/// One entry of the firmware's memory map.
#[derive(Clone, Copy, Debug, PartialEq, Eq, Structural)]
pub struct MemoryRegion {
    pub phys_start: u64,
    pub page_count: u64,
    pub kind: RegionKind,
}

/// Why the frame allocator could not be built.
#[derive(Clone, Copy, Debug, PartialEq, Eq, Structural)]
pub enum MemoryInitError {
    /// The map holds no usable region with any page in it.
    NoUsableRegion,
    /// The largest usable region cannot hold the bitmap.
    RegionTooSmall,
}

impl MemoryInitError {
    /// The line that the console shows for this error.
    pub fn message(&self) -> (r: &'static str)
        ensures
            r@ == match *self {
                MemoryInitError::NoUsableRegion => "ERROR: Failed to find suitable memory region for allocator"@,
                MemoryInitError::RegionTooSmall => "ERROR: Largest memory region too small for bitmap allocator"@,
            },
    {
        match self {
            MemoryInitError::NoUsableRegion => "ERROR: Failed to find suitable memory region for allocator",
            MemoryInitError::RegionTooSmall => "ERROR: Largest memory region too small for bitmap allocator",
        }
    }
}

impl MemoryRegion {
    /// Bytes in the region.
    pub open spec fn bytes(self) -> int {
        self.page_count * 4096
    }

    /// Frame in which the region starts.
    pub open spec fn first_frame(self) -> int {
        self.phys_start as int / 4096
    }

    /// Whether the region's frames are free once the kernel runs.
    pub open spec fn reclaimable(self) -> bool {
        self.kind == RegionKind::Usable || self.kind == RegionKind::BootServicesCode || self.kind
            == RegionKind::BootServicesData
    }

    /// Whether the region is reclaimable and holds frame `f`.
    pub open spec fn frees(self, f: int) -> bool {
        self.reclaimable() && self.first_frame() <= f < self.first_frame() + self.page_count
    }

    /// Whether the region's frames are free once the kernel runs.
    pub fn is_reclaimable(&self) -> (r: bool)
        ensures
            r == self.reclaimable(),
    {
        match self.kind {
            RegionKind::Usable => true,
            RegionKind::BootServicesCode => true,
            RegionKind::BootServicesData => true,
            RegionKind::Reserved => false,
        }
    }
}

/// Pages in all regions of the map together.
pub open spec fn total_pages(s: Seq<MemoryRegion>) -> int
    decreases s.len(),
{
    if s.len() == 0 {
        0
    } else {
        total_pages(s.drop_last()) + s.last().page_count
    }
}

/// Words of bitmap that it takes to track `frames` frames.
pub open spec fn bitmap_words(frames: int) -> int {
    (frames + 63) / 64
}

/// Region `k` is usable, holds at least one page, is as large as any usable
/// region, and larger than every usable region before it.
pub open spec fn is_largest_usable(s: Seq<MemoryRegion>, k: int) -> bool {
    &&& 0 <= k < s.len()
    &&& s[k].kind == RegionKind::Usable
    &&& s[k].bytes() > 0
    &&& forall|j: int|
        0 <= j < s.len() && (#[trigger] s[j]).kind == RegionKind::Usable ==> s[j].bytes()
            <= s[k].bytes()
    &&& forall|j: int|
        0 <= j < k && (#[trigger] s[j]).kind == RegionKind::Usable ==> s[j].bytes() < s[k].bytes()
}

/// Every usable region's size in bytes fits in 64 bits.
pub open spec fn usable_sizes_fit(s: Seq<MemoryRegion>) -> bool {
    forall|i: int|
        0 <= i < s.len() && (#[trigger] s[i]).kind == RegionKind::Usable ==> s[i].bytes()
            <= u64::MAX
}

/// Index of the largest usable region, if there is one.
pub open spec fn largest_usable(s: Seq<MemoryRegion>) -> Option<int> {
    if exists|k: int| is_largest_usable(s, k) {
        Some(choose|k: int| is_largest_usable(s, k))
    } else {
        None
    }
}

/// At most one region is the largest usable one.
pub proof fn lemma_largest_usable_unique(s: Seq<MemoryRegion>, k1: int, k2: int)
    requires
        is_largest_usable(s, k1),
        is_largest_usable(s, k2),
    ensures
        k1 == k2,
{
    if k1 < k2 {
        assert(s[k1].bytes() < s[k2].bytes());
        assert(s[k2].bytes() <= s[k1].bytes());
    } else if k2 < k1 {
        assert(s[k2].bytes() < s[k1].bytes());
        assert(s[k1].bytes() <= s[k2].bytes());
    }
}

/// The largest usable region, as start address and size in bytes; of several
/// of that size, the first. `None` if no usable region holds a page.
pub fn find_largest_region(mmap: &[MemoryRegion]) -> (r: Option<(u64, u64)>)
    requires
        usable_sizes_fit(mmap@),
    ensures
        match largest_usable(mmap@) {
            Some(k) => r == Some((mmap@[k].phys_start, mmap@[k].bytes() as u64)),
            None => r is None,
        },
{
    let mut largest_start_addr: u64 = 0;
    let mut largest_size: u64 = 0;
    let ghost mut at: int = -1;
    let mut i: usize = 0;
    while i < mmap.len()
        invariant
            0 <= i <= mmap@.len(),
            usable_sizes_fit(mmap@),
            -1 <= at < i,
            at == -1 ==> largest_size == 0,
            at >= 0 ==> {
                &&& mmap@[at].kind == RegionKind::Usable
                &&& largest_size == mmap@[at].bytes()
                &&& largest_start_addr == mmap@[at].phys_start
                &&& largest_size > 0
            },
            forall|j: int|
                0 <= j < i && (#[trigger] mmap@[j]).kind == RegionKind::Usable ==> mmap@[j].bytes()
                    <= largest_size,
            forall|j: int|
                0 <= j < at && (#[trigger] mmap@[j]).kind == RegionKind::Usable ==> mmap@[j].bytes()
                    < largest_size,
        decreases mmap@.len() - i,
    {
        let desc = mmap[i];
        if desc.kind == RegionKind::Usable {
            let size = desc.page_count * 4096;
            if size > largest_size {
                largest_size = size;
                largest_start_addr = desc.phys_start;
                proof {
                    at = i as int;
                }
            }
        }
        i += 1;
    }
    if largest_size > 0 {
        assert(is_largest_usable(mmap@, at));
        proof {
            lemma_largest_usable_unique(mmap@, at, largest_usable(mmap@)->0);
        }
        Some((largest_start_addr, largest_size))
    } else {
        assert forall|k: int| !is_largest_usable(mmap@, k) by {
            if 0 <= k < mmap@.len() && mmap@[k].kind == RegionKind::Usable {
                assert(mmap@[k].bytes() <= 0);
            }
        }
        None
    }
}

/// Some reclaimable region of the map holds frame `f`.
pub open spec fn frame_reclaimed(s: Seq<MemoryRegion>, f: int) -> bool {
    exists|j: int| 0 <= j < s.len() && (#[trigger] s[j]).frees(f)
}

/// Frames that a bitmap of `words` words takes up.
pub open spec fn bitmap_frames(words: int) -> int {
    (words * 8 + 4095) / 4096
}

/// Frame `f` is one of those that hold the bitmap, which starts in frame
/// `host_frame`.
pub open spec fn frame_holds_bitmap(host_frame: int, words: int, f: int) -> bool {
    host_frame <= f < host_frame + bitmap_frames(words)
}

/// The sizes in the map are within what the machine can count: the frames
/// of all regions together, rounded up to whole bitmap words, and the bytes
/// of each usable region.
pub open spec fn memory_map_fits(s: Seq<MemoryRegion>) -> bool {
    &&& total_pages(s) + 63 <= usize::MAX
    &&& usable_sizes_fit(s)
}

proof fn lemma_total_pages_prefix(s: Seq<MemoryRegion>, i: int)
    requires
        0 <= i <= s.len(),
    ensures
        0 <= total_pages(s.take(i)) <= total_pages(s),
        i < s.len() ==> total_pages(s.take(i + 1)) == total_pages(s.take(i)) + s[i].page_count,
    decreases s.len() - i,
{
    if i < s.len() {
        assert(s.take(i + 1).drop_last() =~= s.take(i));
        lemma_total_pages_prefix(s, i + 1);
    } else {
        assert(s.take(i) =~= s);
    }
    if i == 0 {
        assert(s.take(0).len() == 0);
    } else {
        lemma_total_pages_prefix_nonneg(s.take(i));
    }
}

proof fn lemma_total_pages_prefix_nonneg(s: Seq<MemoryRegion>)
    ensures
        total_pages(s) >= 0,
    decreases s.len(),
{
    if s.len() > 0 {
        lemma_total_pages_prefix_nonneg(s.drop_last());
    }
}

/// Pages in all regions together, if the sum fits in 64 bits.
pub fn count_pages(mmap: &[MemoryRegion]) -> (r: Option<u64>)
    ensures
        match r {
            Some(n) => n == total_pages(mmap@),
            None => total_pages(mmap@) > u64::MAX,
        },
{
    let mut total: u64 = 0;
    let mut i: usize = 0;
    while i < mmap.len()
        invariant
            0 <= i <= mmap@.len(),
            total == total_pages(mmap@.take(i as int)),
        decreases mmap@.len() - i,
    {
        proof {
            lemma_total_pages_prefix(mmap@, i as int);
        }
        match total.checked_add(mmap[i].page_count) {
            Some(t) => {
                total = t;
            },
            None => {
                proof {
                    lemma_total_pages_prefix(mmap@, i + 1);
                }
                return None;
            },
        }
        i += 1;
    }
    assert(mmap@.take(i as int) =~= mmap@);
    Some(total)
}

/// Whether the sizes in the map are within what the machine can count.
pub fn check_memory_map(mmap: &[MemoryRegion]) -> (r: bool)
    ensures
        r == memory_map_fits(mmap@),
{
    match count_pages(mmap) {
        Some(total) => {
            let limit: u64 = (usize::MAX as u64) - 63;
            if total > limit {
                return false;
            }
        },
        None => {
            return false;
        },
    }
    let mut i: usize = 0;
    while i < mmap.len()
        invariant
            0 <= i <= mmap@.len(),
            forall|j: int|
                0 <= j < i && (#[trigger] mmap@[j]).kind == RegionKind::Usable ==> mmap@[j].bytes()
                    <= u64::MAX,
        decreases mmap@.len() - i,
    {
        let desc = mmap[i];
        if desc.kind == RegionKind::Usable && desc.page_count > u64::MAX / 4096 {
            return false;
        }
        i += 1;
    }
    true
}

/// Words of bitmap storage that `handle_memory` asks for on this map.
pub fn storage_words(mmap: &[MemoryRegion]) -> (r: usize)
    requires
        memory_map_fits(mmap@),
    ensures
        r == bitmap_words(total_pages(mmap@)),
{
    let total = count_pages(mmap).unwrap();
    ((total + 63) / 64) as usize
}

/// Whether frame `f` is marked used once the allocator has been built on the
/// map `s` with its bitmap starting in frame `host_frame`: every frame is, but
/// those of the reclaimable regions; and those that hold the bitmap are used
/// whatever region they lie in.
pub open spec fn frame_used_after_build(s: Seq<MemoryRegion>, host_frame: int, f: int) -> bool {
    frame_holds_bitmap(host_frame, bitmap_words(total_pages(s)), f) || !frame_reclaimed(s, f)
}

proof fn lemma_reclaimed_step(s: Seq<MemoryRegion>, i: int, f: int)
    requires
        0 <= i < s.len(),
    ensures
        frame_reclaimed(s.take(i + 1), f) == (frame_reclaimed(s.take(i), f) || s[i].frees(f)),
{
    let a = s.take(i);
    let b = s.take(i + 1);
    if frame_reclaimed(b, f) {
        let j = choose|j: int| 0 <= j < b.len() && (#[trigger] b[j]).frees(f);
        if j < i {
            assert(a[j].frees(f));
        }
    }
    if frame_reclaimed(a, f) {
        let j = choose|j: int| 0 <= j < a.len() && (#[trigger] a[j]).frees(f);
        assert(b[j].frees(f));
    }
    if s[i].frees(f) {
        assert(b[i].frees(f));
    }
}

/// Marks the tracked frames of `[start, start + count)` free or used, with
/// the range given in 64 bits.
fn mark_frames(allocator: &mut BitmapFrameAllocator, start: u64, count: u64, used: bool)
    requires
        old(allocator).wf(),
    ensures
        final(allocator).wf(),
        final(allocator).word_count() == old(allocator).word_count(),
        final(allocator)@.cursor == old(allocator)@.cursor,
        final(allocator)@.used == mark_range(old(allocator)@.used, start as int, count as int, used),
{
    let total = allocator.total_frames();
    if start >= total as u64 {
        assert(allocator@.used =~= mark_range(allocator@.used, start as int, count as int, used));
        return ;
    }
    let room: u64 = total as u64 - start;
    let within: u64 = if count > room {
        room
    } else {
        count
    };
    if used {
        allocator.mark_range_used(start as usize, within as usize);
    } else {
        allocator.mark_range_free(start as usize, within as usize);
    }
    assert(allocator@.used =~= mark_range(old(allocator)@.used, start as int, count as int, used));
}

/// Builds the frame allocator from the firmware's memory map, with `storage`
/// as its bitmap. Every frame starts out used; the frames of usable and of
/// boot-service regions are then freed; last, the frames in which the bitmap
/// lies, at the start of the largest usable region, are marked used again.
/// Fails if there is no usable region, or if the largest cannot hold the
/// bitmap.
pub fn handle_memory(mmap: &[MemoryRegion], storage: Vec<u64>) -> (r: Result<
    BitmapFrameAllocator,
    MemoryInitError,
>)
    requires
        memory_map_fits(mmap@),
        storage@.len() == bitmap_words(total_pages(mmap@)),
    ensures
        match largest_usable(mmap@) {
            None => r matches Err(e) && e == MemoryInitError::NoUsableRegion,
            Some(k) => if mmap@[k].bytes() < bitmap_words(total_pages(mmap@)) * 8 {
                r matches Err(e) && e == MemoryInitError::RegionTooSmall
            } else {
                &&& r matches Ok(a)
                &&& a.wf()
                &&& a@.cursor == 0
                &&& a@.used.len() == total_pages(mmap@)
                &&& forall|f: int|
                    0 <= f < a@.used.len() ==> #[trigger] a@.used[f] == frame_used_after_build(
                        mmap@,
                        mmap@[k].first_frame(),
                        f,
                    )
            },
        },
{
    let total_pages: u64 = count_pages(mmap).unwrap();
    let bitmap_field_size: u64 = (total_pages + 63) / 64;
    let bitmap_size: u64 = bitmap_field_size * 8;

    let (region_start, region_size) = match find_largest_region(mmap) {
        Some(region) => region,
        None => {
            return Err(MemoryInitError::NoUsableRegion);
        },
    };
    let ghost host = largest_usable(mmap@)->0;

    if region_size < bitmap_size {
        return Err(MemoryInitError::RegionTooSmall);
    }

    let mut storage = storage;
    let mut w: usize = 0;
    while w < storage.len()
        invariant
            0 <= w <= storage@.len(),
            storage@.len() == bitmap_field_size,
            forall|j: int| 0 <= j < w ==> storage@[j] == u64::MAX,
        decreases storage@.len() - w,
    {
        storage[w] = u64::MAX;
        w += 1;
    }

    let mut allocator = BitmapFrameAllocator::new(
        storage,
        bitmap_field_size as usize,
        total_pages as usize,
    );

    let mut i: usize = 0;
    while i < mmap.len()
        invariant
            0 <= i <= mmap@.len(),
            allocator.wf(),
            allocator@.cursor == 0,
            allocator@.used.len() == total_pages,
            forall|f: int|
                0 <= f < total_pages ==> #[trigger] allocator@.used[f] == !frame_reclaimed(
                    mmap@.take(i as int),
                    f,
                ),
        decreases mmap@.len() - i,
    {
        let desc = mmap[i];
        let ghost before = allocator@.used;
        if desc.is_reclaimable() {
            let start_frame = desc.phys_start / 4096;
            mark_frames(&mut allocator, start_frame, desc.page_count, false);
        }
        proof {
            assert forall|f: int| 0 <= f < total_pages implies #[trigger] allocator@.used[f]
                == !frame_reclaimed(mmap@.take(i + 1), f) by {
                lemma_reclaimed_step(mmap@, i as int, f);
                assert(before[f] == !frame_reclaimed(mmap@.take(i as int), f));
            }
        }
        i += 1;
    }
    assert(mmap@.take(i as int) =~= mmap@);

    let bitmap_frames: u64 = (bitmap_size + 4095) / 4096;
    let bitmap_start_frame: u64 = region_start / 4096;
    let ghost freed = allocator@.used;
    mark_frames(&mut allocator, bitmap_start_frame, bitmap_frames, true);
    proof {
        assert forall|f: int| 0 <= f < allocator@.used.len() implies #[trigger] allocator@.used[f]
            == frame_used_after_build(mmap@, mmap@[host].first_frame(), f) by {
            assert(freed[f] == !frame_reclaimed(mmap@, f));
        }
    }
    Ok(allocator)
}

} // verus!
