//! Planning of the kernel's address space: which pages are mapped to which
//! frames with which flags, in what order, and what follows from each
//! outcome. The page tables themselves are written by the caller, who carries
//! out one request at a time and reports how it went.

use vstd::prelude::*;
use x86_64::structures::paging::{Page, PhysFrame, Size4KiB};
use x86_64::{PhysAddr, VirtAddr};
use crate::memory::{FrameAllocatorWrapper, frame_taken};
use crate::memory_map::MemoryRegion;

verus! {

/// Physical address of the local APIC's registers.
pub const LAPIC_BASE: u64 = 0xFEE0_0000;

/// Physical address of the I/O APIC's registers.
pub const IOAPIC_BASE: u64 = 0xFEC0_0000;

/// One past the highest physical address: 2^52.
pub const PHYS_LIMIT: u64 = 0x10_0000_0000_0000;

/// One past the highest address of the lower half of the virtual address
/// space: 2^47.
pub const LOW_HALF_LIMIT: u64 = 0x8000_0000_0000;

/// First address of the upper half of the virtual address space.
pub const HIGH_HALF_START: u64 = 0xFFFF_8000_0000_0000;

/// Start address of the frame, or page, that holds `addr`.
pub open spec fn frame_of(addr: int) -> int {
    addr - addr % 4096
}

/// Bits 47 to 63 of `addr` are all equal.
pub open spec fn is_canonical(addr: u64) -> bool {
    addr < LOW_HALF_LIMIT || addr >= HIGH_HALF_START
}

/// Start address of the 4 KiB frame that holds the physical address `addr`.
///
/// Calls `PhysAddr::new` and `PhysFrame::containing_address` of x86_64. The
/// first panics on an address with a bit from 52 up set, which `requires`
/// leaves out; the second aligns the address down to 4096.
#[verifier::external_body]
fn frame_containing(addr: u64) -> (r: u64)
    requires
        addr < PHYS_LIMIT,
    ensures
        r == frame_of(addr as int),
{
    PhysFrame::<Size4KiB>::containing_address(PhysAddr::new(addr)).start_address().as_u64()
}

/// The frame that starts at the physical address `addr`, as its start
/// address; `None` if no frame starts there.
///
/// Calls `PhysAddr::new` and `PhysFrame::from_start_address` of x86_64. The
/// second returns an error exactly when the address is not a multiple of
/// 4096.
#[verifier::external_body]
fn frame_starting_at(addr: u64) -> (r: Option<u64>)
    requires
        addr < PHYS_LIMIT,
    ensures
        r == if addr % 4096 == 0 {
            Some(addr)
        } else {
            None
        },
{
    match PhysFrame::<Size4KiB>::from_start_address(PhysAddr::new(addr)) {
        Ok(frame) => Some(frame.start_address().as_u64()),
        Err(_) => None,
    }
}

/// Start address of the 4 KiB page that holds the virtual address `addr`.
///
/// Calls `VirtAddr::new` and `Page::containing_address` of x86_64. The first
/// panics on an address that is not canonical, which `requires` leaves out;
/// the second aligns the address down to 4096.
#[verifier::external_body]
fn page_containing(addr: u64) -> (r: u64)
    requires
        is_canonical(addr),
    ensures
        r == frame_of(addr as int),
{
    Page::<Size4KiB>::containing_address(VirtAddr::new(addr)).start_address().as_u64()
}

/// Start address of the page `count` pages after the page that starts at
/// `page`.
///
/// Adds `count` to a `Page` of x86_64, which multiplies it by 4096, adds that
/// to the page's address and panics if the sum overflows or is not canonical;
/// `requires` leaves those inputs out.
#[verifier::external_body]
fn page_after(page: u64, count: u64) -> (r: u64)
    requires
        is_canonical(page),
        page % 4096 == 0,
        page + count * 4096 <= u64::MAX,
        is_canonical((page + count * 4096) as u64),
    ensures
        r == page + count * 4096,
{
    (Page::<Size4KiB>::containing_address(VirtAddr::new(page)) + count).start_address().as_u64()
}

/// What a mapping is for. It decides the flags, and what follows from each
/// outcome.
#[derive(Clone, Copy, Debug, PartialEq, Eq, Structural)]
pub enum MapTarget {
    /// RAM of the memory map, mapped at its own address.
    Identity,
    /// The linear framebuffer.
    Framebuffer,
    /// The local APIC's registers.
    LocalApic,
    /// The I/O APIC's registers.
    IoApic,
    /// A page of the kernel heap.
    Heap,
}

/// Flags of a page-table entry.
#[derive(Clone, Copy, Debug, PartialEq, Eq, Structural)]
pub struct PageFlags {
    pub present: bool,
    pub writable: bool,
    pub no_cache: bool,
}

/// One page to map: the page that starts at the virtual address `page`, to
/// the frame that starts at the physical address `frame`.
#[derive(Clone, Copy, Debug, PartialEq, Eq, Structural)]
pub struct MapRequest {
    pub target: MapTarget,
    pub page: u64,
    pub frame: u64,
    pub flags: PageFlags,
}

/// How the attempt to map one page ended.
#[derive(Clone, Copy, Debug, PartialEq, Eq, Structural)]
pub enum MapOutcome {
    /// The entry was written.
    Mapped,
    /// The page was mapped already.
    PageAlreadyMapped,
    /// A huge page of a table above covers the page.
    ParentEntryHugePage,
    /// A table was missing and no frame was left for it.
    FrameAllocationFailed,
}

/// What to do after an attempt to map one page.
#[derive(Clone, Copy, Debug, PartialEq, Eq, Structural)]
pub enum MapDecision {
    /// The entry is new: flush the page's translation and go on.
    Flush,
    /// Nothing was written and nothing is wrong: go on.
    Skip,
    /// As `Skip`, and worth a line on the console.
    SkipAndReport,
    /// The address space cannot be trusted: halt.
    Halt,
}

/// The flags that pages of `target` are mapped with: present and writable,
/// and uncached where device registers or the framebuffer lie behind.
pub open spec fn flags_for(target: MapTarget) -> PageFlags {
    PageFlags {
        present: true,
        writable: true,
        no_cache: target == MapTarget::Framebuffer || target == MapTarget::LocalApic || target
            == MapTarget::IoApic,
    }
}

/// What follows from `outcome` for a page of `target`. A page that was
/// mapped already is passed over everywhere but in the heap, and reported
/// where it is a device's; one that a huge page covers is passed over in RAM
/// only; a missing frame always halts.
pub open spec fn decision_for(target: MapTarget, outcome: MapOutcome) -> MapDecision {
    match outcome {
        MapOutcome::Mapped => MapDecision::Flush,
        MapOutcome::PageAlreadyMapped => match target {
            MapTarget::Identity => MapDecision::Skip,
            MapTarget::Framebuffer => MapDecision::SkipAndReport,
            MapTarget::LocalApic => MapDecision::SkipAndReport,
            MapTarget::IoApic => MapDecision::SkipAndReport,
            MapTarget::Heap => MapDecision::Halt,
        },
        MapOutcome::ParentEntryHugePage => match target {
            MapTarget::Identity => MapDecision::Skip,
            _ => MapDecision::Halt,
        },
        MapOutcome::FrameAllocationFailed => MapDecision::Halt,
    }
}

/// The flags that pages of `target` are mapped with.
pub fn page_flags(target: MapTarget) -> (r: PageFlags)
    ensures
        r == flags_for(target),
{
    let no_cache = match target {
        MapTarget::Identity => false,
        MapTarget::Framebuffer => true,
        MapTarget::LocalApic => true,
        MapTarget::IoApic => true,
        MapTarget::Heap => false,
    };
    PageFlags { present: true, writable: true, no_cache }
}

/// What to do after an attempt to map a page of `target` ended in `outcome`.
pub fn decide(target: MapTarget, outcome: MapOutcome) -> (r: MapDecision)
    ensures
        r == decision_for(target, outcome),
{
    match outcome {
        MapOutcome::Mapped => MapDecision::Flush,
        MapOutcome::PageAlreadyMapped => match target {
            MapTarget::Identity => MapDecision::Skip,
            MapTarget::Framebuffer => MapDecision::SkipAndReport,
            MapTarget::LocalApic => MapDecision::SkipAndReport,
            MapTarget::IoApic => MapDecision::SkipAndReport,
            MapTarget::Heap => MapDecision::Halt,
        },
        MapOutcome::ParentEntryHugePage => match target {
            MapTarget::Identity => MapDecision::Skip,
            _ => MapDecision::Halt,
        },
        MapOutcome::FrameAllocationFailed => MapDecision::Halt,
    }
}

/// The request names a page and a frame: both addresses are multiples of
/// 4096, the page's is canonical and the frame's lies below 2^52.
pub open spec fn request_aligned(request: MapRequest) -> bool {
    &&& request.page % 4096 == 0
    &&& is_canonical(request.page)
    &&& request.frame % 4096 == 0
    &&& request.frame < PHYS_LIMIT
}

/// The request that maps the frame at `frame` at its own address.
pub open spec fn identity_request(target: MapTarget, frame: int) -> MapRequest {
    MapRequest { target, page: frame as u64, frame: frame as u64, flags: flags_for(target) }
}

/// Start addresses of the frames from `lo` to `hi`, both of them frame
/// starts; none if `hi` is below `lo`.
pub open spec fn frame_run(lo: int, hi: int) -> Seq<int> {
    if hi < lo {
        Seq::empty()
    } else {
        Seq::new(((hi - lo) / 4096 + 1) as nat, |i: int| lo + 4096 * i)
    }
}

/// The requests that map, each at its own address, the frames from the one
/// that holds the byte `first` to the one that holds the byte `last`.
pub open spec fn span_requests(target: MapTarget, first: int, last: int) -> Seq<MapRequest> {
    requests_of(target, frame_run(frame_of(first), frame_of(last)))
}

/// Whether the bytes `[first, first + len)` of physical memory can be mapped
/// at their own addresses: they lie below 2^52, the last of them exists, and
/// the frames that hold them lie in the lower half of the virtual address
/// space.
pub open spec fn span_mappable(first: int, len: int) -> bool {
    &&& 0 <= first < PHYS_LIMIT
    &&& 1 <= first + len <= PHYS_LIMIT
    &&& frame_of(first) <= frame_of(first + len - 1) ==> frame_of(first + len - 1)
        < LOW_HALF_LIMIT
}

/// The requests that map each of `frames` at its own address.
pub open spec fn requests_of(target: MapTarget, frames: Seq<int>) -> Seq<MapRequest> {
    frames.map_values(|f: int| identity_request(target, f))
}

proof fn lemma_requests_pop(target: MapTarget, frames: Seq<int>, rest: Seq<MapRequest>)
    requires
        frames.len() > 0,
    ensures
        (requests_of(target, frames) + rest).len() > 0,
        (requests_of(target, frames) + rest)[0] == identity_request(target, frames[0]),
        (requests_of(target, frames) + rest).skip(1) == requests_of(target, frames.skip(1)) + rest,
{
    assert((requests_of(target, frames) + rest).skip(1) =~= requests_of(target, frames.skip(1))
        + rest);
}

proof fn lemma_requests_none(target: MapTarget, rest: Seq<MapRequest>)
    ensures
        requests_of(target, Seq::<int>::empty()) + rest == rest,
{
    assert(requests_of(target, Seq::<int>::empty()) + rest =~= rest);
}

/// A run of frames still to hand out: those from `next` to `last`, while
/// `open`.
struct FrameCursor {
    next: u64,
    last: u64,
    open: bool,
}

impl FrameCursor {
    spec fn wf(self) -> bool {
        self.open ==> self.next % 4096 == 0 && self.last % 4096 == 0 && self.next <= self.last
    }

    spec fn frames(self) -> Seq<int> {
        if self.open {
            frame_run(self.next as int, self.last as int)
        } else {
            Seq::empty()
        }
    }

    fn closed() -> (r: Self)
        ensures
            r.wf(),
            r.frames() == Seq::<int>::empty(),
    {
        FrameCursor { next: 0, last: 0, open: false }
    }

    /// The frames that hold the bytes `[first, first + len)`.
    fn spanning(first: u64, len: u64) -> (r: Self)
        requires
            0 <= first < PHYS_LIMIT,
            1 <= first + len <= PHYS_LIMIT,
        ensures
            r.wf(),
            r.frames() == frame_run(frame_of(first as int), frame_of(first + len - 1)),
            r.open ==> r.last == frame_of(first + len - 1),
    {
        let end_addr = first + len;
        let start_frame = frame_containing(first);
        let end_frame = frame_containing(end_addr - 1);
        FrameCursor { next: start_frame, last: end_frame, open: start_frame <= end_frame }
    }

    fn take(&mut self) -> (r: Option<u64>)
        requires
            old(self).wf(),
        ensures
            final(self).wf(),
            final(self).open ==> old(self).open && final(self).last == old(self).last,
            match r {
                Some(frame) => old(self).frames().len() > 0 && frame == old(self).frames()[0]
                    && final(self).frames() == old(self).frames().skip(1) && frame % 4096 == 0
                    && frame <= old(self).last,
                None => old(self).frames().len() == 0 && *final(self) == *old(self),
            },
    {
        if !self.open {
            return None;
        }
        let frame = self.next;
        if self.next == self.last {
            self.open = false;
        } else {
            self.next = self.next + 4096;
        }
        assert(self.frames() =~= old(self).frames().skip(1));
        Some(frame)
    }
}

/// How far the address space has been built. Each stage is reached once, in
/// this order.
#[derive(Clone, Copy, Debug, PartialEq, Eq, Structural)]
pub enum MapperState {
    /// Nothing exists yet.
    Unbuilt,
    /// The root table has its frame.
    RootAllocated,
    /// Every region of the memory map has been gone through.
    RegionsMapped,
    /// The framebuffer and both APICs have been gone through.
    DevicesMapped,
    /// The processor runs on the new tables.
    Active,
    /// The heap has its frames.
    HeapMapped,
}

/// One step of mapping the heap.
#[derive(Clone, Copy, Debug, PartialEq, Eq, Structural)]
pub enum HeapStep {
    /// Map this page to this fresh frame.
    MapPage(MapRequest),
    /// No frame is left for the heap page of this index. Pages mapped so far
    /// stay mapped and keep their frames.
    OutOfFrames(u64),
    /// Every heap page has been handed out.
    Done,
}

/// The requests that map the region `r` at its own addresses.
pub open spec fn region_requests(r: MemoryRegion) -> Seq<MapRequest> {
    span_requests(MapTarget::Identity, r.phys_start as int, r.phys_start + r.page_count * 4096 - 1)
}

/// The requests for the regions of `s` from index `k` on, in their order.
pub open spec fn identity_requests_from(s: Seq<MemoryRegion>, k: int) -> Seq<MapRequest>
    decreases s.len() - k,
{
    if k < 0 || k >= s.len() {
        Seq::empty()
    } else {
        region_requests(s[k]) + identity_requests_from(s, k + 1)
    }
}

/// The requests for the devices from number `k` on: number 0 is the
/// framebuffer, `fb_size` bytes from `fb_addr` on; 1 the local APIC; 2 the
/// I/O APIC, one page each.
pub open spec fn device_requests_from(fb_addr: int, fb_size: int, k: int) -> Seq<MapRequest> {
    if k <= 0 {
        span_requests(MapTarget::Framebuffer, fb_addr, fb_addr + fb_size - 1)
            + seq![
            identity_request(MapTarget::LocalApic, LAPIC_BASE as int),
            identity_request(MapTarget::IoApic, IOAPIC_BASE as int),
        ]
    } else if k == 1 {
        seq![
            identity_request(MapTarget::LocalApic, LAPIC_BASE as int),
            identity_request(MapTarget::IoApic, IOAPIC_BASE as int),
        ]
    } else if k == 2 {
        seq![identity_request(MapTarget::IoApic, IOAPIC_BASE as int)]
    } else {
        Seq::empty()
    }
}

/// Every region of the map can be mapped at its own addresses.
pub open spec fn regions_mappable(s: Seq<MemoryRegion>) -> bool {
    forall|i: int|
        0 <= i < s.len() ==> span_mappable(
            (#[trigger] s[i]).phys_start as int,
            s[i].page_count * 4096,
        )
}

/// Pages that a heap of `heap_size` bytes takes up.
pub open spec fn heap_page_count(heap_size: int) -> int {
    (heap_size + 4095) / 4096
}

/// Start addresses of the pages of a heap of `heap_size` bytes that starts
/// in the page that holds `heap_start`.
pub open spec fn heap_pages(heap_start: int, heap_size: int) -> Seq<int> {
    Seq::new(heap_page_count(heap_size) as nat, |i: int| frame_of(heap_start) + 4096 * i)
}

/// Whether the heap range can be mapped: its start is canonical, and its
/// pages all lie in the half of the address space in which it starts.
pub open spec fn heap_mappable(heap_start: u64, heap_size: u64) -> bool {
    &&& is_canonical(heap_start)
    &&& heap_size + 4095 <= u64::MAX
    &&& heap_page_count(heap_size as int) > 0 ==> {
        let last = frame_of(heap_start as int) + 4096 * (heap_page_count(heap_size as int) - 1);
        &&& last <= u64::MAX
        &&& heap_start < LOW_HALF_LIMIT ==> last < LOW_HALF_LIMIT
    }
}

/// Most frames that an allocator may track for its frames to have physical
/// addresses: 2^40.
pub const MAX_FRAMES: u64 = 0x100_0000_0000;

/// Every frame that `frames` can hand out has a physical address.
pub open spec fn frames_addressable(frames: FrameAllocatorWrapper) -> bool {
    frames.allocator() matches Some(a) ==> a@.used.len() <= MAX_FRAMES
}

/// What the plan stands for: its stage, the root table's frame once there
/// is one, and the requests that it has still to hand out.
pub struct PlanView {
    pub state: MapperState,
    /// Start address of the root table's frame.
    pub root: u64,
    /// Requests for RAM still to come.
    pub identity: Seq<MapRequest>,
    /// Requests for devices still to come.
    pub devices: Seq<MapRequest>,
    /// Start addresses of the heap pages still to come.
    pub heap: Seq<int>,
    /// Heap pages handed out so far.
    pub heap_issued: nat,
}

/// The plan of one address space: the memory map and the devices it is built
/// for, and how far the work has come.
pub struct AddressSpacePlan {
    state: MapperState,
    root: u64,
    regions: Vec<MemoryRegion>,
    framebuffer_addr: u64,
    framebuffer_size: u64,
    opened: usize,
    run: FrameCursor,
    run_target: MapTarget,
    heap_base: u64,
    heap_count: u64,
    heap_index: u64,
}

impl View for AddressSpacePlan {
    type V = PlanView;

    closed spec fn view(&self) -> PlanView {
        PlanView {
            state: self.state,
            root: self.root,
            identity: match self.state {
                MapperState::Unbuilt => identity_requests_from(self.regions@, 0),
                MapperState::RootAllocated => self.pending_identity(),
                _ => Seq::empty(),
            },
            devices: match self.state {
                MapperState::Unbuilt => device_requests_from(
                    self.framebuffer_addr as int,
                    self.framebuffer_size as int,
                    0,
                ),
                MapperState::RootAllocated => device_requests_from(
                    self.framebuffer_addr as int,
                    self.framebuffer_size as int,
                    0,
                ),
                MapperState::RegionsMapped => self.pending_devices(),
                _ => Seq::empty(),
            },
            heap: Seq::new(
                (self.heap_count - self.heap_index) as nat,
                |i: int| self.heap_base + 4096 * (self.heap_index + i),
            ),
            heap_issued: self.heap_index as nat,
        }
    }
}

impl AddressSpacePlan {
    spec fn pending_identity(&self) -> Seq<MapRequest> {
        requests_of(MapTarget::Identity, self.run.frames()) + identity_requests_from(
            self.regions@,
            self.opened as int,
        )
    }

    spec fn pending_devices(&self) -> Seq<MapRequest> {
        requests_of(self.run_target, self.run.frames()) + device_requests_from(
            self.framebuffer_addr as int,
            self.framebuffer_size as int,
            self.opened as int,
        )
    }

    /// The plan's invariant: its inputs can be mapped, and its place in them
    /// fits its stage.
    pub closed spec fn wf(&self) -> bool {
        &&& self.run.wf()
        &&& self.run.open ==> self.run.last < LOW_HALF_LIMIT
        &&& regions_mappable(self.regions@)
        &&& span_mappable(self.framebuffer_addr as int, self.framebuffer_size as int)
        &&& self.state != MapperState::Unbuilt ==> self.root % 4096 == 0 && self.root < PHYS_LIMIT
        &&& match self.state {
            MapperState::Unbuilt => !self.run.open && self.opened == 0,
            MapperState::RootAllocated => self.opened <= self.regions@.len() && self.run_target
                == MapTarget::Identity,
            MapperState::RegionsMapped => self.opened <= 3 && (self.opened == 0
                ==> !self.run.open),
            _ => !self.run.open,
        }
        &&& self.state != MapperState::Active && self.state != MapperState::HeapMapped
            ==> self.heap_count == 0
        &&& self.heap_index <= self.heap_count
        &&& self.heap_base % 4096 == 0
        &&& is_canonical(self.heap_base)
        &&& self.heap_count > 0 ==> {
            &&& self.heap_base + 4096 * (self.heap_count - 1) <= u64::MAX
            &&& self.heap_base < LOW_HALF_LIMIT ==> self.heap_base + 4096 * (self.heap_count - 1)
                < LOW_HALF_LIMIT
        }
    }

    /// How far the address space has been built.
    pub fn state(&self) -> (r: MapperState)
        ensures
            r == self@.state,
    {
        self.state
    }

    /// Start address of the root table's frame. It means something from
    /// `RootAllocated` on.
    pub fn root(&self) -> (r: u64)
        ensures
            r == self@.root,
    {
        self.root
    }

    /// Takes a frame for the root table, which the caller then fills with
    /// zeroes. `None` means that there was no frame to take; the plan then
    /// stays unbuilt.
    pub fn allocate_root(&mut self, frames: &mut FrameAllocatorWrapper) -> (r: Option<u64>)
        requires
            old(self).wf(),
            old(self)@.state == MapperState::Unbuilt,
            old(frames).wf(),
            frames_addressable(*old(frames)),
        ensures
            final(self).wf(),
            final(frames).wf(),
            frames_addressable(*final(frames)),
            match old(frames).allocator() {
                Some(a) => final(frames).allocator() matches Some(b) && exists|f: Option<usize>|
                    frame_taken(a@, b@, f) && r == match f {
                        Some(n) => Some((n * 4096) as u64),
                        None => None,
                    },
                None => r is None && final(frames).allocator() is None,
            },
            match r {
                Some(root) => root % 4096 == 0 && root < PHYS_LIMIT && final(self)@ == (PlanView {
                    state: MapperState::RootAllocated,
                    root,
                    ..old(self)@
                }),
                None => final(self)@ == old(self)@,
            },
    {
        let taken = frames.allocate_frame();
        match taken {
            Some(n) => {
                let root = frame_starting_at((n as u64) * 4096).unwrap();
                self.root = root;
                self.state = MapperState::RootAllocated;
                self.run_target = MapTarget::Identity;
                proof {
                    lemma_requests_none(
                        MapTarget::Identity,
                        identity_requests_from(self.regions@, 0),
                    );
                    if old(frames).allocator() is Some {
                        assert(frame_taken(
                            old(frames).allocator()->0@,
                            final(frames).allocator()->0@,
                            taken,
                        ));
                    }
                }
                Some(root)
            },
            None => {
                proof {
                    if old(frames).allocator() is Some {
                        assert(frame_taken(
                            old(frames).allocator()->0@,
                            final(frames).allocator()->0@,
                            taken,
                        ));
                    }
                }
                None
            },
        }
    }

    /// Opens the run of the next region's frames.
    fn open_region(&mut self)
        requires
            old(self).wf(),
            old(self).state == MapperState::RootAllocated,
            !old(self).run.open,
            old(self).opened < old(self).regions@.len(),
        ensures
            final(self).wf(),
            final(self)@ == old(self)@,
            final(self).regions == old(self).regions,
            final(self).opened == old(self).opened + 1,
    {
        let desc = self.regions[self.opened];
        assert(span_mappable(desc.phys_start as int, desc.page_count * 4096));
        self.run = FrameCursor::spanning(desc.phys_start, desc.page_count * 4096);
        assert(self.opened < self.regions.len());
        self.opened = self.opened + 1;
        proof {
            lemma_requests_none(
                MapTarget::Identity,
                identity_requests_from(self.regions@, old(self).opened as int),
            );
            assert(self.pending_identity() =~= old(self).pending_identity());
        }
    }

    /// Opens the run of the next device's frames.
    fn open_device(&mut self)
        requires
            old(self).wf(),
            old(self).state == MapperState::RegionsMapped,
            !old(self).run.open,
            old(self).opened < 3,
        ensures
            final(self).wf(),
            final(self)@ == old(self)@,
            final(self).opened == old(self).opened + 1,
    {
        let ghost fb_addr = self.framebuffer_addr as int;
        let ghost fb_size = self.framebuffer_size as int;
        proof {
            lemma_requests_none(
                self.run_target,
                device_requests_from(fb_addr, fb_size, self.opened as int),
            );
        }
        if self.opened == 0 {
            self.run = FrameCursor::spanning(self.framebuffer_addr, self.framebuffer_size);
            self.run_target = MapTarget::Framebuffer;
        } else if self.opened == 1 {
            self.run = FrameCursor::spanning(LAPIC_BASE, 1);
            self.run_target = MapTarget::LocalApic;
            assert(self.run.frames() =~= seq![LAPIC_BASE as int]);
            assert(requests_of(MapTarget::LocalApic, seq![LAPIC_BASE as int]) =~= seq![
                identity_request(MapTarget::LocalApic, LAPIC_BASE as int),
            ]);
        } else {
            self.run = FrameCursor::spanning(IOAPIC_BASE, 1);
            self.run_target = MapTarget::IoApic;
            assert(self.run.frames() =~= seq![IOAPIC_BASE as int]);
            assert(requests_of(MapTarget::IoApic, seq![IOAPIC_BASE as int]) =~= seq![
                identity_request(MapTarget::IoApic, IOAPIC_BASE as int),
            ]);
        }
        self.opened = self.opened + 1;
        proof {
            assert(self.pending_devices() =~= old(self).pending_devices());
        }
    }

    /// The next frame of the open run, as the request that maps it at its own
    /// address.
    fn take_from_run(&mut self) -> (r: Option<MapRequest>)
        requires
            old(self).wf(),
            old(self).state == MapperState::RootAllocated || old(self).state
                == MapperState::RegionsMapped,
        ensures
            final(self).wf(),
            final(self).state == old(self).state,
            final(self).opened == old(self).opened,
            final(self).regions == old(self).regions,
            match r {
                Some(request) => {
                    &&& request_aligned(request)
                    &&& old(self).state == MapperState::RootAllocated ==> {
                        &&& old(self)@.identity.len() > 0
                        &&& request == old(self)@.identity[0]
                        &&& final(self)@ == (PlanView {
                            identity: old(self)@.identity.skip(1),
                            ..old(self)@
                        })
                    }
                    &&& old(self).state == MapperState::RegionsMapped ==> {
                        &&& old(self)@.devices.len() > 0
                        &&& request == old(self)@.devices[0]
                        &&& final(self)@ == (PlanView {
                            devices: old(self)@.devices.skip(1),
                            ..old(self)@
                        })
                    }
                },
                None => !old(self).run.open && *final(self) == *old(self),
            },
    {
        match self.run.take() {
            Some(frame) => {
                let page = page_containing(frame);
                proof {
                    lemma_requests_pop(
                        MapTarget::Identity,
                        old(self).run.frames(),
                        identity_requests_from(self.regions@, self.opened as int),
                    );
                    lemma_requests_pop(
                        self.run_target,
                        old(self).run.frames(),
                        device_requests_from(
                            self.framebuffer_addr as int,
                            self.framebuffer_size as int,
                            self.opened as int,
                        ),
                    );
                }
                Some(
                    MapRequest {
                        target: self.run_target,
                        page,
                        frame,
                        flags: page_flags(self.run_target),
                    },
                )
            },
            None => None,
        }
    }

    /// The next page of RAM to map, in the order of the memory map and, within
    /// a region, of the addresses. `None` means that every region has been
    /// gone through; the plan then turns to the devices.
    pub fn next_identity_page(&mut self) -> (r: Option<MapRequest>)
        requires
            old(self).wf(),
            old(self)@.state == MapperState::RootAllocated,
        ensures
            final(self).wf(),
            match r {
                Some(request) => {
                    &&& request_aligned(request)
                    &&& old(self)@.identity.len() > 0
                    &&& request == old(self)@.identity[0]
                    &&& final(self)@ == (PlanView {
                        identity: old(self)@.identity.skip(1),
                        ..old(self)@
                    })
                },
                None => {
                    &&& old(self)@.identity.len() == 0
                    &&& final(self)@ == (PlanView {
                        state: MapperState::RegionsMapped,
                        ..old(self)@
                    })
                },
            },
    {
        loop
            invariant
                self.wf(),
                self.state == MapperState::RootAllocated,
                self@ == old(self)@,
            decreases self.regions@.len() - self.opened,
        {
            match self.take_from_run() {
                Some(request) => {
                    return Some(request);
                },
                None => {},
            }
            if self.opened >= self.regions.len() {
                proof {
                    lemma_requests_none(
                        MapTarget::Identity,
                        identity_requests_from(self.regions@, self.opened as int),
                    );
                    lemma_requests_none(
                        self.run_target,
                        device_requests_from(
                            self.framebuffer_addr as int,
                            self.framebuffer_size as int,
                            0,
                        ),
                    );
                }
                self.state = MapperState::RegionsMapped;
                self.opened = 0;
                return None;
            }
            self.open_region();
        }
    }

    /// The next page of a device to map: those of the framebuffer in the order
    /// of their addresses, then that of the local APIC, then that of the I/O
    /// APIC. `None` means that every device has been gone through.
    pub fn next_device_page(&mut self) -> (r: Option<MapRequest>)
        requires
            old(self).wf(),
            old(self)@.state == MapperState::RegionsMapped,
        ensures
            final(self).wf(),
            match r {
                Some(request) => {
                    &&& request_aligned(request)
                    &&& old(self)@.devices.len() > 0
                    &&& request == old(self)@.devices[0]
                    &&& final(self)@ == (PlanView {
                        devices: old(self)@.devices.skip(1),
                        ..old(self)@
                    })
                },
                None => {
                    &&& old(self)@.devices.len() == 0
                    &&& final(self)@ == (PlanView {
                        state: MapperState::DevicesMapped,
                        ..old(self)@
                    })
                },
            },
    {
        loop
            invariant
                self.wf(),
                self.state == MapperState::RegionsMapped,
                self@ == old(self)@,
            decreases 3 - self.opened,
        {
            match self.take_from_run() {
                Some(request) => {
                    return Some(request);
                },
                None => {},
            }
            if self.opened >= 3 {
                proof {
                    lemma_requests_none(
                        self.run_target,
                        device_requests_from(
                            self.framebuffer_addr as int,
                            self.framebuffer_size as int,
                            self.opened as int,
                        ),
                    );
                }
                self.state = MapperState::DevicesMapped;
                return None;
            }
            self.open_device();
        }
    }

    /// Ends the build: returns the root table's frame, which the caller
    /// loads into the processor. From then on only what the new tables map
    /// can be reached.
    pub fn switch_address_space(&mut self) -> (r: u64)
        requires
            old(self).wf(),
            old(self)@.state == MapperState::DevicesMapped,
        ensures
            final(self).wf(),
            r == old(self)@.root,
            r % 4096 == 0,
            r < PHYS_LIMIT,
            final(self)@ == (PlanView { state: MapperState::Active, ..old(self)@ }),
    {
        self.state = MapperState::Active;
        self.root
    }

    /// The next step of mapping the heap: a page and the fresh frame that is
    /// to back it, in the order of the pages' addresses. When no frame is
    /// left the plan stays where it is, and nothing is given back.
    pub fn next_heap_page(&mut self, frames: &mut FrameAllocatorWrapper) -> (r: HeapStep)
        requires
            old(self).wf(),
            old(self)@.state == MapperState::Active,
            old(frames).wf(),
            frames_addressable(*old(frames)),
        ensures
            final(self).wf(),
            final(frames).wf(),
            frames_addressable(*final(frames)),
            old(self)@.heap.len() == 0 ==> {
                &&& r == HeapStep::Done
                &&& final(self)@ == (PlanView { state: MapperState::HeapMapped, ..old(self)@ })
                &&& final(frames).allocator() == old(frames).allocator()
            },
            old(self)@.heap.len() > 0 ==> match old(frames).allocator() {
                Some(a) => final(frames).allocator() matches Some(b) && exists|f: Option<usize>|
                    frame_taken(a@, b@, f) && heap_step_taken(old(self)@, final(self)@, f, r),
                None => final(frames).allocator() is None && heap_step_taken(
                    old(self)@,
                    final(self)@,
                    None,
                    r,
                ),
            },
    {
        if self.heap_index >= self.heap_count {
            self.state = MapperState::HeapMapped;
            assert(old(self)@.heap.len() == 0);
            return HeapStep::Done;
        }
        assert(old(self)@.heap.len() > 0);
        assert(old(self)@.heap[0] == self.heap_base + 4096 * self.heap_index);
        let page = page_after(self.heap_base, self.heap_index);
        match frames.allocate_frame() {
            Some(n) => {
                let frame = frame_starting_at((n as u64) * 4096).unwrap();
                self.heap_index = self.heap_index + 1;
                proof {
                    assert(self@.heap =~= old(self)@.heap.skip(1));
                }
                HeapStep::MapPage(
                    MapRequest {
                        target: MapTarget::Heap,
                        page,
                        frame,
                        flags: page_flags(MapTarget::Heap),
                    },
                )
            },
            None => HeapStep::OutOfFrames(self.heap_index),
        }
    }
}

/// How one step of mapping the heap relates the plan before, the plan after,
/// the frame that the allocator gave and the step returned. With a frame,
/// the first page still to come is mapped to it, present and writable, and
/// leaves the plan. Without one the step names the page's index and the plan
/// is unchanged.
pub open spec fn heap_step_taken(
    before: PlanView,
    after: PlanView,
    frame: Option<usize>,
    step: HeapStep,
) -> bool {
    match frame {
        Some(n) => {
            &&& step matches HeapStep::MapPage(request) && request_aligned(request)
            &&& step == HeapStep::MapPage(
                MapRequest {
                    target: MapTarget::Heap,
                    page: before.heap[0] as u64,
                    frame: (n * 4096) as u64,
                    flags: flags_for(MapTarget::Heap),
                },
            )
            &&& after == (PlanView {
                heap: before.heap.skip(1),
                heap_issued: before.heap_issued + 1,
                ..before
            })
        },
        None => step == HeapStep::OutOfFrames(before.heap_issued as u64) && after == before,
    }
}

/// Sets out the heap of `heap_size` bytes at `heap_start` for mapping, in the
/// address space that is active.
pub fn map_heap(plan: &mut AddressSpacePlan, heap_start: u64, heap_size: u64)
    requires
        old(plan).wf(),
        old(plan)@.state == MapperState::Active,
        heap_mappable(heap_start, heap_size),
    ensures
        final(plan).wf(),
        final(plan)@ == (PlanView {
            heap: heap_pages(heap_start as int, heap_size as int),
            heap_issued: 0,
            ..old(plan)@
        }),
{
    let page_count = (heap_size + 4095) / 4096;
    let heap_start_page = page_containing(heap_start);
    plan.heap_base = heap_start_page;
    plan.heap_count = page_count;
    plan.heap_index = 0;
    assert(plan@.heap =~= heap_pages(heap_start as int, heap_size as int));
}

/// Plans an address space that maps every region of `mmap` and the
/// framebuffer, `framebuffer_size` bytes from `framebuffer_addr` on, at their
/// own addresses. Nothing is built yet: every request is still to come.
pub fn map_physical_to_virtual(
    mmap: Vec<MemoryRegion>,
    framebuffer_addr: u64,
    framebuffer_size: u64,
) -> (r: AddressSpacePlan)
    requires
        regions_mappable(mmap@),
        span_mappable(framebuffer_addr as int, framebuffer_size as int),
    ensures
        r.wf(),
        r@.state == MapperState::Unbuilt,
        r@.identity == identity_requests_from(mmap@, 0),
        r@.devices == device_requests_from(framebuffer_addr as int, framebuffer_size as int, 0),
        r@.heap == Seq::<int>::empty(),
        r@.heap_issued == 0,
{
    let r = AddressSpacePlan {
        state: MapperState::Unbuilt,
        root: 0,
        regions: mmap,
        framebuffer_addr,
        framebuffer_size,
        opened: 0,
        run: FrameCursor::closed(),
        run_target: MapTarget::Identity,
        heap_base: 0,
        heap_count: 0,
        heap_index: 0,
    };
    assert(r@.heap =~= Seq::<int>::empty());
    r
}

/// Whether the bytes `[first, first + len)` can be mapped at their own
/// addresses.
pub fn span_is_mappable(first: u64, len: u64) -> (r: bool)
    ensures
        r == span_mappable(first as int, len as int),
{
    if first >= PHYS_LIMIT || len > PHYS_LIMIT {
        return false;
    }
    let end = first + len;
    if end < 1 || end > PHYS_LIMIT {
        return false;
    }
    let last = end - 1;
    let lo = first - first % 4096;
    let hi = last - last % 4096;
    lo > hi || hi < LOW_HALF_LIMIT
}

/// Whether every region of the map can be mapped at its own addresses.
pub fn regions_are_mappable(mmap: &[MemoryRegion]) -> (r: bool)
    ensures
        r == regions_mappable(mmap@),
{
    let mut i: usize = 0;
    while i < mmap.len()
        invariant
            0 <= i <= mmap@.len(),
            forall|j: int|
                0 <= j < i ==> span_mappable(
                    (#[trigger] mmap@[j]).phys_start as int,
                    mmap@[j].page_count * 4096,
                ),
        decreases mmap@.len() - i,
    {
        let desc = mmap[i];
        if desc.page_count > PHYS_LIMIT / 4096 {
            assert(!span_mappable(desc.phys_start as int, desc.page_count * 4096));
            return false;
        }
        if !span_is_mappable(desc.phys_start, desc.page_count * 4096) {
            return false;
        }
        i += 1;
    }
    true
}

/// Whether the heap range can be mapped.
pub fn heap_is_mappable(heap_start: u64, heap_size: u64) -> (r: bool)
    ensures
        r == heap_mappable(heap_start, heap_size),
{
    if !(heap_start < LOW_HALF_LIMIT || heap_start >= HIGH_HALF_START) {
        return false;
    }
    if heap_size > u64::MAX - 4095 {
        return false;
    }
    let page_count = (heap_size + 4095) / 4096;
    if page_count == 0 {
        return true;
    }
    let base = heap_start - heap_start % 4096;
    let offset = 4096 * (page_count - 1);
    if offset > u64::MAX - base {
        return false;
    }
    let last = base + offset;
    heap_start >= LOW_HALF_LIMIT || last < LOW_HALF_LIMIT
}

/// Whether every frame that `frames` can hand out has a physical address.
pub fn frames_are_addressable(frames: &FrameAllocatorWrapper) -> (r: bool)
    ensures
        r == frames_addressable(*frames),
{
    match frames.total_frames() {
        Some(total) => total as u64 <= MAX_FRAMES,
        None => true,
    }
}

} // verus!
