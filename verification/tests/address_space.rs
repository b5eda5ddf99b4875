use kitsune_kernel::memory::{init_frame_allocator, BitmapFrameAllocator, FrameAllocatorWrapper};
use kitsune_kernel::memory_map::{MemoryRegion, RegionKind};
use kitsune_kernel::virtualmapper::{
    decide, frames_are_addressable, heap_is_mappable, map_heap, map_physical_to_virtual,
    page_flags, regions_are_mappable, span_is_mappable, AddressSpacePlan, HeapStep, MapDecision,
    MapOutcome, MapRequest, MapTarget, MapperState, PageFlags, IOAPIC_BASE, LAPIC_BASE,
};

fn region(phys_start: u64, page_count: u64) -> MemoryRegion {
    MemoryRegion { phys_start, page_count, kind: RegionKind::Usable }
}

fn frames(total: usize, free_from: usize, free_count: usize) -> FrameAllocatorWrapper {
    let words = (total + 63) / 64;
    let mut a = BitmapFrameAllocator::new(vec![u64::MAX; words], words, total);
    a.mark_range_free(free_from, free_count);
    let mut w = FrameAllocatorWrapper::new();
    init_frame_allocator(&mut w, a);
    w
}

fn ram(frame: u64) -> MapRequest {
    MapRequest {
        target: MapTarget::Identity,
        page: frame,
        frame,
        flags: PageFlags { present: true, writable: true, no_cache: false },
    }
}

fn device(target: MapTarget, frame: u64) -> MapRequest {
    MapRequest {
        target,
        page: frame,
        frame,
        flags: PageFlags { present: true, writable: true, no_cache: true },
    }
}

fn identity_pages(plan: &mut AddressSpacePlan) -> Vec<MapRequest> {
    let mut out = Vec::new();
    while let Some(r) = plan.next_identity_page() {
        out.push(r);
    }
    out
}

fn device_pages(plan: &mut AddressSpacePlan) -> Vec<MapRequest> {
    let mut out = Vec::new();
    while let Some(r) = plan.next_device_page() {
        out.push(r);
    }
    out
}

#[test]
fn flags_by_target() {
    let plain = PageFlags { present: true, writable: true, no_cache: false };
    let uncached = PageFlags { present: true, writable: true, no_cache: true };
    assert_eq!(page_flags(MapTarget::Identity), plain);
    assert_eq!(page_flags(MapTarget::Heap), plain);
    assert_eq!(page_flags(MapTarget::Framebuffer), uncached);
    assert_eq!(page_flags(MapTarget::LocalApic), uncached);
    assert_eq!(page_flags(MapTarget::IoApic), uncached);
}

#[test]
fn decisions_by_target_and_outcome() {
    let targets = [
        MapTarget::Identity,
        MapTarget::Framebuffer,
        MapTarget::LocalApic,
        MapTarget::IoApic,
        MapTarget::Heap,
    ];
    for t in targets {
        assert_eq!(decide(t, MapOutcome::Mapped), MapDecision::Flush);
        assert_eq!(decide(t, MapOutcome::FrameAllocationFailed), MapDecision::Halt);
    }
    assert_eq!(decide(MapTarget::Identity, MapOutcome::PageAlreadyMapped), MapDecision::Skip);
    assert_eq!(decide(MapTarget::Identity, MapOutcome::ParentEntryHugePage), MapDecision::Skip);
    assert_eq!(
        decide(MapTarget::Framebuffer, MapOutcome::PageAlreadyMapped),
        MapDecision::SkipAndReport
    );
    assert_eq!(decide(MapTarget::Framebuffer, MapOutcome::ParentEntryHugePage), MapDecision::Halt);
    assert_eq!(
        decide(MapTarget::LocalApic, MapOutcome::PageAlreadyMapped),
        MapDecision::SkipAndReport
    );
    assert_eq!(decide(MapTarget::LocalApic, MapOutcome::ParentEntryHugePage), MapDecision::Halt);
    assert_eq!(
        decide(MapTarget::IoApic, MapOutcome::PageAlreadyMapped),
        MapDecision::SkipAndReport
    );
    assert_eq!(decide(MapTarget::IoApic, MapOutcome::ParentEntryHugePage), MapDecision::Halt);
    assert_eq!(decide(MapTarget::Heap, MapOutcome::PageAlreadyMapped), MapDecision::Halt);
    assert_eq!(decide(MapTarget::Heap, MapOutcome::ParentEntryHugePage), MapDecision::Halt);
}

#[test]
fn whole_build_goes_through_every_stage_once() {
    let map = vec![region(0x1000, 2), region(0x10_0000, 1)];
    let mut pool = frames(64, 7, 3);
    let mut plan = map_physical_to_virtual(map, 0x8000_0000, 3 * 4096);
    assert_eq!(plan.state(), MapperState::Unbuilt);

    assert_eq!(plan.allocate_root(&mut pool), Some(7 * 4096));
    assert_eq!(plan.state(), MapperState::RootAllocated);
    assert_eq!(plan.root(), 0x7000);

    assert_eq!(identity_pages(&mut plan), vec![ram(0x1000), ram(0x2000), ram(0x10_0000)]);
    assert_eq!(plan.state(), MapperState::RegionsMapped);

    assert_eq!(
        device_pages(&mut plan),
        vec![
            device(MapTarget::Framebuffer, 0x8000_0000),
            device(MapTarget::Framebuffer, 0x8000_1000),
            device(MapTarget::Framebuffer, 0x8000_2000),
            device(MapTarget::LocalApic, 0xFEE0_0000),
            device(MapTarget::IoApic, 0xFEC0_0000),
        ]
    );
    assert_eq!(plan.state(), MapperState::DevicesMapped);

    assert_eq!(plan.switch_address_space(), 0x7000);
    assert_eq!(plan.state(), MapperState::Active);

    map_heap(&mut plan, 0x4444_4444_0000, 2 * 4096);
    let heap_flags = PageFlags { present: true, writable: true, no_cache: false };
    assert_eq!(
        plan.next_heap_page(&mut pool),
        HeapStep::MapPage(MapRequest {
            target: MapTarget::Heap,
            page: 0x4444_4444_0000,
            frame: 0x8000,
            flags: heap_flags,
        })
    );
    assert_eq!(
        plan.next_heap_page(&mut pool),
        HeapStep::MapPage(MapRequest {
            target: MapTarget::Heap,
            page: 0x4444_4444_1000,
            frame: 0x9000,
            flags: heap_flags,
        })
    );
    assert_eq!(plan.state(), MapperState::Active);
    assert_eq!(plan.next_heap_page(&mut pool), HeapStep::Done);
    assert_eq!(plan.state(), MapperState::HeapMapped);
    assert_eq!(pool.allocate_frame(), None);
}

#[test]
fn device_addresses() {
    assert_eq!(LAPIC_BASE, 0xFEE0_0000);
    assert_eq!(IOAPIC_BASE, 0xFEC0_0000);
}

#[test]
fn region_that_starts_inside_a_frame_takes_the_frames_it_touches() {
    let mut pool = frames(8, 0, 8);
    let mut plan = map_physical_to_virtual(vec![region(0x1234, 1)], 0xE000_0FFF, 2);
    assert!(plan.allocate_root(&mut pool).is_some());
    assert_eq!(identity_pages(&mut plan), vec![ram(0x1000), ram(0x2000)]);
    assert_eq!(
        device_pages(&mut plan),
        vec![
            device(MapTarget::Framebuffer, 0xE000_0000),
            device(MapTarget::Framebuffer, 0xE000_1000),
            device(MapTarget::LocalApic, LAPIC_BASE),
            device(MapTarget::IoApic, IOAPIC_BASE),
        ]
    );
}

#[test]
fn empty_regions_give_no_pages() {
    let mut pool = frames(8, 0, 8);
    let map = vec![region(0x5000, 0), region(0x9000, 1), region(0xA000, 0), region(0x6800, 0)];
    let mut plan = map_physical_to_virtual(map, 0x8000_0000, 0);
    assert!(plan.allocate_root(&mut pool).is_some());
    assert_eq!(identity_pages(&mut plan), vec![ram(0x9000), ram(0x6000)]);
    assert_eq!(
        device_pages(&mut plan),
        vec![device(MapTarget::LocalApic, LAPIC_BASE), device(MapTarget::IoApic, IOAPIC_BASE)]
    );
    assert_eq!(plan.state(), MapperState::DevicesMapped);
}

#[test]
fn empty_map_goes_straight_to_the_devices() {
    let mut pool = frames(8, 0, 8);
    let mut plan = map_physical_to_virtual(Vec::new(), 0x8000_0000, 4096);
    assert!(plan.allocate_root(&mut pool).is_some());
    assert_eq!(plan.next_identity_page(), None);
    assert_eq!(plan.state(), MapperState::RegionsMapped);
    assert_eq!(device_pages(&mut plan).len(), 3);
}

#[test]
fn root_needs_a_frame() {
    let mut empty = FrameAllocatorWrapper::new();
    let mut plan = map_physical_to_virtual(vec![region(0x1000, 1)], 0x8000_0000, 4096);
    assert_eq!(plan.allocate_root(&mut empty), None);
    assert_eq!(plan.state(), MapperState::Unbuilt);
    let mut full = frames(8, 0, 0);
    assert_eq!(plan.allocate_root(&mut full), None);
    assert_eq!(plan.state(), MapperState::Unbuilt);
    let mut pool = frames(8, 3, 1);
    assert_eq!(plan.allocate_root(&mut pool), Some(0x3000));
    assert_eq!(plan.state(), MapperState::RootAllocated);
}

fn active_plan(pool: &mut FrameAllocatorWrapper) -> AddressSpacePlan {
    let mut plan = map_physical_to_virtual(Vec::new(), 0x8000_0000, 4096);
    assert!(plan.allocate_root(pool).is_some());
    assert_eq!(identity_pages(&mut plan).len(), 0);
    assert_eq!(device_pages(&mut plan).len(), 3);
    plan.switch_address_space();
    plan
}

#[test]
fn heap_pages_start_at_the_page_that_holds_the_heap_start() {
    let mut pool = frames(16, 4, 12);
    let mut plan = active_plan(&mut pool);
    map_heap(&mut plan, 0x4444_4444_0123, 4097);
    let mut pages = Vec::new();
    loop {
        match plan.next_heap_page(&mut pool) {
            HeapStep::MapPage(r) => pages.push((r.page, r.frame)),
            HeapStep::Done => break,
            HeapStep::OutOfFrames(i) => panic!("no frame for heap page {}", i),
        }
    }
    assert_eq!(pages, vec![(0x4444_4444_0000, 0x5000), (0x4444_4444_1000, 0x6000)]);
    assert_eq!(plan.state(), MapperState::HeapMapped);
}

#[test]
fn heap_mapping_stops_when_frames_run_out_and_keeps_what_it_took() {
    let mut pool = frames(16, 4, 3);
    let mut plan = active_plan(&mut pool);
    map_heap(&mut plan, 0xFFFF_9000_0000_0000, 4 * 4096);
    assert!(matches!(plan.next_heap_page(&mut pool), HeapStep::MapPage(_)));
    assert!(matches!(plan.next_heap_page(&mut pool), HeapStep::MapPage(_)));
    assert_eq!(plan.next_heap_page(&mut pool), HeapStep::OutOfFrames(2));
    assert_eq!(plan.next_heap_page(&mut pool), HeapStep::OutOfFrames(2));
    assert_eq!(plan.state(), MapperState::Active);
    assert_eq!(pool.total_frames(), Some(16));
    assert_eq!(pool.allocate_frame(), None);
    pool = frames(16, 10, 1);
    assert_eq!(
        plan.next_heap_page(&mut pool),
        HeapStep::MapPage(MapRequest {
            target: MapTarget::Heap,
            page: 0xFFFF_9000_0000_2000,
            frame: 0xA000,
            flags: PageFlags { present: true, writable: true, no_cache: false },
        })
    );
}

#[test]
fn heap_of_no_bytes_is_mapped_at_once() {
    let mut pool = frames(16, 4, 3);
    let mut plan = active_plan(&mut pool);
    map_heap(&mut plan, 0x4444_4444_0000, 0);
    assert_eq!(plan.next_heap_page(&mut pool), HeapStep::Done);
    assert_eq!(plan.state(), MapperState::HeapMapped);
}

#[test]
fn mappable_spans() {
    assert!(span_is_mappable(0x1000, 4096));
    assert!(span_is_mappable(0, 1));
    assert!(!span_is_mappable(0, 0));
    assert!(span_is_mappable(0x1000, 0));
    assert!(span_is_mappable(0x7FFF_FFFF_F000, 4096));
    assert!(!span_is_mappable(0x7FFF_FFFF_F000, 4097));
    assert!(!span_is_mappable(0x8000_0000_0000, 4096));
    assert!(span_is_mappable(0x8000_0000_0000, 0));
    assert!(!span_is_mappable(0x10_0000_0000_0000, 0));
    assert!(!span_is_mappable(0x1000, u64::MAX));
    assert!(regions_are_mappable(&[region(0x1000, 16), region(0x20_0000, 0)]));
    assert!(!regions_are_mappable(&[region(0x1000, 16), region(0, 0)]));
    assert!(!regions_are_mappable(&[region(0x1000, u64::MAX / 2)]));
    assert!(regions_are_mappable(&[]));
}

#[test]
fn mappable_heaps() {
    assert!(heap_is_mappable(0x4444_4444_0000, 4 * 1024 * 1024));
    assert!(heap_is_mappable(0xFFFF_8000_0000_0000, 4096));
    assert!(!heap_is_mappable(0x8000_0000_0000, 4096));
    assert!(!heap_is_mappable(0xFFFF_7FFF_FFFF_F000, 4096));
    assert!(heap_is_mappable(0x7FFF_FFFF_F000, 4096));
    assert!(!heap_is_mappable(0x7FFF_FFFF_F000, 4097));
    assert!(heap_is_mappable(0x7FFF_FFFF_F000, 0));
    assert!(heap_is_mappable(0xFFFF_FFFF_FFFF_F000, 4096));
    assert!(!heap_is_mappable(0xFFFF_FFFF_FFFF_F000, 4097));
    assert!(!heap_is_mappable(0x4444_4444_0000, u64::MAX));
}

#[test]
fn addressable_frames() {
    assert!(frames_are_addressable(&FrameAllocatorWrapper::new()));
    assert!(frames_are_addressable(&frames(128, 0, 0)));
}

/// Carries the identity requests of `plan` out on `mapped`, which stands for
/// the page tables: a page is mapped once, and a second attempt finds it
/// mapped already. Returns the decisions taken.
fn run_identity_pass(
    plan: &mut AddressSpacePlan,
    mapped: &mut std::collections::BTreeMap<u64, u64>,
) -> Vec<MapDecision> {
    let mut decisions = Vec::new();
    while let Some(request) = plan.next_identity_page() {
        let outcome = if mapped.contains_key(&request.page) {
            MapOutcome::PageAlreadyMapped
        } else {
            mapped.insert(request.page, request.frame);
            MapOutcome::Mapped
        };
        decisions.push(decide(request.target, outcome));
    }
    decisions
}

#[test]
fn second_pass_over_mapped_ram_changes_nothing() {
    let map = vec![region(0x1000, 3), region(0x3000, 2), region(0x20_0000, 1)];
    let mut mapped = std::collections::BTreeMap::new();

    let mut pool = frames(8, 0, 8);
    let mut first = map_physical_to_virtual(map.clone(), 0x8000_0000, 4096);
    assert!(first.allocate_root(&mut pool).is_some());
    let decisions = run_identity_pass(&mut first, &mut mapped);
    assert_eq!(
        decisions,
        vec![
            MapDecision::Flush,
            MapDecision::Flush,
            MapDecision::Flush,
            MapDecision::Skip,
            MapDecision::Flush,
            MapDecision::Flush,
        ]
    );
    let present = mapped.clone();
    assert_eq!(present.len(), 5);
    assert!(present.iter().all(|(page, frame)| page == frame));

    let mut second = map_physical_to_virtual(map, 0x8000_0000, 4096);
    assert!(second.allocate_root(&mut pool).is_some());
    let decisions = run_identity_pass(&mut second, &mut mapped);
    assert_eq!(decisions, vec![MapDecision::Skip; 6]);
    assert_eq!(mapped, present);
}
