use kernelcore::MemoryRegion;
use kernelcore::PhysicalMemoryManager;

fn regions() -> Vec<MemoryRegion> {
    vec![
        MemoryRegion { start: 0, end: 0x8000, usable: false },
        // the first usable region hosts the bitmap and is reserved whole
        MemoryRegion { start: 0x8000, end: 0x10000, usable: true },
        MemoryRegion { start: 0x10000, end: 0x200000, usable: true },
    ]
}

#[test]
fn pmm_allocates_lowest_free_frame() {
    let (mut pmm, bitmap_region) = PhysicalMemoryManager::new(&regions());
    assert!(bitmap_region.usable);
    assert_eq!(bitmap_region.start, 0x8000);
    // frames 0..16 are reserved or host the bitmap
    let first = pmm.allocate_frame().unwrap();
    assert_eq!(first, 16);
    let second = pmm.allocate_frame().unwrap();
    assert_eq!(second, 17);
}

#[test]
fn pmm_deallocate_then_allocate_round_trip() {
    // freeing an allocated frame makes the next allocation return it
    // again, leaving the bitmap as it was before the round trip
    let (mut pmm, _) = PhysicalMemoryManager::new(&regions());
    let a = pmm.allocate_frame().unwrap();
    let b = pmm.allocate_frame().unwrap();
    pmm.deallocate_frame(a);
    let c = pmm.allocate_frame().unwrap();
    assert_eq!(a, c);
    assert_ne!(a, b);
}

#[test]
fn pmm_reserved_regions_stay_used() {
    let (mut pmm, _) = PhysicalMemoryManager::new(&regions());
    for _ in 0..16 {
        let f = pmm.allocate_frame().unwrap();
        assert!(f >= 16);
        assert!(f < 0x200000 / 4096);
    }
}

#[test]
fn pmm_exhaustion_returns_none() {
    let small = vec![
        MemoryRegion { start: 0, end: 0x1000, usable: false },
        MemoryRegion { start: 0x1000, end: 0x9000, usable: true },
        MemoryRegion { start: 0x9000, end: 0x40000, usable: true },
    ];
    let (mut pmm, _) = PhysicalMemoryManager::new(&small);
    let mut got = 0;
    while pmm.allocate_frame().is_some() {
        got += 1;
        assert!(got < 10000);
    }
    assert_eq!(got, 64 - 9);
    assert!(pmm.allocate_frame().is_none());
}
