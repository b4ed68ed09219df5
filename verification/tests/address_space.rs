use reedos_address_space::AddressSpace;
use reedos_address_space::AsError;
use reedos_address_space::Flags;
use reedos_address_space::DEFAULT_PAGE_SIZE;
use reedos_address_space::MAX_MAPPINGS;

#[test]
fn constructor() {
    // Construct an address space with 1200 pages of the default size.
    let space = AddressSpace::new(
        "my first address space".to_string(),
        1200,
        DEFAULT_PAGE_SIZE,
        DEFAULT_PAGE_SIZE,
    );
    assert_eq!(space.name().as_str(), "my first address space");
}

fn test_add_mapping_once(length: usize) -> Result<(), AsError> {
    const N_PAGES: usize = 1200;
    const PAGE_SIZE: usize = 20;

    let mut space = AddressSpace::new("test space".to_string(), N_PAGES, PAGE_SIZE, PAGE_SIZE);
    let source: usize = 0;

    let addr = space.add_mapping(source, length)?;

    assert!(space.is_valid());

    assert_ne!(addr, 0);
    assert!(space.mapping_count() > 0);

    let mappings = space.mappings_in_order();
    let mapping = mappings.first().expect("source was mapped");

    assert_eq!(mapping.addr, addr);
    assert_eq!(mapping.length, length);
    assert_eq!(mapping.source, source);

    Ok(())
}

#[test]
fn add_mapping_once_works() -> Result<(), AsError> {
    test_add_mapping_once(1)?;
    test_add_mapping_once(200)?;

    Ok(())
}

#[test]
fn add_mapping_works() -> Result<(), AsError> {
    const N_ADDRS: usize = 100;
    const N_PAGES: usize = 1200;
    const PAGE_SIZE: usize = 20;

    let mut space = AddressSpace::new("test space".to_string(), N_PAGES, PAGE_SIZE, PAGE_SIZE);
    let source: usize = 0;

    let mut addrs = Vec::new();

    for l in 1..=N_ADDRS {
        addrs.push(space.add_mapping(source, l)?);
        assert!(space.is_valid());
    }

    // Assert none are 0.
    assert!(!addrs.iter().any(|&n| n == 0));

    // Assert all are distinct.
    assert!(addrs.len() == N_ADDRS);

    Ok(())
}

#[test]
fn add_mapping_at_works() -> Result<(), AsError> {
    let mut space = AddressSpace::new("test space".to_string(), 6, 20, 20);
    let source: usize = 0;

    space.add_mapping_at(20, source, 20)?;

    let addr = 60;
    let length = 20;

    space.add_mapping_at(addr, source, length)?;
    let mappings = space.mappings_in_order();
    let mapping = mappings.get(1).expect("second mapping exists");

    assert_eq!(mapping.addr, addr);
    assert_eq!(mapping.length, length);
    assert!(space.is_valid());

    Ok(())
}

#[test]
fn add_mapping_at_err_works() {
    let mut space = AddressSpace::new("test space".to_string(), 10, 20, 20);
    let source: usize = 0;

    space
        .add_mapping_at(20, source, 20)
        .expect("first mapping fits");

    assert!(space.add_mapping_at(20, source, 20).is_err());
    assert!(space.is_valid());
}

#[test]
fn remove_mapping_works() -> Result<(), AsError> {
    let mut space = AddressSpace::new("test space".to_string(), 10, 20, 20);
    let source: usize = 0;

    space.add_mapping_at(20, source, 20)?;
    space.add_mapping_at(60, source, 20)?;
    space.add_mapping_at(100, source, 20)?;

    space.remove_mapping(60)?;

    assert_eq!(space.mapping_count(), 2);

    let mappings = space.mappings_in_order();
    assert_eq!(mappings.first().expect("first exists").addr, 20);
    assert_eq!(mappings.last().expect("last exists").addr, 100);

    Ok(())
}

#[test]
fn first_fit_places_at_exact_addresses() -> Result<(), AsError> {
    // page_size 20, min_gap 20: the first mapping lands on the first page
    // boundary past the gap, the second past the first mapping's gap.
    let mut space = AddressSpace::new("exact".to_string(), 1200, 20, 20);

    let a1 = space.add_mapping(0, 5)?;
    assert_eq!(a1, 20);

    let a2 = space.add_mapping(0, 5)?;
    assert_eq!(a2, 60);

    Ok(())
}

#[test]
fn monotonic_placement_with_increasing_lengths() -> Result<(), AsError> {
    let mut space = AddressSpace::new("monotone".to_string(), 1200, 20, 20);

    let mut last: usize = 0;
    for l in 1..=50 {
        let a = space.add_mapping(7, l)?;
        assert!(a > last, "first-fit addresses must strictly increase");
        assert!(a >= 20, "the zero page stays reserved");
        assert_eq!(a % 20, 0, "every address is page-aligned");
        last = a;
    }

    Ok(())
}

#[test]
fn capacity_exhaustion_returns_no_space() -> Result<(), AsError> {
    // 6 pages of 20 bytes: room for mappings at 20 and 60 only.
    let mut space = AddressSpace::new("full".to_string(), 6, 20, 20);

    assert_eq!(space.add_mapping(0, 20)?, 20);
    assert_eq!(space.add_mapping(0, 20)?, 60);

    assert_eq!(space.add_mapping(0, 20), Err(AsError::NoSpace));
    // Still failing, never panicking, and the space is unchanged.
    assert_eq!(space.add_mapping(0, 1), Err(AsError::NoSpace));
    assert_eq!(space.mapping_count(), 2);
    assert!(space.is_valid());

    Ok(())
}

#[test]
fn add_remove_round_trip_restores_mappings() -> Result<(), AsError> {
    let mut space = AddressSpace::new("round trip".to_string(), 1200, 20, 20);

    space.add_mapping_at(20, 1, 20)?;
    space.add_mapping_at(100, 2, 40)?;

    let before = space.mappings_in_order();

    let addr = space.add_mapping(3, 32)?;
    space.remove_mapping(addr)?;

    let after = space.mappings_in_order();
    assert_eq!(before, after);

    Ok(())
}

#[test]
fn remove_mapping_err_works() {
    let mut space = AddressSpace::new("nothing to remove".to_string(), 10, 20, 20);

    assert_eq!(space.remove_mapping(40), Err(AsError::NoSuchMapping));

    space
        .add_mapping_at(20, 0, 20)
        .expect("first mapping fits");
    // Only the exact start address identifies a mapping.
    assert_eq!(space.remove_mapping(21), Err(AsError::NoSuchMapping));
    assert_eq!(space.remove_mapping(20), Ok(()));
}

#[test]
fn get_source_for_addr_works() -> Result<(), AsError> {
    let mut space = AddressSpace::new("resolve".to_string(), 1200, 20, 20);
    let access = Flags::read().validate().expect("read flags are coherent");

    space.add_mapping_at(20, 7, 20)?;
    space.add_mapping_at(60, 9, 5)?;

    // Start, middle, and last byte of a mapping resolve with the offset.
    assert_eq!(space.get_source_for_addr(20, access), Some((7, 0)));
    assert_eq!(space.get_source_for_addr(25, access), Some((7, 5)));
    assert_eq!(space.get_source_for_addr(39, access), Some((7, 19)));
    assert_eq!(space.get_source_for_addr(64, access), Some((9, 4)));

    // The zero page, gaps, and the byte past the end resolve to nothing.
    assert_eq!(space.get_source_for_addr(0, access), None);
    assert_eq!(space.get_source_for_addr(40, access), None);
    assert_eq!(space.get_source_for_addr(65, access), None);
    assert_eq!(space.get_source_for_addr(1000, access), None);

    Ok(())
}

#[test]
fn gap_is_enforced_around_existing_mappings() -> Result<(), AsError> {
    let mut space = AddressSpace::new("gaps".to_string(), 1200, 20, 20);

    space.add_mapping_at(40, 0, 20)?;

    // Directly adjacent on either side: the mandatory gap is missing.
    assert_eq!(space.add_mapping_at(20, 0, 20), Err(AsError::NoSpaceAt));
    assert_eq!(space.add_mapping_at(60, 0, 20), Err(AsError::NoSpaceAt));

    // One full gap away on either side: acceptable.
    space.add_mapping_at(100, 0, 20)?;
    assert_eq!(space.mapping_count(), 2);

    Ok(())
}

#[test]
fn unaligned_or_zero_page_addresses_are_rejected() {
    let mut space = AddressSpace::new("aligned".to_string(), 1200, 20, 20);

    // Not a multiple of the page size.
    assert_eq!(space.add_mapping_at(30, 0, 5), Err(AsError::NoSpaceAt));
    // Inside the reserved zero page.
    assert_eq!(space.add_mapping_at(0, 0, 5), Err(AsError::NoSpaceAt));
    assert_eq!(space.mapping_count(), 0);
}

#[test]
fn oversized_requests_fail_without_panicking() {
    let mut space = AddressSpace::new("oversize".to_string(), 6, 20, 20);

    assert_eq!(space.add_mapping(0, usize::MAX), Err(AsError::NoSpace));
    assert_eq!(space.add_mapping(0, 121), Err(AsError::NoSpace));
    assert_eq!(
        space.add_mapping_at(20, 0, usize::MAX),
        Err(AsError::NoSpaceAt)
    );
    assert!(space.is_valid());
    assert_eq!(space.mapping_count(), 0);
}

#[test]
fn storage_capacity_bounds_the_mapping_count() -> Result<(), AsError> {
    // Single-byte pages and gaps: the address range could hold far more
    // mappings than the store, so the store bound is what stops us.
    let mut space = AddressSpace::new("bounded store".to_string(), 4096, 1, 1);

    for _ in 0..MAX_MAPPINGS {
        space.add_mapping(0, 1)?;
    }
    assert_eq!(space.mapping_count(), MAX_MAPPINGS);

    assert_eq!(space.add_mapping(0, 1), Err(AsError::NoSpace));
    assert_eq!(space.mapping_count(), MAX_MAPPINGS);
    assert!(space.is_valid());

    Ok(())
}

#[test]
fn map_entry_end_works() {
    let entry = reedos_address_space::MapEntry {
        addr: 20,
        length: 20,
        source: 0,
    };
    assert_eq!(entry.end(), 40);
}
