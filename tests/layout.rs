use mason::conflicts::detect_conflicts;
use mason::elf::segments_from_sections;
use mason::elf::SectionRecord;
use mason::regions::regions_from_memory_map;
use mason::regions::CatalogError;
use mason::regions::MemoryClass;
use mason::regions::MemoryMapEntry;
use mason::types::MemoryKind;
use mason::types::MemoryRegion;
use mason::types::MemorySegment;

fn region(name: &str, start: u64, size: u64) -> MemoryRegion {
    MemoryRegion { name: name.to_string(), start, size, kind: MemoryKind::Flash }
}

fn segment(name: &str, address: u64, size: u64) -> MemorySegment {
    MemorySegment {
        name: name.to_string(),
        address,
        size,
        flags: "R--".to_string(),
        is_load: true,
        conflicts: Vec::new(),
    }
}

fn entry(class: MemoryClass, name: Option<&str>, start: u64, end: u64) -> MemoryMapEntry {
    MemoryMapEntry { class, name: name.map(|n| n.to_string()), start, end }
}

#[test]
fn region_contains_is_half_open() {
    let r = region("FLASH", 0x1000, 0x100);
    assert!(r.contains(0x1000, 0x100));
    assert!(r.contains(0x10ff, 1));
    assert!(!r.contains(0x10ff, 2));
    assert!(!r.contains(0xfff, 1));
}

#[test]
fn region_overlaps_partial_and_disjoint() {
    let r = region("RAM", 0x2000, 0x100);
    assert!(r.overlaps(0x1f00, 0x101));
    assert!(!r.overlaps(0x1f00, 0x100));
    assert!(!r.overlaps(0x2100, 0x10));
    assert!(r.overlaps(0x20ff, 0x10));
}

#[test]
fn region_checks_do_not_overflow_at_the_top() {
    let r = region("TOP", u64::MAX - 1, 1);
    assert!(r.contains(u64::MAX - 1, 1));
    assert!(!r.contains(u64::MAX - 1, u64::MAX));
    assert!(r.overlaps(0, u64::MAX));
}

#[test]
fn overlapping_segments_name_each_other() {
    let mut segs = vec![segment("a", 0x1000, 0x100), segment("b", 0x1080, 0x100), segment("c", 0x2000, 0x10)];
    let regions = vec![region("FLASH", 0, 0x10000)];
    detect_conflicts(&mut segs, &regions);
    assert_eq!(segs[0].conflicts, vec!["Overlaps with b".to_string()]);
    assert_eq!(segs[1].conflicts, vec!["Overlaps with a".to_string()]);
    assert!(segs[2].conflicts.is_empty());
}

#[test]
fn adjacent_segments_do_not_overlap() {
    let mut segs = vec![segment("a", 0x1000, 0x100), segment("b", 0x1100, 0x100)];
    let regions = vec![region("FLASH", 0, 0x10000)];
    detect_conflicts(&mut segs, &regions);
    assert!(segs[0].conflicts.is_empty());
    assert!(segs[1].conflicts.is_empty());
}

#[test]
fn segment_inside_one_region_has_no_region_note() {
    let mut segs = vec![segment(".text", 0x0800_0000, 0x400)];
    let regions = vec![region("FLASH", 0x0800_0000, 0x10_0000), region("RAM", 0x2000_0000, 0x1_0000)];
    detect_conflicts(&mut segs, &regions);
    assert!(segs[0].conflicts.is_empty());
}

#[test]
fn segment_outside_every_region() {
    let mut segs = vec![segment(".data", 0x3000_0000, 0x10)];
    let regions = vec![region("FLASH", 0x0800_0000, 0x10_0000)];
    detect_conflicts(&mut segs, &regions);
    assert_eq!(segs[0].conflicts, vec!["Not in any defined memory region".to_string()]);
}

#[test]
fn partial_overlap_is_flagged_but_counts_as_placed() {
    let mut segs = vec![segment(".bss", 0x2000_ff00, 0x200), segment("x", 0x2000_ff80, 0x10)];
    let regions = vec![region("RAM", 0x2000_0000, 0x1_0000)];
    detect_conflicts(&mut segs, &regions);
    assert_eq!(
        segs[0].conflicts,
        vec!["Overlaps with x".to_string(), "Partially outside RAM region".to_string()]
    );
    assert_eq!(segs[1].conflicts, vec!["Overlaps with .bss".to_string()]);
}

#[test]
fn containing_region_stops_the_scan() {
    let mut segs = vec![segment("s", 0x100, 0x10)];
    let regions = vec![region("A", 0x100, 0x100), region("B", 0x108, 0x100)];
    detect_conflicts(&mut segs, &regions);
    assert!(segs[0].conflicts.is_empty());
    let mut segs = vec![segment("s", 0x100, 0x10)];
    let regions = vec![region("B", 0x108, 0x100), region("A", 0x100, 0x100)];
    detect_conflicts(&mut segs, &regions);
    assert_eq!(segs[0].conflicts, vec!["Partially outside B region".to_string()]);
}

#[test]
fn memory_map_entries_become_sorted_regions() {
    let entries = vec![
        entry(MemoryClass::Ram, None, 0x2000_0000, 0x2002_0000),
        entry(MemoryClass::Nvm, Some("BANK_1"), 0x0800_0000, 0x0810_0000),
        entry(MemoryClass::Generic, Some("CCMRAM"), 0x1000_0000, 0x1001_0000),
        entry(MemoryClass::Generic, Some("OTP"), 0x1fff_7800, 0x1fff_7a10),
        entry(MemoryClass::Generic, None, 0x4000_0000, 0x4000_0010),
    ];
    let regions = regions_from_memory_map("STM32F407VGTx", &entries).unwrap();
    let names: Vec<&str> = regions.iter().map(|r| r.name.as_str()).collect();
    assert_eq!(names, vec!["BANK_1", "CCMRAM", "OTP", "RAM", "GENERIC"]);
    assert_eq!(regions[0].kind, MemoryKind::Flash);
    assert_eq!(regions[0].size, 0x10_0000);
    assert_eq!(regions[1].kind, MemoryKind::Ram);
    assert_eq!(regions[2].kind, MemoryKind::Flash);
    assert_eq!(regions[2].size, 0x210);
    assert_eq!(regions[3].kind, MemoryKind::Ram);
    assert_eq!(regions[4].kind, MemoryKind::Flash);
}

#[test]
fn generic_entry_named_ram_in_any_case_is_ram() {
    let entries = vec![entry(MemoryClass::Generic, Some("SRAM2"), 0x100, 0x200)];
    let regions = regions_from_memory_map("t", &entries).unwrap();
    assert_eq!(regions[0].kind, MemoryKind::Ram);
}

#[test]
fn equal_starts_keep_map_order() {
    let entries = vec![
        entry(MemoryClass::Nvm, Some("second"), 0x100, 0x200),
        entry(MemoryClass::Nvm, Some("first"), 0x0, 0x10),
        entry(MemoryClass::Ram, Some("third"), 0x100, 0x180),
    ];
    let regions = regions_from_memory_map("t", &entries).unwrap();
    let names: Vec<&str> = regions.iter().map(|r| r.name.as_str()).collect();
    assert_eq!(names, vec!["first", "second", "third"]);
}

#[test]
fn empty_memory_map_is_refused() {
    match regions_from_memory_map("nRF52840_xxAA", &Vec::new()) {
        Err(CatalogError::EmptyMemoryMap(name)) => assert_eq!(name, "nRF52840_xxAA"),
        other => panic!("unexpected result: {:?}", other),
    }
}

fn section(name: Option<&str>, address: u64, size: u64, flags: Option<u64>, file_size: Option<u64>) -> SectionRecord {
    SectionRecord { name: name.map(|n| n.to_string()), address, size, elf_flags: flags, file_size }
}

#[test]
fn loaded_sections_become_sorted_segments() {
    let sections = vec![
        section(Some(".bss"), 0x2000_0100, 0x80, Some(0x3), Some(0)),
        section(Some(".text"), 0x0800_0400, 0x1000, Some(0x6), Some(0x1000)),
        section(Some(".debug_info"), 0, 0x500, Some(0), Some(0x500)),
        section(Some(".comment"), 0x10, 0x20, Some(0x30), Some(0x20)),
        section(None, 0x0800_0000, 0x400, Some(0x2), Some(0x400)),
        section(Some(".empty"), 0x3000_0000, 0, Some(0x2), Some(0)),
        section(Some(".data"), 0x2000_0000, 0x100, Some(0x3), None),
    ];
    let segs = segments_from_sections(&sections);
    let names: Vec<&str> = segs.iter().map(|s| s.name.as_str()).collect();
    assert_eq!(names, vec!["<unnamed>", ".text", ".data", ".bss"]);
    assert_eq!(segs[0].flags, "R--");
    assert_eq!(segs[1].flags, "R-X");
    assert_eq!(segs[2].flags, "RW-");
    assert!(segs[0].is_load);
    assert!(segs[1].is_load);
    assert!(!segs[2].is_load);
    assert!(!segs[3].is_load);
    assert!(segs.iter().all(|s| s.conflicts.is_empty()));
}
