use mason::elf::parse_defmt_info;
use mason::elf::parse_elf_segments;
use mason::elf::parse_elf_symbols;
use mason::elf::FormatError;
use mason::rtt::parse_rtt_info;
use mason::types::MemoryKind;
use mason::types::MemoryRegion;

struct Section {
    name: &'static str,
    kind: u32,
    flags: u32,
    addr: u32,
    data: Vec<u8>,
    size: u32,
    link: u32,
    info: u32,
    entsize: u32,
}

fn u16le(v: &mut Vec<u8>, x: u16) {
    v.extend_from_slice(&x.to_le_bytes());
}

fn u32le(v: &mut Vec<u8>, x: u32) {
    v.extend_from_slice(&x.to_le_bytes());
}

fn strtab(names: &[&str]) -> (Vec<u8>, Vec<u32>) {
    let mut tab = vec![0u8];
    let mut offsets = Vec::new();
    for n in names {
        offsets.push(tab.len() as u32);
        tab.extend_from_slice(n.as_bytes());
        tab.push(0);
    }
    (tab, offsets)
}

fn control_block() -> Vec<u8> {
    let mut d = b"SEGGER RTT\0\0\0\0\0\0".to_vec();
    for w in [1u32, 0, 0x0800_0010, 0x2000_0000, 1024, 0, 0, 0] {
        u32le(&mut d, w);
    }
    d
}

/// A small 32-bit little-endian ARM executable: code, data holding a trace
/// control block, zero-initialised data, a deferred-format section and a
/// symbol table.
fn image() -> Vec<u8> {
    image_with_block_symbol("_SEGGER_RTT", 0x2000_0000)
}

fn image_with_block_symbol(block_name: &str, block_address: u32) -> Vec<u8> {
    let (sym_names, sym_off) = strtab(&["main", block_name, "zero"]);
    let mut symtab = vec![0u8; 16];
    for (name, value, size, info, shndx) in [
        (sym_off[0], 0x0800_0001u32, 16u32, 0x12u8, 1u16),
        (sym_off[1], block_address, 48, 0x11, 2),
        (sym_off[2], 0, 0, 0x10, 0),
    ] {
        u32le(&mut symtab, name);
        u32le(&mut symtab, value);
        u32le(&mut symtab, size);
        symtab.push(info);
        symtab.push(0);
        u16le(&mut symtab, shndx);
    }
    let names = [".text", ".data", ".bss", ".defmt", ".symtab", ".strtab", ".shstrtab"];
    let (shstr, sh_off) = strtab(&names);
    let sections = vec![
        Section { name: ".text", kind: 1, flags: 0x6, addr: 0x0800_0000, data: vec![0x70, 0x47, 0, 0, 0, 0, 0, 0, 0, 0, 0, 0, 0, 0, 0, 0], size: 16, link: 0, info: 0, entsize: 0 },
        Section { name: ".data", kind: 1, flags: 0x3, addr: 0x2000_0000, data: control_block(), size: 48, link: 0, info: 0, entsize: 0 },
        Section { name: ".bss", kind: 8, flags: 0x3, addr: 0x2000_0100, data: Vec::new(), size: 0x100, link: 0, info: 0, entsize: 0 },
        Section { name: ".defmt", kind: 1, flags: 0, addr: 0, data: vec![1, 2, 3, 4, 5, 6, 7, 8], size: 8, link: 0, info: 0, entsize: 0 },
        Section { name: ".symtab", kind: 2, flags: 0, addr: 0, size: symtab.len() as u32, data: symtab, link: 6, info: 1, entsize: 16 },
        Section { name: ".strtab", kind: 3, flags: 0, addr: 0, size: sym_names.len() as u32, data: sym_names, link: 0, info: 0, entsize: 0 },
        Section { name: ".shstrtab", kind: 3, flags: 0, addr: 0, size: shstr.len() as u32, data: shstr, link: 0, info: 0, entsize: 0 },
    ];
    let mut body = Vec::new();
    let mut offsets = Vec::new();
    for s in &sections {
        while (52 + body.len()) % 4 != 0 {
            body.push(0);
        }
        offsets.push(52 + body.len() as u32);
        body.extend_from_slice(&s.data);
    }
    while (52 + body.len()) % 4 != 0 {
        body.push(0);
    }
    let shoff = 52 + body.len() as u32;
    let mut out = vec![0x7f, b'E', b'L', b'F', 1, 1, 1, 0, 0, 0, 0, 0, 0, 0, 0, 0];
    u16le(&mut out, 2);
    u16le(&mut out, 40);
    u32le(&mut out, 1);
    u32le(&mut out, 0x0800_0001);
    u32le(&mut out, 0);
    u32le(&mut out, shoff);
    u32le(&mut out, 0x0500_0200);
    u16le(&mut out, 52);
    u16le(&mut out, 32);
    u16le(&mut out, 0);
    u16le(&mut out, 40);
    u16le(&mut out, (sections.len() + 1) as u16);
    u16le(&mut out, sections.len() as u16);
    out.extend_from_slice(&body);
    out.extend_from_slice(&[0u8; 40]);
    for (i, s) in sections.iter().enumerate() {
        let name_index = names.iter().position(|n| *n == s.name).unwrap();
        for w in [sh_off[name_index], s.kind, s.flags, s.addr, offsets[i], s.size, s.link, s.info, 4, s.entsize] {
            u32le(&mut out, w);
        }
    }
    out
}

#[test]
fn image_segments_are_read_and_checked() {
    let data = image();
    let segs = parse_elf_segments(&data, None).unwrap();
    let names: Vec<&str> = segs.iter().map(|s| s.name.as_str()).collect();
    assert_eq!(names, vec![".text", ".data", ".bss"]);
    assert_eq!(segs[0].flags, "R-X");
    assert_eq!(segs[1].flags, "RW-");
    assert!(segs[0].is_load);
    assert!(!segs[2].is_load);
    assert!(segs.iter().all(|s| s.conflicts.is_empty()));
    let regions = vec![
        MemoryRegion { name: "FLASH".to_string(), start: 0x0800_0000, size: 0x10, kind: MemoryKind::Flash },
        MemoryRegion { name: "RAM".to_string(), start: 0x2000_0000, size: 0x2_0000, kind: MemoryKind::Ram },
    ];
    let segs = parse_elf_segments(&data, Some(&regions)).unwrap();
    assert!(segs[0].conflicts.is_empty());
    assert!(segs[1].conflicts.is_empty());
    let regions = vec![MemoryRegion { name: "RAM".to_string(), start: 0x2000_0000, size: 0x110, kind: MemoryKind::Ram }];
    let segs = parse_elf_segments(&data, Some(&regions)).unwrap();
    assert_eq!(segs[0].conflicts, vec!["Not in any defined memory region".to_string()]);
    assert_eq!(segs[2].conflicts, vec!["Partially outside RAM region".to_string()]);
}

#[test]
fn image_symbols_are_listed_by_address() {
    let syms = parse_elf_symbols(&image()).unwrap();
    let names: Vec<&str> = syms.iter().map(|s| s.name.as_str()).collect();
    assert_eq!(names, vec!["main", "_SEGGER_RTT"]);
    assert_eq!(syms[0].address, 0x0800_0001);
    assert_eq!(syms[1].size, 48);
}

#[test]
fn image_defmt_sections() {
    let info = parse_defmt_info(&image()).unwrap();
    assert!(info.present);
    assert_eq!(info.sections, vec![(".defmt".to_string(), 8)]);
}

#[test]
fn image_trace_block_is_decoded() {
    let info = parse_rtt_info(&image()).unwrap();
    assert!(info.present);
    assert_eq!(info.symbol_name.as_deref(), Some("_SEGGER_RTT"));
    assert_eq!(info.address, Some(0x2000_0000));
    assert_eq!(info.size, Some(48));
    assert_eq!(info.max_up_buffers, Some(1));
    assert_eq!(info.max_down_buffers, Some(0));
    assert_eq!(info.up_buffers.len(), 1);
    assert_eq!(info.up_buffers[0].name, "Up 0");
    assert_eq!(info.up_buffers[0].buffer_address, 0x2000_0000);
    assert_eq!(info.up_buffers[0].size, 1024);
    assert!(info.down_buffers.is_empty());
}

#[test]
fn garbage_is_not_an_image() {
    let junk = vec![0u8; 64];
    assert!(matches!(parse_elf_segments(&junk, None), Err(FormatError::Malformed)));
    assert!(matches!(parse_elf_symbols(&junk), Err(FormatError::Malformed)));
    assert!(matches!(parse_rtt_info(&junk), Err(FormatError::Malformed)));
    assert!(matches!(parse_defmt_info(&junk), Err(FormatError::Malformed)));
}

#[test]
fn image_without_block_symbol_has_no_trace_block() {
    let info = parse_rtt_info(&image_with_block_symbol("_SEGGER_RTX", 0x2000_0000)).unwrap();
    assert!(!info.present);
    assert!(info.symbol_name.is_none());
    assert!(info.address.is_none());
    assert!(info.max_up_buffers.is_none());
    assert!(info.up_buffers.is_empty());
}

#[test]
fn block_symbol_in_zero_filled_section_has_no_counts() {
    let info = parse_rtt_info(&image_with_block_symbol("SEGGER_RTT", 0x2000_0100)).unwrap();
    assert!(info.present);
    assert_eq!(info.symbol_name.as_deref(), Some("SEGGER_RTT"));
    assert_eq!(info.address, Some(0x2000_0100));
    assert_eq!(info.max_up_buffers, None);
    assert_eq!(info.max_down_buffers, None);
    assert!(info.up_buffers.is_empty());
    assert!(info.down_buffers.is_empty());
}

#[test]
fn segments_with_and_without_regions_agree() {
    let data = image();
    let plain = parse_elf_segments(&data, None).unwrap();
    let regions = vec![MemoryRegion { name: "RAM".to_string(), start: 0x2000_0000, size: 0x2_0000, kind: MemoryKind::Ram }];
    let checked = parse_elf_segments(&data, Some(&regions)).unwrap();
    assert_eq!(plain.len(), checked.len());
    for (a, b) in plain.iter().zip(checked.iter()) {
        assert_eq!(a.name, b.name);
        assert_eq!(a.address, b.address);
        assert_eq!(a.size, b.size);
        assert_eq!(a.flags, b.flags);
        assert_eq!(a.is_load, b.is_load);
    }
}

#[test]
fn any_name_holding_a_known_name_matches() {
    let info = parse_rtt_info(&image_with_block_symbol("XSEGGER_RTT", 0x2000_0000)).unwrap();
    assert!(info.present);
    assert_eq!(info.symbol_name.as_deref(), Some("XSEGGER_RTT"));
    assert_eq!(info.up_buffers.len(), 1);
    let info = parse_rtt_info(&image_with_block_symbol("SEGGER_RTT_UP", 0x2000_0100)).unwrap();
    assert!(info.present);
    assert_eq!(info.symbol_name.as_deref(), Some("SEGGER_RTT_UP"));
    assert_eq!(info.max_up_buffers, None);
    assert!(info.up_buffers.is_empty());
}
