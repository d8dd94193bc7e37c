use mason::elf::ByteOrder;
use mason::elf::SectionRecord;
use mason::elf::SymbolRecord;
use mason::rtt::block_from_section;
use mason::rtt::decode_rtt_control_block;
use mason::rtt::find_containing_section;
use mason::rtt::find_rtt_symbol;
use mason::rtt::rtt_info_absent;
use mason::rtt::rtt_info_from_block;

fn header(up: u32, down: u32, big: bool) -> Vec<u8> {
    let mut d = b"SEGGER RTT\0\0\0\0\0\0".to_vec();
    if big {
        d.extend_from_slice(&up.to_be_bytes());
        d.extend_from_slice(&down.to_be_bytes());
    } else {
        d.extend_from_slice(&up.to_le_bytes());
        d.extend_from_slice(&down.to_le_bytes());
    }
    d
}

fn desc32(d: &mut Vec<u8>, addr: u32, size: u32, big: bool) {
    let words = [0x0800_1234u32, addr, size, 0, 0, 0];
    for w in words {
        if big {
            d.extend_from_slice(&w.to_be_bytes());
        } else {
            d.extend_from_slice(&w.to_le_bytes());
        }
    }
}

fn desc64(d: &mut Vec<u8>, addr: u64, size: u32) {
    d.extend_from_slice(&0x1234u64.to_le_bytes());
    d.extend_from_slice(&addr.to_le_bytes());
    d.extend_from_slice(&size.to_le_bytes());
    d.extend_from_slice(&[0u8; 12]);
}

#[test]
fn one_up_buffer_little_endian_32_bit() {
    let mut d = header(1, 0, false);
    desc32(&mut d, 0x2000_0000, 1024, false);
    let (up, down, ups, downs) = decode_rtt_control_block(&d, 4, ByteOrder::Little);
    assert_eq!(up, Some(1));
    assert_eq!(down, Some(0));
    assert_eq!(ups.len(), 1);
    assert_eq!(ups[0].name, "Up 0");
    assert_eq!(ups[0].buffer_address, 0x2000_0000);
    assert_eq!(ups[0].size, 1024);
    assert!(downs.is_empty());
}

#[test]
fn short_block_gives_nothing() {
    for len in 0..24usize {
        let d = vec![0xffu8; len];
        let (up, down, ups, downs) = decode_rtt_control_block(&d, 4, ByteOrder::Little);
        assert_eq!(up, None);
        assert_eq!(down, None);
        assert!(ups.is_empty());
        assert!(downs.is_empty());
        let (up, down, ups, downs) = decode_rtt_control_block(&d, 8, ByteOrder::Big);
        assert_eq!(up, None);
        assert_eq!(down, None);
        assert!(ups.is_empty());
        assert!(downs.is_empty());
    }
}

#[test]
fn big_endian_block_with_unused_slots() {
    let mut d = header(3, 2, true);
    desc32(&mut d, 0x2000_0000, 512, true);
    desc32(&mut d, 0, 64, true);
    desc32(&mut d, 0x2000_1000, 0, true);
    desc32(&mut d, 0x2000_2000, 16, true);
    desc32(&mut d, 0x2000_3000, 32, true);
    let (up, down, ups, downs) = decode_rtt_control_block(&d, 4, ByteOrder::Big);
    assert_eq!(up, Some(3));
    assert_eq!(down, Some(2));
    assert_eq!(ups.len(), 1);
    assert_eq!(ups[0].name, "Up 0");
    assert_eq!(downs.len(), 2);
    assert_eq!(downs[0].name, "Down 0");
    assert_eq!(downs[0].buffer_address, 0x2000_2000);
    assert_eq!(downs[1].name, "Down 1");
    assert_eq!(downs[1].size, 32);
}

#[test]
fn sixty_four_bit_descriptors() {
    let mut d = header(2, 1, false);
    desc64(&mut d, 0x1_0000_0000, 8);
    desc64(&mut d, 0x2_0000_0010, 4096);
    desc64(&mut d, 0x3_0000_0000, 1);
    let (_, _, ups, downs) = decode_rtt_control_block(&d, 8, ByteOrder::Little);
    assert_eq!(ups.len(), 2);
    assert_eq!(ups[1].name, "Up 1");
    assert_eq!(ups[1].buffer_address, 0x2_0000_0010);
    assert_eq!(ups[1].size, 4096);
    assert_eq!(downs.len(), 1);
    assert_eq!(downs[0].buffer_address, 0x3_0000_0000);
}

#[test]
fn slot_counts_are_clamped_to_sixteen() {
    let mut d = header(20, 0, false);
    for i in 0..20u32 {
        desc32(&mut d, 0x2000_0000 + i * 0x100, 0x100, false);
    }
    let (up, _, ups, _) = decode_rtt_control_block(&d, 4, ByteOrder::Little);
    assert_eq!(up, Some(20));
    assert_eq!(ups.len(), 16);
    assert_eq!(ups[15].name, "Up 15");
}

#[test]
fn truncated_descriptor_is_skipped() {
    let mut d = header(2, 0, false);
    desc32(&mut d, 0x2000_0000, 8, false);
    d.extend_from_slice(&[1, 2, 3]);
    let (_, _, ups, _) = decode_rtt_control_block(&d, 4, ByteOrder::Little);
    assert_eq!(ups.len(), 1);
}

fn sym(name: Option<&str>, address: u64, size: u64) -> SymbolRecord {
    SymbolRecord { name: name.map(|n| n.to_string()), address, size }
}

#[test]
fn first_matching_symbol_wins() {
    let syms = vec![
        sym(Some("main"), 0x100, 4),
        sym(None, 0x200, 4),
        sym(Some("SEGGER_RTX"), 0x300, 4),
        sym(Some("my_SEGGER_RTT_block"), 0x2000_0000, 0xa8),
        sym(Some("_SEGGER_RTT"), 0x2000_0100, 0xa8),
    ];
    assert_eq!(find_rtt_symbol(&syms), Some(3));
    let plain = vec![sym(Some("SEGGER_RTT"), 0x10, 0)];
    assert_eq!(find_rtt_symbol(&plain), Some(0));
    let loose = vec![sym(Some("main"), 0x100, 4), sym(Some("SEGGER_RTTX"), 0x300, 4)];
    assert_eq!(find_rtt_symbol(&loose), Some(1));
    let none = vec![sym(Some("SEGGER"), 0x10, 0)];
    assert_eq!(find_rtt_symbol(&none), None);
}

#[test]
fn containing_section_and_block_bytes() {
    let secs = vec![
        SectionRecord { name: None, address: 0x100, size: 0x10, elf_flags: None, file_size: None },
        SectionRecord { name: None, address: 0x2000_0000, size: 0x100, elf_flags: None, file_size: None },
    ];
    assert_eq!(find_containing_section(&secs, 0x2000_0040), Some(1));
    assert_eq!(find_containing_section(&secs, 0x110), None);
    let data: Vec<u8> = (0..0x100u32).map(|i| i as u8).collect();
    let block = block_from_section(0x2000_0000, 0x2000_0040, &data).unwrap();
    assert_eq!(block.len(), 0xc0);
    assert_eq!(block[0], 0x40);
    assert_eq!(block_from_section(0x2000_0000, 0x2000_0100, &data), None);
}

#[test]
fn found_block_facts() {
    let mut d = header(1, 0, false);
    desc32(&mut d, 0x2000_0400, 256, false);
    let name = "_SEGGER_RTT".to_string();
    let info = rtt_info_from_block(&name, 0x2000_0000, 0, Some(&d), false, ByteOrder::Little);
    assert!(info.present);
    assert_eq!(info.symbol_name.as_deref(), Some("_SEGGER_RTT"));
    assert_eq!(info.address, Some(0x2000_0000));
    assert_eq!(info.size, None);
    assert_eq!(info.max_up_buffers, Some(1));
    assert_eq!(info.up_buffers.len(), 1);
    let unread = rtt_info_from_block(&name, 0x2000_0000, 0xa8, None, true, ByteOrder::Big);
    assert!(unread.present);
    assert_eq!(unread.size, Some(0xa8));
    assert_eq!(unread.max_up_buffers, None);
    let absent = rtt_info_absent();
    assert!(!absent.present);
    assert!(absent.symbol_name.is_none());
}
