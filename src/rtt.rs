use vstd::prelude::*;
use vstd::string::*;

use crate::elf::read_image_class;
use crate::elf::read_section_data;
use crate::elf::read_sections;
use crate::elf::read_symbols;
use crate::elf::ByteOrder;
use crate::elf::FormatError;
use crate::elf::image_class;
use crate::elf::section_data;
use crate::elf::section_table;
use crate::elf::section_view;
use crate::elf::section_views;
use crate::elf::symbol_entries;
use crate::elf::symbol_entry;
use crate::elf::symbol_table;
use crate::elf::SectionRecord;
use crate::elf::SectionView;
use crate::elf::SymbolEntry;
use crate::elf::SymbolRecord;
use crate::text::contains_text;
use crate::text::dec_text;
use crate::text::has_text;
use crate::text::occurs_at;
use crate::text::push_decimal;
use crate::types::RttBufferDesc;
use crate::types::RttInfo;

verus! {

/// Bytes the control block needs before its buffer arrays: a 16-byte identifier
/// and the two buffer counts.
pub const HEADER_LEN: usize = 24;

/// Most buffer slots read from each array, whatever count the block declares.
pub const MAX_SLOTS: u32 = 16;

pub open spec fn word4(b0: u8, b1: u8, b2: u8, b3: u8) -> int {
    b0 + b1 * 256 + b2 * 65536 + b3 * 16777216
}

/// The 32-bit value of the four bytes at `off`, in the given order.
pub open spec fn u32_at(d: Seq<u8>, off: int, order: ByteOrder) -> u32 {
    match order {
        ByteOrder::Little => word4(d[off], d[off + 1], d[off + 2], d[off + 3]) as u32,
        ByteOrder::Big => word4(d[off + 3], d[off + 2], d[off + 1], d[off]) as u32,
    }
}

/// The 64-bit value of the eight bytes at `off`, in the given order.
pub open spec fn u64_at(d: Seq<u8>, off: int, order: ByteOrder) -> u64 {
    match order {
        ByteOrder::Little => (word4(d[off], d[off + 1], d[off + 2], d[off + 3]) + word4(
            d[off + 4],
            d[off + 5],
            d[off + 6],
            d[off + 7],
        ) * 0x1_0000_0000) as u64,
        ByteOrder::Big => (word4(d[off + 7], d[off + 6], d[off + 5], d[off + 4]) + word4(
            d[off + 3],
            d[off + 2],
            d[off + 1],
            d[off],
        ) * 0x1_0000_0000) as u64,
    }
}

/// A target pointer of `ptr_size` bytes at `off`.
pub open spec fn ptr_at(d: Seq<u8>, off: int, ptr_size: int, order: ByteOrder) -> u64 {
    if ptr_size == 4 {
        u32_at(d, off, order) as u64
    } else {
        u64_at(d, off, order)
    }
}

/// Size of one buffer descriptor: name pointer, buffer pointer, size, and three
/// 32-bit words of offsets and flags.
pub open spec fn desc_size(ptr_size: int) -> int {
    2 * ptr_size + 16
}

pub type BufferView = (Seq<char>, u64, u32);

pub open spec fn buffer_view(b: RttBufferDesc) -> BufferView {
    (b.name@, b.buffer_address, b.size)
}

pub open spec fn buffer_views(v: Seq<RttBufferDesc>) -> Seq<BufferView> {
    v.map_values(|b: RttBufferDesc| buffer_view(b))
}

/// The used slots among the first `n` of the descriptor array at `base`, named
/// `label` followed by the slot index. A slot is used when it lies wholly in
/// `d` and has a non-zero buffer address and size.
pub open spec fn used_slots(
    d: Seq<u8>,
    ptr_size: int,
    order: ByteOrder,
    base: int,
    label: Seq<char>,
    n: int,
) -> Seq<BufferView>
    decreases n,
{
    if n <= 0 {
        seq![]
    } else {
        let prev = used_slots(d, ptr_size, order, base, label, n - 1);
        let off = base + (n - 1) * desc_size(ptr_size);
        if off + desc_size(ptr_size) <= d.len() {
            let addr = ptr_at(d, off + ptr_size, ptr_size, order);
            let size = u32_at(d, off + 2 * ptr_size, order);
            if addr != 0 && size > 0 {
                prev.push((label + dec_text((n - 1) as nat), addr, size))
            } else {
                prev
            }
        } else {
            prev
        }
    }
}

pub open spec fn clamp_slots(n: u32) -> int {
    if n < MAX_SLOTS {
        n as int
    } else {
        MAX_SLOTS as int
    }
}

/// What a decode of the control-block bytes `d` gives: the two declared counts,
/// the used up-buffer slots and the used down-buffer slots.
pub open spec fn decoded(d: Seq<u8>, ptr_size: int, order: ByteOrder) -> (
    Option<u32>,
    Option<u32>,
    Seq<BufferView>,
    Seq<BufferView>,
) {
    if d.len() < HEADER_LEN {
        (None, None, seq![], seq![])
    } else {
        let up = u32_at(d, 16, order);
        let down = u32_at(d, 20, order);
        (
            Some(up),
            Some(down),
            used_slots(d, ptr_size, order, HEADER_LEN as int, "Up "@, clamp_slots(up)),
            used_slots(
                d,
                ptr_size,
                order,
                HEADER_LEN + up * desc_size(ptr_size),
                "Down "@,
                clamp_slots(down),
            ),
        )
    }
}

fn read_u32(d: &[u8], off: usize, order: ByteOrder) -> (r: u32)
    requires
        off + 4 <= d@.len(),
    ensures
        r == u32_at(d@, off as int, order),
{
    let _ = d.len();
    let (b0, b1, b2, b3) = match order {
        ByteOrder::Little => (d[off], d[off + 1], d[off + 2], d[off + 3]),
        ByteOrder::Big => (d[off + 3], d[off + 2], d[off + 1], d[off]),
    };
    b0 as u32 + b1 as u32 * 256 + b2 as u32 * 65536 + b3 as u32 * 16777216
}

fn read_ptr(d: &[u8], off: usize, ptr_size: usize, order: ByteOrder) -> (r: u64)
    requires
        ptr_size == 4 || ptr_size == 8,
        off + ptr_size <= d@.len(),
    ensures
        r == ptr_at(d@, off as int, ptr_size as int, order),
{
    let _ = d.len();
    if ptr_size == 4 {
        read_u32(d, off, order) as u64
    } else {
        let (lo, hi) = match order {
            ByteOrder::Little => (read_u32(d, off, order), read_u32(d, off + 4, order)),
            ByteOrder::Big => (read_u32(d, off + 4, order), read_u32(d, off, order)),
        };
        lo as u64 + hi as u64 * 0x1_0000_0000
    }
}

fn read_slots(
    d: &[u8],
    ptr_size: usize,
    order: ByteOrder,
    base: u64,
    label: &str,
    count: u32,
) -> (r: Vec<RttBufferDesc>)
    requires
        ptr_size == 4 || ptr_size == 8,
        base <= 0x100_0000_0000,
    ensures
        buffer_views(r@) == used_slots(
            d@,
            ptr_size as int,
            order,
            base as int,
            label@,
            clamp_slots(count),
        ),
{
    let n = if count < MAX_SLOTS {
        count
    } else {
        MAX_SLOTS
    };
    let desc = (2 * ptr_size + 16) as u64;
    let mut out: Vec<RttBufferDesc> = Vec::new();
    let mut i: u32 = 0;
    while i < n
        invariant
            ptr_size == 4 || ptr_size == 8,
            base <= 0x100_0000_0000,
            desc == desc_size(ptr_size as int),
            n == clamp_slots(count),
            i <= n,
            buffer_views(out@) == used_slots(d@, ptr_size as int, order, base as int, label@, i as int),
        decreases n - i,
    {
        let ghost prev = buffer_views(out@);
        assert(i as u64 * desc <= 16 * 32) by (nonlinear_arith)
            requires
                i < 16,
                desc <= 32,
        ;
        let off = base + i as u64 * desc;
        if off + desc <= d.len() as u64 {
            let at = off as usize;
            let addr = read_ptr(d, at + ptr_size, ptr_size, order);
            let size = read_u32(d, at + 2 * ptr_size, order);
            if addr != 0 && size > 0 {
                let mut name = String::from_str(label);
                push_decimal(&mut name, i as u64);
                out.push(RttBufferDesc { name, buffer_address: addr, size });
                proof {
                    assert(buffer_views(out@) =~= prev.push((label@ + dec_text(i as nat), addr, size)));
                }
            }
        }
        i += 1;
    }
    out
}

/// Decodes the control block held by `d`: the declared buffer counts, then the
/// used slots of the up-buffer array at byte 24 and of the down-buffer array
/// right after all the declared up-buffer slots, at most 16 slots of each.
/// Fewer than 24 bytes give no counts and no buffers.
pub fn decode_rtt_control_block(d: &[u8], ptr_size: usize, order: ByteOrder) -> (r: (
    Option<u32>,
    Option<u32>,
    Vec<RttBufferDesc>,
    Vec<RttBufferDesc>,
))
    requires
        ptr_size == 4 || ptr_size == 8,
    ensures
        (r.0, r.1, buffer_views(r.2@), buffer_views(r.3@)) == decoded(d@, ptr_size as int, order),
        d@.len() < HEADER_LEN ==> r.0 is None && r.1 is None && r.2@.len() == 0 && r.3@.len() == 0,
{
    if d.len() < HEADER_LEN {
        let up: Vec<RttBufferDesc> = Vec::new();
        let down: Vec<RttBufferDesc> = Vec::new();
        proof {
            assert(buffer_views(up@) =~= Seq::<BufferView>::empty());
        }
        return (None, None, up, down);
    }
    let max_up = read_u32(d, 16, order);
    let max_down = read_u32(d, 20, order);
    let desc = (2 * ptr_size + 16) as u64;
    let up = read_slots(d, ptr_size, order, HEADER_LEN as u64, "Up ", max_up);
    assert(max_up as u64 * desc <= 0xffff_ffff * 32) by (nonlinear_arith)
        requires
            desc <= 32,
    ;
    let down_base = HEADER_LEN as u64 + max_up as u64 * desc;
    let down = read_slots(d, ptr_size, order, down_base, "Down ", max_down);
    (Some(max_up), Some(max_down), up, down)
}

/// A name under which firmware exports its trace control block: one that is
/// or holds "_SEGGER_RTT" or "SEGGER_RTT". Every such name holds "SEGGER_RTT".
pub open spec fn is_rtt_name(n: Seq<char>) -> bool {
    has_text(n, "SEGGER_RTT"@)
}

/// A name matches exactly when it equals or holds one of the two known
/// control-block names.
pub proof fn rtt_name_matches_known_names(n: Seq<char>)
    ensures
        is_rtt_name(n) <==> (n == "_SEGGER_RTT"@ || n == "SEGGER_RTT"@ || has_text(n, "_SEGGER_RTT"@)
            || has_text(n, "SEGGER_RTT"@)),
{
    reveal_strlit("_SEGGER_RTT");
    reveal_strlit("SEGGER_RTT");
    let short = "SEGGER_RTT"@;
    let long = "_SEGGER_RTT"@;
    assert(long.subrange(1, 11) =~= short);
    if n == short {
        assert(n.subrange(0, 10) =~= short);
        assert(occurs_at(n, short, 0));
    }
    if n == long {
        assert(n.subrange(1, 11) =~= short);
        assert(occurs_at(n, short, 1));
    }
    if has_text(n, long) {
        let i = choose|i: int| occurs_at(n, long, i);
        assert(n.subrange(i + 1, i + 11) =~= long.subrange(1, 11));
        assert(occurs_at(n, short, i + 1));
    }
}

pub open spec fn names_rtt(s: SymbolEntry) -> bool {
    match s.0 {
        Some(n) => is_rtt_name(n),
        None => false,
    }
}

/// Index of the first symbol in `syms[i..]` that names the control block.
pub open spec fn first_rtt_symbol(syms: Seq<SymbolEntry>, i: int) -> Option<int>
    decreases syms.len() - i,
{
    if i < 0 || i >= syms.len() {
        None
    } else if names_rtt(syms[i]) {
        Some(i)
    } else {
        first_rtt_symbol(syms, i + 1)
    }
}

/// The section's address range holds `address`.
pub open spec fn section_holds(s: SectionView, address: u64) -> bool {
    s.1 <= address && address < s.1 + s.2
}

/// Index of the first section in `secs[i..]` whose address range holds `address`.
pub open spec fn first_holding_section(secs: Seq<SectionView>, address: u64, i: int) -> Option<int>
    decreases secs.len() - i,
{
    if i < 0 || i >= secs.len() {
        None
    } else if section_holds(secs[i], address) {
        Some(i)
    } else {
        first_holding_section(secs, address, i + 1)
    }
}

/// The control block's bytes in an image with section table `secs`: the file
/// bytes of the first section holding `address`, from `address` on; none where
/// there is no such section, its bytes cannot be read, or they end before it.
pub open spec fn control_block_bytes(bytes: Seq<u8>, secs: Seq<SectionView>, address: u64) -> Seq<u8> {
    match first_holding_section(secs, address, 0) {
        None => Seq::empty(),
        Some(k) => match section_data(bytes, k) {
            None => Seq::empty(),
            Some(d) => if address - secs[k].1 < d.len() {
                d.subrange(address - secs[k].1, d.len() as int)
            } else {
                Seq::empty()
            },
        },
    }
}

proof fn lemma_first_rtt_symbol(syms: Seq<SymbolEntry>, j: int)
    requires
        0 <= j <= syms.len(),
    ensures
        match first_rtt_symbol(syms, j) {
            Some(i) => j <= i < syms.len() && names_rtt(syms[i]),
            None => true,
        },
    decreases syms.len() - j,
{
    if j < syms.len() && !names_rtt(syms[j]) {
        lemma_first_rtt_symbol(syms, j + 1);
    }
}

proof fn lemma_first_holding_section(secs: Seq<SectionView>, address: u64, j: int)
    requires
        0 <= j <= secs.len(),
    ensures
        match first_holding_section(secs, address, j) {
            Some(i) => j <= i < secs.len() && section_holds(secs[i], address),
            None => true,
        },
    decreases secs.len() - j,
{
    if j < secs.len() && !section_holds(secs[j], address) {
        lemma_first_holding_section(secs, address, j + 1);
    }
}

fn is_rtt_symbol_name(n: &str) -> (r: bool)
    ensures
        r == is_rtt_name(n@),
{
    contains_text(n, "SEGGER_RTT")
}

/// Index of the first symbol of the table that names the control block: its
/// name is or holds "_SEGGER_RTT" or "SEGGER_RTT".
pub fn find_rtt_symbol(symbols: &Vec<SymbolRecord>) -> (r: Option<usize>)
    ensures
        match r {
            Some(i) => first_rtt_symbol(symbol_entries(symbols@), 0) == Some(i as int),
            None => first_rtt_symbol(symbol_entries(symbols@), 0) is None,
        },
{
    let ghost entries = symbol_entries(symbols@);
    let mut i: usize = 0;
    while i < symbols.len()
        invariant
            i <= symbols@.len(),
            entries == symbol_entries(symbols@),
            first_rtt_symbol(entries, 0) == first_rtt_symbol(entries, i as int),
        decreases symbols.len() - i,
    {
        assert(entries[i as int] == symbol_entry(symbols@[i as int]));
        match &symbols[i].name {
            Some(n) => {
                if is_rtt_symbol_name(n.as_str()) {
                    return Some(i);
                }
            },
            None => {},
        }
        i += 1;
    }
    None
}

/// Index of the first section whose address range holds `address`.
pub fn find_containing_section(sections: &Vec<SectionRecord>, address: u64) -> (r: Option<usize>)
    ensures
        match r {
            Some(i) => first_holding_section(section_views(sections@), address, 0) == Some(i as int),
            None => first_holding_section(section_views(sections@), address, 0) is None,
        },
{
    let ghost views = section_views(sections@);
    let mut i: usize = 0;
    while i < sections.len()
        invariant
            i <= sections@.len(),
            views == section_views(sections@),
            first_holding_section(views, address, 0) == first_holding_section(views, address, i as int),
        decreases sections.len() - i,
    {
        let s = &sections[i];
        assert(views[i as int] == section_view(*s));
        if address >= s.address && (address as u128) < s.address as u128 + s.size as u128 {
            return Some(i);
        }
        i += 1;
    }
    None
}

/// The bytes of a section from `address` on, where the section starts at
/// `section_address` and `address` falls within its bytes.
pub fn block_from_section(section_address: u64, address: u64, data: &Vec<u8>) -> (r: Option<Vec<u8>>)
    requires
        section_address <= address,
    ensures
        match r {
            Some(b) => address - section_address < data@.len() && b@ == data@.subrange(
                address - section_address,
                data@.len() as int,
            ),
            None => address - section_address >= data@.len(),
        },
{
    let offset = address - section_address;
    if offset >= data.len() as u64 {
        return None;
    }
    let start = offset as usize;
    let mut out: Vec<u8> = Vec::new();
    let mut i: usize = start;
    while i < data.len()
        invariant
            start <= i <= data@.len(),
            out@ == data@.subrange(start as int, i as int),
        decreases data.len() - i,
    {
        out.push(data[i]);
        proof {
            assert(out@ =~= data@.subrange(start as int, i + 1));
        }
        i += 1;
    }
    Some(out)
}

/// The facts that a control block under symbol `name` at `address`, of symbol
/// size `size`, with bytes `block`, gives.
pub open spec fn rtt_found(
    r: RttInfo,
    name: Seq<char>,
    address: u64,
    size: u64,
    block: Seq<u8>,
    ptr_size: int,
    order: ByteOrder,
) -> bool {
    &&& r.present
    &&& r.symbol_name is Some && r.symbol_name->Some_0@ == name
    &&& r.address == Some(address)
    &&& r.size == if size > 0 {
        Some(size)
    } else {
        None
    }
    &&& (r.max_up_buffers, r.max_down_buffers, buffer_views(r.up_buffers@), buffer_views(
        r.down_buffers@,
    )) == decoded(block, ptr_size, order)
}

/// No control block.
pub open spec fn rtt_absent(r: RttInfo) -> bool {
    &&& !r.present
    &&& r.symbol_name is None
    &&& r.address is None
    &&& r.size is None
    &&& r.max_up_buffers is None
    &&& r.max_down_buffers is None
    &&& r.up_buffers@.len() == 0
    &&& r.down_buffers@.len() == 0
}

/// The facts of a control block found under symbol `name`, decoded from
/// `block` where its bytes could be read.
pub fn rtt_info_from_block(
    name: &String,
    address: u64,
    size: u64,
    block: Option<&Vec<u8>>,
    is_64: bool,
    order: ByteOrder,
) -> (r: RttInfo)
    ensures
        rtt_found(
            r,
            name@,
            address,
            size,
            match block {
                Some(b) => b@,
                None => Seq::empty(),
            },
            if is_64 {
                8
            } else {
                4
            },
            order,
        ),
{
    let ptr_size: usize = if is_64 {
        8
    } else {
        4
    };
    let (max_up, max_down, up_buffers, down_buffers) = match block {
        Some(b) => decode_rtt_control_block(b.as_slice(), ptr_size, order),
        None => {
            let empty: Vec<u8> = Vec::new();
            decode_rtt_control_block(empty.as_slice(), ptr_size, order)
        },
    };
    RttInfo {
        present: true,
        symbol_name: Some(name.clone()),
        address: Some(address),
        size: if size > 0 {
            Some(size)
        } else {
            None
        },
        max_up_buffers: max_up,
        max_down_buffers: max_down,
        up_buffers,
        down_buffers,
    }
}

/// The facts of an image without a control block.
pub fn rtt_info_absent() -> (r: RttInfo)
    ensures
        rtt_absent(r),
{
    RttInfo {
        present: false,
        symbol_name: None,
        address: None,
        size: None,
        max_up_buffers: None,
        max_down_buffers: None,
        up_buffers: Vec::new(),
        down_buffers: Vec::new(),
    }
}

/// Finds and decodes the trace control block of an image: the first symbol that
/// names it, the bytes from its address in the first section that holds that
/// address, with the image's pointer width and byte order.
pub fn parse_rtt_info(bytes: &[u8]) -> (r: Result<RttInfo, FormatError>)
    ensures
        r is Err <==> {
            ||| image_class(bytes@) is None
            ||| symbol_table(bytes@) is None
            ||| (first_rtt_symbol(symbol_table(bytes@)->Some_0, 0) is Some && section_table(bytes@) is None)
        },
        match r {
            Ok(info) => match first_rtt_symbol(symbol_table(bytes@)->Some_0, 0) {
                None => rtt_absent(info),
                Some(i) => {
                    let sym = symbol_table(bytes@)->Some_0[i];
                    let class = image_class(bytes@)->Some_0;
                    rtt_found(
                        info,
                        sym.0->Some_0,
                        sym.1,
                        sym.2,
                        control_block_bytes(bytes@, section_table(bytes@)->Some_0, sym.1),
                        if class.0 {
                            8
                        } else {
                            4
                        },
                        if class.1 {
                            ByteOrder::Little
                        } else {
                            ByteOrder::Big
                        },
                    )
                },
            },
            Err(e) => e == FormatError::Malformed,
        },
{
    let (is_64, order) = read_image_class(bytes)?;
    let symbols = read_symbols(bytes)?;
    let found = find_rtt_symbol(&symbols);
    match found {
        None => Ok(rtt_info_absent()),
        Some(i) => {
            proof {
                lemma_first_rtt_symbol(symbol_entries(symbols@), 0);
            }
            let sym = &symbols[i];
            proof {
                assert(symbol_entries(symbols@)[i as int] == symbol_entry(*sym));
            }
            let name = match &sym.name {
                Some(n) => n,
                None => {
                    return Ok(rtt_info_absent());
                },
            };
            let sections = read_sections(bytes)?;
            let block = match find_containing_section(&sections, sym.address) {
                Some(k) => {
                    proof {
                        lemma_first_holding_section(section_views(sections@), sym.address, 0);
                        assert(section_views(sections@)[k as int] == section_view(sections@[k as int]));
                    }
                    match read_section_data(bytes, k) {
                        Some(data) => block_from_section(sections[k].address, sym.address, &data),
                        None => None,
                    }
                },
                None => None,
            };
            proof {
                let expected = control_block_bytes(bytes@, section_table(bytes@)->Some_0, sym.address);
                if block is Some {
                    assert(block->Some_0@ == expected);
                } else {
                    assert(expected == Seq::<u8>::empty());
                }
            }
            let info = match &block {
                Some(b) => rtt_info_from_block(name, sym.address, sym.size, Some(b), is_64, order),
                None => rtt_info_from_block(name, sym.address, sym.size, None, is_64, order),
            };
            Ok(info)
        },
    }
}

} // verus!
