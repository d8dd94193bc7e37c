use vstd::prelude::*;
use vstd::string::*;

use object::Object;
use object::ObjectSection;
use object::ObjectSymbol;

use crate::order::insertion_point;
use crate::order::sort_stably;
use crate::text::contains_text;
use crate::text::has_text;
use crate::text::occurs_at;
use crate::text::starts_with_text;
use crate::types::DefmtInfo;
use crate::types::ElfSymbol;
use crate::conflicts::conflicts_follow_layout;
use crate::conflicts::detect_conflicts;
use crate::conflicts::segment_conflicts;
use crate::order::ascending;
use crate::order::sort_stably_ascends;
use crate::types::texts;
use crate::types::MemoryRegion;
use crate::types::MemorySegment;

verus! {

/// The image is not a container that the object reader understands.
#[derive(Clone, Copy, Debug, PartialEq, Eq, Structural)]
pub enum FormatError {
    Malformed,
}

/// Byte order of the target.
#[derive(Clone, Copy, Debug, PartialEq, Eq, Structural)]
pub enum ByteOrder {
    Little,
    Big,
}

/// What the section table says of one section.
#[derive(Clone, Debug)]
pub struct SectionRecord {
    /// The section's name, where it can be read.
    pub name: Option<String>,
    pub address: u64,
    pub size: u64,
    /// The raw ELF section flags, for ELF sections.
    pub elf_flags: Option<u64>,
    /// Size of the section's bytes in the file, where it has any there.
    pub file_size: Option<u64>,
}

/// What the symbol table says of one symbol.
#[derive(Clone, Debug)]
pub struct SymbolRecord {
    /// The symbol's name, where it can be read.
    pub name: Option<String>,
    pub address: u64,
    pub size: u64,
}

/// The text of an optional string.
pub open spec fn text_opt(o: Option<String>) -> Option<Seq<char>> {
    match o {
        Some(s) => Some(s@),
        None => None,
    }
}

/// A section record as values: name, address, size, ELF flags, file size.
pub type SectionView = (Option<Seq<char>>, u64, u64, Option<u64>, Option<u64>);

pub open spec fn section_view(s: SectionRecord) -> SectionView {
    (text_opt(s.name), s.address, s.size, s.elf_flags, s.file_size)
}

pub open spec fn section_views(v: Seq<SectionRecord>) -> Seq<SectionView> {
    v.map_values(|s: SectionRecord| section_view(s))
}

/// A symbol record as values: name, address, size.
pub type SymbolEntry = (Option<Seq<char>>, u64, u64);

pub open spec fn symbol_entry(s: SymbolRecord) -> SymbolEntry {
    (text_opt(s.name), s.address, s.size)
}

pub open spec fn symbol_entries(v: Seq<SymbolRecord>) -> Seq<SymbolEntry> {
    v.map_values(|s: SymbolRecord| symbol_entry(s))
}

/// The section table that the object reader finds in an image, where it can
/// read the image at all.
pub uninterp spec fn section_table(bytes: Seq<u8>) -> Option<
    Seq<(Option<Seq<char>>, u64, u64, Option<u64>, Option<u64>)>,
>;

/// The symbol table that the object reader finds in an image, where it can
/// read the image at all.
pub uninterp spec fn symbol_table(bytes: Seq<u8>) -> Option<Seq<(Option<Seq<char>>, u64, u64)>>;

/// Whether an image has 8-byte addresses, and whether it is little-endian.
pub uninterp spec fn image_class(bytes: Seq<u8>) -> Option<(bool, bool)>;

/// The file bytes of the section at position `index` of an image's table.
pub uninterp spec fn section_data(bytes: Seq<u8>, index: int) -> Option<Seq<u8>>;

/// Relies on `object::File::parse` and `Object::sections`, with `ObjectSection`'s
/// `name`, `address`, `size`, `flags` and `file_range`: one record per section,
/// in table order.
#[verifier::external_body]
pub(crate) fn read_sections(bytes: &[u8]) -> (r: Result<Vec<SectionRecord>, FormatError>)
    ensures
        match r {
            Ok(v) => section_table(bytes@) == Some(section_views(v@)),
            Err(_) => section_table(bytes@) is None,
        },
{
    let file = object::File::parse(bytes).map_err(|_| FormatError::Malformed)?;
    Ok(file.sections().map(|s| SectionRecord {
        name: s.name().ok().map(String::from),
        address: s.address(),
        size: s.size(),
        elf_flags: match s.flags() {
            object::SectionFlags::Elf { sh_flags } => Some(sh_flags),
            _ => None,
        },
        file_size: s.file_range().map(|range| range.1),
    }).collect())
}

/// Relies on `object::File::parse` and `Object::symbols`, with `ObjectSymbol`'s
/// `name`, `address` and `size`: one record per symbol, in table order.
#[verifier::external_body]
pub(crate) fn read_symbols(bytes: &[u8]) -> (r: Result<Vec<SymbolRecord>, FormatError>)
    ensures
        match r {
            Ok(v) => symbol_table(bytes@) == Some(symbol_entries(v@)),
            Err(_) => symbol_table(bytes@) is None,
        },
{
    let file = object::File::parse(bytes).map_err(|_| FormatError::Malformed)?;
    Ok(file.symbols().map(|s| SymbolRecord {
        name: s.name().ok().map(String::from),
        address: s.address(),
        size: s.size(),
    }).collect())
}

/// Relies on `object::File::parse`, `Object::is_64` and `Object::endianness`:
/// whether addresses are 8 bytes wide, and the byte order.
#[verifier::external_body]
pub(crate) fn read_image_class(bytes: &[u8]) -> (r: Result<(bool, ByteOrder), FormatError>)
    ensures
        match r {
            Ok(c) => image_class(bytes@) == Some((c.0, c.1 == ByteOrder::Little)),
            Err(_) => image_class(bytes@) is None,
        },
{
    let file = object::File::parse(bytes).map_err(|_| FormatError::Malformed)?;
    let order = match file.endianness() {
        object::Endianness::Little => ByteOrder::Little,
        object::Endianness::Big => ByteOrder::Big,
    };
    Ok((file.is_64(), order))
}

/// Relies on `object::File::parse`, `Object::sections` and `ObjectSection::data`:
/// the file bytes of the section at position `index` of the table, where it has
/// any that can be read.
#[verifier::external_body]
pub(crate) fn read_section_data(bytes: &[u8], index: usize) -> (r: Option<Vec<u8>>)
    ensures
        match r {
            Some(d) => section_data(bytes@, index as int) == Some(d@),
            None => section_data(bytes@, index as int) is None,
        },
{
    let file = object::File::parse(bytes).ok()?;
    let section = file.sections().nth(index)?;
    section.data().ok().map(|d| d.to_vec())
}

pub type SegmentView = (Seq<char>, u64, u64, Seq<char>, bool);

pub open spec fn segment_view(s: MemorySegment) -> SegmentView {
    (s.name@, s.address, s.size, s.flags@, s.is_load)
}

pub open spec fn address_key() -> spec_fn(SegmentView) -> int {
    |v: SegmentView| v.1 as int
}

/// The section is loaded into target memory: it has a size, an address and the
/// ELF "allocated" flag.
pub open spec fn is_memory_section(s: SectionView) -> bool {
    s.2 > 0 && s.1 > 0 && match s.3 {
        Some(f) => f & 2 != 0,
        None => false,
    }
}

/// "R", then "W" or "-" for the write flag, then "X" or "-" for the execute flag.
pub open spec fn flags_text(f: u64) -> Seq<char> {
    "R"@ + (if f & 1 != 0 {
        "W"@
    } else {
        "-"@
    }) + (if f & 4 != 0 {
        "X"@
    } else {
        "-"@
    })
}

pub open spec fn section_segment(s: SectionView) -> SegmentView {
    (
        match s.0 {
            Some(n) => n,
            None => "<unnamed>"@,
        },
        s.1,
        s.2,
        flags_text(s.3->Some_0),
        match s.4 {
            Some(n) => n > 0,
            None => false,
        },
    )
}

/// The segment of each memory section, in table order.
pub open spec fn memory_segments(secs: Seq<SectionView>) -> Seq<SegmentView>
    decreases secs.len(),
{
    if secs.len() == 0 {
        seq![]
    } else {
        let prev = memory_segments(secs.drop_last());
        if is_memory_section(secs.last()) {
            prev.push(section_segment(secs.last()))
        } else {
            prev
        }
    }
}

fn flags_string(f: u64) -> (r: String)
    ensures
        r@ == flags_text(f),
{
    let w = if f & 1 != 0 {
        "W"
    } else {
        "-"
    };
    let x = if f & 4 != 0 {
        "X"
    } else {
        "-"
    };
    crate::text::concat3("R", w, x)
}

/// The memory segments of a section table: every loaded section, sorted by
/// address, sections at equal addresses kept in table order, with no diagnostics.
pub fn segments_from_sections(sections: &Vec<SectionRecord>) -> (r: Vec<MemorySegment>)
    ensures
        r@.map_values(|s: MemorySegment| segment_view(s)) == sort_stably(
            memory_segments(section_views(sections@)),
            address_key(),
        ),
        ascending(r@.map_values(|s: MemorySegment| segment_view(s)), address_key()),
        forall|i: int| 0 <= i < r@.len() ==> (#[trigger] r@[i]).conflicts@.len() == 0,
{
    let ghost views = section_views(sections@);
    let mut out: Vec<MemorySegment> = Vec::new();
    let mut i: usize = 0;
    while i < sections.len()
        invariant
            i <= sections@.len(),
            views == section_views(sections@),
            out@.map_values(|s: MemorySegment| segment_view(s)) == sort_stably(
                memory_segments(views.subrange(0, i as int)),
                address_key(),
            ),
            forall|k: int| 0 <= k < out@.len() ==> (#[trigger] out@[k]).conflicts@.len() == 0,
        decreases sections.len() - i,
    {
        let s = &sections[i];
        let ghost m = memory_segments(views.subrange(0, i as int));
        proof {
            assert(views.subrange(0, i + 1).drop_last() =~= views.subrange(0, i as int));
            assert(views.subrange(0, i + 1).last() == section_view(*s));
        }
        let f = match s.elf_flags {
            Some(f) => f,
            None => 0,
        };
        let allocated = match s.elf_flags {
            Some(f) => f & 2 != 0,
            None => false,
        };
        if s.size > 0 && s.address > 0 && allocated {
            let is_load = match s.file_size {
                Some(n) => n > 0,
                None => false,
            };
            let name = match &s.name {
                Some(n) => n.clone(),
                None => String::from_str("<unnamed>"),
            };
            let seg = MemorySegment {
                name,
                address: s.address,
                size: s.size,
                flags: flags_string(f),
                is_load,
                conflicts: Vec::new(),
            };
            let ghost before = out@.map_values(|s: MemorySegment| segment_view(s));
            let ghost sv = segment_view(seg);
            assert(sv == section_segment(section_view(*s)));
            let mut p: usize = 0;
            while p < out.len() && out[p].address <= seg.address
                invariant
                    p <= out@.len(),
                    before == out@.map_values(|s: MemorySegment| segment_view(s)),
                    insertion_point(before, address_key(), seg.address as int, 0) == insertion_point(
                        before,
                        address_key(),
                        seg.address as int,
                        p as int,
                    ),
                decreases out.len() - p,
            {
                p += 1;
            }
            out.insert(p, seg);
            proof {
                assert(out@.map_values(|s: MemorySegment| segment_view(s)) =~= before.insert(p as int, sv));
                assert(memory_segments(views.subrange(0, i + 1)) == m.push(sv));
                assert(m.push(sv).drop_last() =~= m);
            }
        }
        i += 1;
    }
    proof {
        assert(views.subrange(0, sections@.len() as int) =~= views);
        sort_stably_ascends(memory_segments(views), address_key());
    }
    out
}

/// The memory segments of an image, sorted by address. With a region catalog,
/// each segment carries its diagnostics against the other segments and the
/// catalog; without one, none.
pub fn parse_elf_segments(bytes: &[u8], memory_regions: Option<&[MemoryRegion]>) -> (r: Result<
    Vec<MemorySegment>,
    FormatError,
>)
    ensures
        r is Err <==> section_table(bytes@) is None,
        match r {
            Ok(v) => {
                &&& v@.map_values(|s: MemorySegment| segment_view(s)) == sort_stably(
                    memory_segments(section_table(bytes@)->Some_0),
                    address_key(),
                )
                &&& ascending(v@.map_values(|s: MemorySegment| segment_view(s)), address_key())
                &&& forall|i: int|
                    0 <= i < v@.len() ==> texts((#[trigger] v@[i]).conflicts@) == match memory_regions {
                        Some(rs) => segment_conflicts(v@, rs@, i),
                        None => Seq::<Seq<char>>::empty(),
                    }
            },
            Err(e) => e == FormatError::Malformed,
        },
{
    let sections = read_sections(bytes)?;
    let mut segments = segments_from_sections(&sections);
    let ghost sorted = segments@;
    proof {
        sort_stably_ascends(memory_segments(section_views(sections@)), address_key());
        assert(texts(Seq::<String>::empty()) =~= Seq::<Seq<char>>::empty());
    }
    match memory_regions {
        Some(regions) => {
            detect_conflicts(&mut segments, regions);
            proof {
                assert(segments@.map_values(|s: MemorySegment| segment_view(s)) =~= sorted.map_values(
                    |s: MemorySegment| segment_view(s),
                ));
                assert forall|i: int| 0 <= i < segments@.len() implies texts(
                    (#[trigger] segments@[i]).conflicts@,
                ) == segment_conflicts(segments@, regions@, i) by {
                    conflicts_follow_layout(segments@, sorted, regions@, i);
                }
            }
        },
        None => {
            proof {
                assert forall|i: int| 0 <= i < segments@.len() implies texts(
                    (#[trigger] segments@[i]).conflicts@,
                ) == Seq::<Seq<char>>::empty() by {
                    assert(texts(segments@[i].conflicts@) =~= Seq::<Seq<char>>::empty());
                }
            }
        },
    }
    Ok(segments)
}

pub type SymbolView = (Seq<char>, u64, u64);

pub open spec fn symbol_view(s: ElfSymbol) -> SymbolView {
    (s.name@, s.address, s.size)
}

pub open spec fn symbol_key() -> spec_fn(SymbolView) -> int {
    |v: SymbolView| v.1 as int
}

/// The symbol has a readable, non-empty name and a non-zero address.
pub open spec fn is_listed_symbol(s: SymbolEntry) -> bool {
    match s.0 {
        Some(n) => n.len() > 0 && s.1 > 0,
        None => false,
    }
}

/// The listed symbols of a table, in table order.
pub open spec fn listed_symbols(syms: Seq<SymbolEntry>) -> Seq<SymbolView>
    decreases syms.len(),
{
    if syms.len() == 0 {
        seq![]
    } else {
        let prev = listed_symbols(syms.drop_last());
        let s = syms.last();
        if is_listed_symbol(s) {
            prev.push((s.0->Some_0, s.1, s.2))
        } else {
            prev
        }
    }
}

/// The listed symbols of a table, sorted by address, ties in table order.
pub fn symbols_from_table(symbols: &Vec<SymbolRecord>) -> (r: Vec<ElfSymbol>)
    ensures
        r@.map_values(|s: ElfSymbol| symbol_view(s)) == sort_stably(
            listed_symbols(symbol_entries(symbols@)),
            symbol_key(),
        ),
        ascending(r@.map_values(|s: ElfSymbol| symbol_view(s)), symbol_key()),
{
    let ghost entries = symbol_entries(symbols@);
    let mut out: Vec<ElfSymbol> = Vec::new();
    let mut i: usize = 0;
    while i < symbols.len()
        invariant
            i <= symbols@.len(),
            entries == symbol_entries(symbols@),
            out@.map_values(|s: ElfSymbol| symbol_view(s)) == sort_stably(
                listed_symbols(entries.subrange(0, i as int)),
                symbol_key(),
            ),
        decreases symbols.len() - i,
    {
        let s = &symbols[i];
        let ghost m = listed_symbols(entries.subrange(0, i as int));
        proof {
            assert(entries.subrange(0, i + 1).drop_last() =~= entries.subrange(0, i as int));
            assert(entries.subrange(0, i + 1).last() == symbol_entry(*s));
        }
        match &s.name {
            Some(n) => {
                if s.address > 0 && n.as_str().unicode_len() > 0 {
                    let sym = ElfSymbol { name: n.clone(), address: s.address, size: s.size };
                    let ghost before = out@.map_values(|s: ElfSymbol| symbol_view(s));
                    let ghost sv = symbol_view(sym);
                    let mut p: usize = 0;
                    while p < out.len() && out[p].address <= sym.address
                        invariant
                            p <= out@.len(),
                            before == out@.map_values(|s: ElfSymbol| symbol_view(s)),
                            insertion_point(before, symbol_key(), sym.address as int, 0) == insertion_point(
                                before,
                                symbol_key(),
                                sym.address as int,
                                p as int,
                            ),
                        decreases out.len() - p,
                    {
                        p += 1;
                    }
                    out.insert(p, sym);
                    proof {
                        assert(out@.map_values(|s: ElfSymbol| symbol_view(s)) =~= before.insert(p as int, sv));
                        assert(listed_symbols(entries.subrange(0, i + 1)) == m.push(sv));
                        assert(m.push(sv).drop_last() =~= m);
                    }
                }
            },
            None => {},
        }
        i += 1;
    }
    proof {
        assert(entries.subrange(0, symbols@.len() as int) =~= entries);
        sort_stably_ascends(listed_symbols(entries), symbol_key());
    }
    out
}

/// The symbols of an image with a readable, non-empty name and a non-zero
/// address, sorted by address.
pub fn parse_elf_symbols(bytes: &[u8]) -> (r: Result<Vec<ElfSymbol>, FormatError>)
    ensures
        r is Err <==> symbol_table(bytes@) is None,
        match r {
            Ok(v) => {
                &&& v@.map_values(|s: ElfSymbol| symbol_view(s)) == sort_stably(
                    listed_symbols(symbol_table(bytes@)->Some_0),
                    symbol_key(),
                )
                &&& ascending(v@.map_values(|s: ElfSymbol| symbol_view(s)), symbol_key())
            },
            Err(e) => e == FormatError::Malformed,
        },
{
    let symbols = read_symbols(bytes)?;
    let v = symbols_from_table(&symbols);
    proof {
        sort_stably_ascends(listed_symbols(symbol_entries(symbols@)), symbol_key());
    }
    Ok(v)
}

pub open spec fn section_name_or_empty(s: SectionView) -> Seq<char> {
    match s.0 {
        Some(n) => n,
        None => Seq::empty(),
    }
}

/// A non-empty section whose name begins with ".defmt" or holds "defmt".
pub open spec fn is_defmt_section(s: SectionView) -> bool {
    let n = section_name_or_empty(s);
    (occurs_at(n, ".defmt"@, 0) || has_text(n, "defmt"@)) && s.2 > 0
}

/// Name and size of each deferred-format section, in table order.
pub open spec fn defmt_sections(secs: Seq<SectionView>) -> Seq<(Seq<char>, u64)>
    decreases secs.len(),
{
    if secs.len() == 0 {
        seq![]
    } else {
        let prev = defmt_sections(secs.drop_last());
        let s = secs.last();
        if is_defmt_section(s) {
            prev.push((section_name_or_empty(s), s.2))
        } else {
            prev
        }
    }
}

pub open spec fn defmt_view(d: DefmtInfo) -> Seq<(Seq<char>, u64)> {
    d.sections@.map_values(|p: (String, u64)| (p.0@, p.1))
}

/// The deferred-format sections of a section table.
pub fn defmt_from_sections(sections: &Vec<SectionRecord>) -> (r: DefmtInfo)
    ensures
        defmt_view(r) == defmt_sections(section_views(sections@)),
        r.present == (r.sections@.len() > 0),
{
    let ghost views = section_views(sections@);
    let mut found: Vec<(String, u64)> = Vec::new();
    let mut i: usize = 0;
    while i < sections.len()
        invariant
            i <= sections@.len(),
            views == section_views(sections@),
            found@.map_values(|p: (String, u64)| (p.0@, p.1)) == defmt_sections(views.subrange(0, i as int)),
        decreases sections.len() - i,
    {
        let s = &sections[i];
        let ghost m = defmt_sections(views.subrange(0, i as int));
        let ghost sv = section_view(*s);
        proof {
            assert(views.subrange(0, i + 1).drop_last() =~= views.subrange(0, i as int));
            assert(views.subrange(0, i + 1).last() == sv);
        }
        let name = match &s.name {
            Some(n) => n.clone(),
            None => String::new(),
        };
        assert(name@ == section_name_or_empty(sv));
        let wanted = starts_with_text(name.as_str(), ".defmt") || contains_text(name.as_str(), "defmt");
        if wanted && s.size > 0 {
            let size = s.size;
            found.push((name, size));
            proof {
                assert(found@.map_values(|p: (String, u64)| (p.0@, p.1)) =~= m.push((section_name_or_empty(sv), size)));
            }
        }
        i += 1;
    }
    proof {
        assert(views.subrange(0, sections@.len() as int) =~= views);
    }
    let present = found.len() > 0;
    DefmtInfo { present, sections: found }
}

/// The deferred-format sections of an image.
pub fn parse_defmt_info(bytes: &[u8]) -> (r: Result<DefmtInfo, FormatError>)
    ensures
        r is Err <==> section_table(bytes@) is None,
        match r {
            Ok(d) => d.present == (d.sections@.len() > 0) && defmt_view(d) == defmt_sections(
                section_table(bytes@)->Some_0,
            ),
            Err(e) => e == FormatError::Malformed,
        },
{
    let sections = read_sections(bytes)?;
    Ok(defmt_from_sections(&sections))
}

} // verus!
