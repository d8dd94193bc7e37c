use vstd::prelude::*;
use vstd::string::*;

use crate::text::contains_text;
use crate::order::ascending;
use crate::order::insertion_point;
use crate::order::sort_stably_ascends;
use crate::order::sort_stably;
use crate::text::has_text;
use crate::types::MemoryKind;
use crate::types::MemoryRegion;

verus! {

/// How a target's memory map classifies an entry.
#[derive(Clone, Copy, Debug, PartialEq, Eq, Structural)]
pub enum MemoryClass {
    Ram,
    /// Flash, EEPROM or other non-volatile memory.
    Nvm,
    /// Neither of the two.
    Generic,
}

/// One entry of a target's memory map, as the target database describes it.
#[derive(Clone, Debug)]
pub struct MemoryMapEntry {
    pub class: MemoryClass,
    pub name: Option<String>,
    /// First address of the range.
    pub start: u64,
    /// One past the last address of the range.
    pub end: u64,
}

/// Why a target's memory layout is not available.
#[derive(Clone, Debug)]
pub enum CatalogError {
    /// The target database knows no target of that name.
    TargetNotFound(String),
    /// The target's memory map has no entry.
    EmptyMemoryMap(String),
}

/// The lower-case form of `s`, as std's Unicode case mapping gives it.
pub uninterp spec fn lower_of(s: Seq<char>) -> Seq<char>;

/// Relies on `str::to_lowercase`: the result depends on the characters alone.
#[verifier::external_body]
fn lowercase(s: &str) -> (r: String)
    ensures
        r@ == lower_of(s@),
{
    s.to_lowercase()
}

pub open spec fn entry_kind(e: MemoryMapEntry) -> MemoryKind {
    match e.class {
        MemoryClass::Ram => MemoryKind::Ram,
        MemoryClass::Nvm => MemoryKind::Flash,
        MemoryClass::Generic => match e.name {
            Some(n) => if has_text(lower_of(n@), "ram"@) {
                MemoryKind::Ram
            } else {
                MemoryKind::Flash
            },
            None => MemoryKind::Flash,
        },
    }
}

pub open spec fn entry_name(e: MemoryMapEntry) -> Seq<char> {
    match e.name {
        Some(n) => n@,
        None => match e.class {
            MemoryClass::Ram => "RAM"@,
            MemoryClass::Nvm => "FLASH"@,
            MemoryClass::Generic => "GENERIC"@,
        },
    }
}

/// Length of the entry's range; an inverted range counts as empty.
pub open spec fn entry_size(e: MemoryMapEntry) -> u64 {
    if e.end >= e.start {
        (e.end - e.start) as u64
    } else {
        0
    }
}


/// The values of a region that the catalog speaks of: name, start, size and kind.
pub type RegionView = (Seq<char>, u64, u64, MemoryKind);

pub open spec fn region_view(r: MemoryRegion) -> RegionView {
    (r.name@, r.start, r.size, r.kind)
}

pub open spec fn entry_view(e: MemoryMapEntry) -> RegionView {
    (entry_name(e), e.start, entry_size(e), entry_kind(e))
}

pub open spec fn start_key() -> spec_fn(RegionView) -> int {
    |v: RegionView| v.1 as int
}

fn region_from_entry(e: &MemoryMapEntry) -> (r: MemoryRegion)
    ensures
        region_view(r) == entry_view(*e),
{
    let kind = match e.class {
        MemoryClass::Ram => MemoryKind::Ram,
        MemoryClass::Nvm => MemoryKind::Flash,
        MemoryClass::Generic => match &e.name {
            Some(n) => {
                let lower = lowercase(n.as_str());
                if contains_text(lower.as_str(), "ram") {
                    MemoryKind::Ram
                } else {
                    MemoryKind::Flash
                }
            },
            None => MemoryKind::Flash,
        },
    };
    let name = match &e.name {
        Some(n) => n.clone(),
        None => match e.class {
            MemoryClass::Ram => String::from_str("RAM"),
            MemoryClass::Nvm => String::from_str("FLASH"),
            MemoryClass::Generic => String::from_str("GENERIC"),
        },
    };
    let size = if e.end >= e.start {
        e.end - e.start
    } else {
        0
    };
    MemoryRegion { name, start: e.start, size, kind }
}

/// The regions of a target's memory map: one per entry, named and classified,
/// sorted by start address with ties in map order. An empty map is refused.
pub fn regions_from_memory_map(target_name: &str, entries: &Vec<MemoryMapEntry>) -> (r: Result<
    Vec<MemoryRegion>,
    CatalogError,
>)
    ensures
        entries@.len() == 0 <==> r is Err,
        match r {
            Ok(v) => v@.map_values(|x: MemoryRegion| region_view(x)) == sort_stably(
                entries@.map_values(|e: MemoryMapEntry| entry_view(e)),
                start_key(),
            ) && ascending(v@.map_values(|x: MemoryRegion| region_view(x)), start_key()),
            Err(e) => e == CatalogError::EmptyMemoryMap(e->EmptyMemoryMap_0) && e->EmptyMemoryMap_0@ == target_name@,
        },
{
    let ghost views = entries@.map_values(|e: MemoryMapEntry| entry_view(e));
    if entries.len() == 0 {
        return Err(CatalogError::EmptyMemoryMap(String::from_str(target_name)));
    }
    let mut out: Vec<MemoryRegion> = Vec::new();
    let mut i: usize = 0;
    while i < entries.len()
        invariant
            i <= entries@.len(),
            views == entries@.map_values(|e: MemoryMapEntry| entry_view(e)),
            out@.map_values(|x: MemoryRegion| region_view(x)) == sort_stably(views.subrange(0, i as int), start_key()),
        decreases entries.len() - i,
    {
        let region = region_from_entry(&entries[i]);
        let ghost before = out@.map_values(|x: MemoryRegion| region_view(x));
        let mut p: usize = 0;
        while p < out.len() && out[p].start <= region.start
            invariant
                p <= out@.len(),
                before == out@.map_values(|x: MemoryRegion| region_view(x)),
                insertion_point(before, start_key(), region.start as int, 0) == insertion_point(before, start_key(), region.start as int, p as int),
            decreases out.len() - p,
        {
            p += 1;
        }
        let ghost rv = region_view(region);
        out.insert(p, region);
        proof {
            let prefix = views.subrange(0, i + 1);
            assert(prefix.drop_last() =~= views.subrange(0, i as int));
            assert(prefix.last() == rv);
            assert(out@.map_values(|x: MemoryRegion| region_view(x)) =~= before.insert(p as int, rv));
        }
        i += 1;
    }
    proof {
        assert(views.subrange(0, entries@.len() as int) =~= views);
        sort_stably_ascends(views, start_key());
    }
    Ok(out)
}

} // verus!
