use vstd::prelude::*;

verus! {

/// The half-open range `[start, start + size)` holds `[address, address + size)`.
pub open spec fn range_holds(start: int, size: int, address: int, len: int) -> bool {
    start <= address && address + len <= start + size
}

/// The half-open ranges `[a, a + asz)` and `[b, b + bsz)` share at least one point.
pub open spec fn ranges_meet(a: int, asz: int, b: int, bsz: int) -> bool {
    !(a + asz <= b || a >= b + bsz)
}

/// The text of each string, in order.
pub open spec fn texts(v: Seq<String>) -> Seq<Seq<char>> {
    v.map_values(|s: String| s@)
}

#[derive(Clone, Debug)]
pub struct MemoryRegion {
    pub name: String,
    pub start: u64,
    pub size: u64,
    pub kind: MemoryKind,
}

#[derive(Clone, Copy, Debug, PartialEq, Eq, Structural)]
pub enum MemoryKind {
    Flash,
    Ram,
}

#[derive(Clone, Debug)]
pub struct MemorySegment {
    pub name: String,
    pub address: u64,
    pub size: u64,
    pub flags: String,
    pub is_load: bool,
    pub conflicts: Vec<String>,
}

#[derive(Clone, Debug)]
pub struct ElfSymbol {
    pub name: String,
    pub address: u64,
    pub size: u64,
}

#[derive(Clone, Debug)]
pub struct DefmtInfo {
    pub present: bool,
    /// Name and size of each section that carries deferred-format data.
    pub sections: Vec<(String, u64)>,
}

#[derive(Clone, Debug)]
pub struct RttBufferDesc {
    pub name: String,
    pub buffer_address: u64,
    pub size: u32,
}

#[derive(Clone, Debug)]
pub struct RttInfo {
    pub present: bool,
    pub symbol_name: Option<String>,
    pub address: Option<u64>,
    pub size: Option<u64>,
    pub max_up_buffers: Option<u32>,
    pub max_down_buffers: Option<u32>,
    pub up_buffers: Vec<RttBufferDesc>,
    pub down_buffers: Vec<RttBufferDesc>,
}

/// One node of the debug-information symbol tree.
#[derive(Debug)]
pub struct DwarfSymbol {
    /// Position of the node in the pre-order walk of the whole parse.
    pub id: usize,
    /// Symbol name, demangled where a demangler accepts it.
    pub name: String,
    pub tag: DwarfTag,
    /// Start address, where the entry has one.
    pub address: Option<u64>,
    /// Size in bytes, where it is known.
    pub size: Option<u64>,
    /// Source file path.
    pub file: Option<String>,
    pub line: Option<u32>,
    pub column: Option<u32>,
    /// Name of the entry's type, for variables, parameters and members.
    pub type_label: Option<String>,
    /// Nested scopes, members, parameters and the like.
    pub children: Vec<DwarfSymbol>,
    /// Every attribute of the entry, as (name, formatted value).
    pub attributes: Vec<(String, String)>,
}

/// The kinds of debug-information entry that the tree shows.
#[derive(Clone, Debug)]
pub enum DwarfTag {
    CompileUnit,
    Subprogram,
    Variable,
    FormalParameter,
    LexicalBlock,
    InlinedSubroutine,
    StructureType,
    UnionType,
    EnumerationType,
    Member,
    Typedef,
    Namespace,
    Other(String),
}

pub open spec fn tag_display_name(t: DwarfTag) -> Seq<char> {
    match t {
        DwarfTag::CompileUnit => "Compile Unit"@,
        DwarfTag::Subprogram => "Function"@,
        DwarfTag::Variable => "Variable"@,
        DwarfTag::FormalParameter => "Parameter"@,
        DwarfTag::LexicalBlock => "Block"@,
        DwarfTag::InlinedSubroutine => "Inlined"@,
        DwarfTag::StructureType => "Struct"@,
        DwarfTag::UnionType => "Union"@,
        DwarfTag::EnumerationType => "Enum"@,
        DwarfTag::Member => "Member"@,
        DwarfTag::Typedef => "Typedef"@,
        DwarfTag::Namespace => "Namespace"@,
        DwarfTag::Other(s) => s@,
    }
}

pub open spec fn tag_icon(t: DwarfTag) -> Seq<char> {
    match t {
        DwarfTag::CompileUnit => "📦"@,
        DwarfTag::Subprogram => "ƒ"@,
        DwarfTag::Variable => "𝑥"@,
        DwarfTag::FormalParameter => "→"@,
        DwarfTag::LexicalBlock => "{ }"@,
        DwarfTag::InlinedSubroutine => "⤵"@,
        DwarfTag::StructureType => "◈"@,
        DwarfTag::UnionType => "◇"@,
        DwarfTag::EnumerationType => "▤"@,
        DwarfTag::Member => "•"@,
        DwarfTag::Typedef => "≡"@,
        DwarfTag::Namespace => ":::"@,
        DwarfTag::Other(_) => "?"@,
    }
}

/// Two tags name the same kind; other kinds compare by their text.
pub open spec fn same_tag(a: DwarfTag, b: DwarfTag) -> bool {
    match (a, b) {
        (DwarfTag::Other(x), DwarfTag::Other(y)) => x@ == y@,
        (DwarfTag::Other(_), _) => false,
        (_, DwarfTag::Other(_)) => false,
        _ => a == b,
    }
}

impl PartialEq for DwarfTag {
    fn eq(&self, o: &DwarfTag) -> (r: bool)
        ensures
            r == same_tag(*self, *o),
    {
        match (self, o) {
            (DwarfTag::Other(x), DwarfTag::Other(y)) => x.eq(y),
            (DwarfTag::CompileUnit, DwarfTag::CompileUnit) => true,
            (DwarfTag::Subprogram, DwarfTag::Subprogram) => true,
            (DwarfTag::Variable, DwarfTag::Variable) => true,
            (DwarfTag::FormalParameter, DwarfTag::FormalParameter) => true,
            (DwarfTag::LexicalBlock, DwarfTag::LexicalBlock) => true,
            (DwarfTag::InlinedSubroutine, DwarfTag::InlinedSubroutine) => true,
            (DwarfTag::StructureType, DwarfTag::StructureType) => true,
            (DwarfTag::UnionType, DwarfTag::UnionType) => true,
            (DwarfTag::EnumerationType, DwarfTag::EnumerationType) => true,
            (DwarfTag::Member, DwarfTag::Member) => true,
            (DwarfTag::Typedef, DwarfTag::Typedef) => true,
            (DwarfTag::Namespace, DwarfTag::Namespace) => true,
            _ => false,
        }
    }
}

impl vstd::std_specs::cmp::PartialEqSpecImpl for DwarfTag {
    open spec fn obeys_eq_spec() -> bool {
        true
    }

    open spec fn eq_spec(&self, o: &DwarfTag) -> bool {
        same_tag(*self, *o)
    }
}

impl Eq for DwarfTag {
}

impl DwarfTag {
    /// The kind's label for display; an unlisted kind shows its own text.
    pub fn display_name(&self) -> (r: &str)
        ensures
            r@ == tag_display_name(*self),
    {
        match self {
            DwarfTag::CompileUnit => "Compile Unit",
            DwarfTag::Subprogram => "Function",
            DwarfTag::Variable => "Variable",
            DwarfTag::FormalParameter => "Parameter",
            DwarfTag::LexicalBlock => "Block",
            DwarfTag::InlinedSubroutine => "Inlined",
            DwarfTag::StructureType => "Struct",
            DwarfTag::UnionType => "Union",
            DwarfTag::EnumerationType => "Enum",
            DwarfTag::Member => "Member",
            DwarfTag::Typedef => "Typedef",
            DwarfTag::Namespace => "Namespace",
            DwarfTag::Other(s) => s.as_str(),
        }
    }

    /// A short symbol that marks the kind in a tree view.
    pub fn icon(&self) -> (r: &str)
        ensures
            r@ == tag_icon(*self),
    {
        match self {
            DwarfTag::CompileUnit => "📦",
            DwarfTag::Subprogram => "ƒ",
            DwarfTag::Variable => "𝑥",
            DwarfTag::FormalParameter => "→",
            DwarfTag::LexicalBlock => "{ }",
            DwarfTag::InlinedSubroutine => "⤵",
            DwarfTag::StructureType => "◈",
            DwarfTag::UnionType => "◇",
            DwarfTag::EnumerationType => "▤",
            DwarfTag::Member => "•",
            DwarfTag::Typedef => "≡",
            DwarfTag::Namespace => ":::",
            DwarfTag::Other(_) => "?",
        }
    }
}

/// The debug-information tree of a whole image.
#[derive(Debug)]
pub struct DwarfInfo {
    pub present: bool,
    pub compile_units: Vec<DwarfSymbol>,
    /// Number of nodes over all units, roots included.
    pub total_symbols: usize,
}

impl Default for DwarfInfo {
    fn default() -> (r: Self)
        ensures
            !r.present,
            r.compile_units@.len() == 0,
            r.total_symbols == 0,
    {
        DwarfInfo { present: false, compile_units: Vec::new(), total_symbols: 0 }
    }
}

impl MemoryRegion {
    /// The region holds all of `[address, address + size)`.
    pub fn contains(&self, address: u64, size: u64) -> (r: bool)
        ensures
            r == range_holds(self.start as int, self.size as int, address as int, size as int),
    {
        let end = address as u128 + size as u128;
        let region_end = self.start as u128 + self.size as u128;
        address >= self.start && end <= region_end
    }

    /// The region and `[address, address + size)` share at least one address.
    pub fn overlaps(&self, address: u64, size: u64) -> (r: bool)
        ensures
            r == ranges_meet(address as int, size as int, self.start as int, self.size as int),
    {
        let end = address as u128 + size as u128;
        let region_end = self.start as u128 + self.size as u128;
        !(end <= self.start as u128 || address as u128 >= region_end)
    }
}

} // verus!
