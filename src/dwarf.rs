use vstd::prelude::*;
use vstd::string::*;

use crate::dwarf_attr::attr_text;
use crate::dwarf_attr::demangle_name;
use crate::dwarf_attr::demangled_name;
use crate::dwarf_attr::format_attr_value;
use crate::dwarf_attr::AttrValue;
use crate::dwarf_attr::RefTarget;
use crate::text::chars_of;
use crate::text::concat3;
use crate::types::DwarfInfo;
use crate::types::DwarfSymbol;
use crate::types::DwarfTag;

verus! {

pub const DW_TAG_ENUMERATION_TYPE: u16 = 0x04;
pub const DW_TAG_FORMAL_PARAMETER: u16 = 0x05;
pub const DW_TAG_LEXICAL_BLOCK: u16 = 0x0b;
pub const DW_TAG_MEMBER: u16 = 0x0d;
pub const DW_TAG_COMPILE_UNIT: u16 = 0x11;
pub const DW_TAG_STRUCTURE_TYPE: u16 = 0x13;
pub const DW_TAG_TYPEDEF: u16 = 0x16;
pub const DW_TAG_UNION_TYPE: u16 = 0x17;
pub const DW_TAG_INLINED_SUBROUTINE: u16 = 0x1d;
pub const DW_TAG_ENUMERATOR: u16 = 0x28;
pub const DW_TAG_SUBPROGRAM: u16 = 0x2e;
pub const DW_TAG_VARIABLE: u16 = 0x34;
pub const DW_TAG_NAMESPACE: u16 = 0x39;

pub const DW_AT_NAME: u16 = 0x03;
pub const DW_AT_BYTE_SIZE: u16 = 0x0b;
pub const DW_AT_LOW_PC: u16 = 0x11;
pub const DW_AT_HIGH_PC: u16 = 0x12;
pub const DW_AT_COMP_DIR: u16 = 0x1b;
pub const DW_AT_DECL_COLUMN: u16 = 0x39;
pub const DW_AT_DECL_FILE: u16 = 0x3a;
pub const DW_AT_DECL_LINE: u16 = 0x3b;
pub const DW_AT_TYPE: u16 = 0x49;
pub const DW_AT_LINKAGE_NAME: u16 = 0x6e;

/// One attribute of a debug-information entry.
#[derive(Clone, Debug)]
pub struct AttrRecord {
    /// The attribute's code.
    pub code: u16,
    /// The attribute's standard name, where the code has one.
    pub label: Option<String>,
    pub value: AttrValue,
}

/// One debug-information entry with its attributes, in their order, and the
/// entries nested in it, in their order.
#[derive(Debug)]
pub struct DieRecord {
    /// The entry's tag code.
    pub tag: u16,
    pub attrs: Vec<AttrRecord>,
    pub children: Vec<DieRecord>,
}

/// Index of the first attribute in `attrs[i..]` with code `code`.
pub open spec fn first_attr_from(attrs: Seq<AttrRecord>, code: u16, i: int) -> Option<int>
    decreases attrs.len() - i,
{
    if i < 0 || i >= attrs.len() {
        None
    } else if attrs[i].code == code {
        Some(i)
    } else {
        first_attr_from(attrs, code, i + 1)
    }
}

/// The value of the entry's first attribute with code `code`.
pub open spec fn attr_of(attrs: Seq<AttrRecord>, code: u16) -> Option<AttrValue> {
    match first_attr_from(attrs, code, 0) {
        Some(i) => Some(attrs[i].value),
        None => None,
    }
}

/// The text a string-valued attribute holds, where it could be read.
pub open spec fn string_value(v: AttrValue) -> Option<Seq<char>> {
    match v {
        AttrValue::Text(t) => Some(t@),
        AttrValue::Str(_, _, Some(t)) => Some(t@),
        _ => None,
    }
}

pub open spec fn string_attr(attrs: Seq<AttrRecord>, code: u16) -> Option<Seq<char>> {
    match attr_of(attrs, code) {
        Some(v) => string_value(v),
        None => None,
    }
}

/// An address attribute, given as an address or as an unsigned constant.
pub open spec fn address_attr(attrs: Seq<AttrRecord>, code: u16) -> Option<u64> {
    match attr_of(attrs, code) {
        Some(AttrValue::Addr(a)) => Some(a),
        Some(AttrValue::Udata(a)) => Some(a),
        _ => None,
    }
}

/// An unsigned constant in any of its encodings.
pub open spec fn constant_value(v: AttrValue) -> Option<u64> {
    match v {
        AttrValue::Udata(x) => Some(x),
        AttrValue::Data1(x) => Some(x as u64),
        AttrValue::Data2(x) => Some(x as u64),
        AttrValue::Data4(x) => Some(x as u64),
        AttrValue::Data8(x) => Some(x),
        _ => None,
    }
}

/// The entry's size: its byte-size attribute; else the distance from its low
/// address to its high address, the latter given as an address or as an offset
/// from the low one.
pub open spec fn size_of_entry(attrs: Seq<AttrRecord>) -> Option<u64> {
    let byte_size = match attr_of(attrs, DW_AT_BYTE_SIZE) {
        Some(v) => constant_value(v),
        None => None,
    };
    match byte_size {
        Some(n) => Some(n),
        None => match address_attr(attrs, DW_AT_LOW_PC) {
            None => None,
            Some(low) => match attr_of(attrs, DW_AT_HIGH_PC) {
                Some(AttrValue::Addr(high)) => Some(sub_wrapping(high, low)),
                Some(v) => constant_value(v),
                None => None,
            },
        },
    }
}

pub open spec fn sub_wrapping(a: u64, b: u64) -> u64 {
    if a >= b {
        (a - b) as u64
    } else {
        (a + 0x1_0000_0000_0000_0000 - b) as u64
    }
}

/// The entry's source file: the path of a non-zero file index.
pub open spec fn file_of_entry(attrs: Seq<AttrRecord>) -> Option<Seq<char>> {
    match attr_of(attrs, DW_AT_DECL_FILE) {
        Some(AttrValue::FileIndex(i, Some(p))) => if i > 0 {
            Some(p@)
        } else {
            None
        },
        _ => None,
    }
}

pub open spec fn line_of_entry(attrs: Seq<AttrRecord>) -> Option<u32> {
    match attr_of(attrs, DW_AT_DECL_LINE) {
        Some(AttrValue::Udata(x)) => Some(x as u32),
        Some(AttrValue::Data1(x)) => Some(x as u32),
        Some(AttrValue::Data2(x)) => Some(x as u32),
        Some(AttrValue::Data4(x)) => Some(x),
        _ => None,
    }
}

pub open spec fn column_of_entry(attrs: Seq<AttrRecord>) -> Option<u32> {
    match attr_of(attrs, DW_AT_DECL_COLUMN) {
        Some(AttrValue::Udata(x)) => Some(x as u32),
        Some(AttrValue::Data1(x)) => Some(x as u32),
        Some(AttrValue::Data2(x)) => Some(x as u32),
        _ => None,
    }
}

/// The plain name of the entry that the type attribute refers to.
pub open spec fn type_label_of_entry(attrs: Seq<AttrRecord>) -> Option<Seq<char>> {
    match attr_of(attrs, DW_AT_TYPE) {
        Some(AttrValue::UnitRef(_, RefTarget::Entry(Some(n), _))) => Some(n@),
        _ => None,
    }
}

/// The node kind of a tag that the tree keeps.
pub open spec fn kept_tag(tag: u16) -> Option<DwarfTag> {
    if tag == DW_TAG_SUBPROGRAM {
        Some(DwarfTag::Subprogram)
    } else if tag == DW_TAG_VARIABLE {
        Some(DwarfTag::Variable)
    } else if tag == DW_TAG_FORMAL_PARAMETER {
        Some(DwarfTag::FormalParameter)
    } else if tag == DW_TAG_LEXICAL_BLOCK {
        Some(DwarfTag::LexicalBlock)
    } else if tag == DW_TAG_INLINED_SUBROUTINE {
        Some(DwarfTag::InlinedSubroutine)
    } else if tag == DW_TAG_STRUCTURE_TYPE {
        Some(DwarfTag::StructureType)
    } else if tag == DW_TAG_UNION_TYPE {
        Some(DwarfTag::UnionType)
    } else if tag == DW_TAG_ENUMERATION_TYPE {
        Some(DwarfTag::EnumerationType)
    } else if tag == DW_TAG_MEMBER || tag == DW_TAG_ENUMERATOR {
        Some(DwarfTag::Member)
    } else if tag == DW_TAG_TYPEDEF {
        Some(DwarfTag::Typedef)
    } else if tag == DW_TAG_NAMESPACE {
        Some(DwarfTag::Namespace)
    } else {
        None
    }
}

/// The node's name: its linkage name, else its plain name, demangled; else a
/// stand-in for its kind.
pub open spec fn name_of_entry(attrs: Seq<AttrRecord>, tag: DwarfTag) -> Seq<char> {
    match string_attr(attrs, DW_AT_LINKAGE_NAME) {
        Some(n) => demangled_name(n),
        None => match string_attr(attrs, DW_AT_NAME) {
            Some(n) => demangled_name(n),
            None => match tag {
                DwarfTag::LexicalBlock => "<block>"@,
                DwarfTag::InlinedSubroutine => "<inlined>"@,
                _ => "<anonymous>"@,
            },
        },
    }
}

pub open spec fn attr_label(a: AttrRecord) -> Seq<char> {
    match a.label {
        Some(l) => l@,
        None => "Unknown"@,
    }
}

/// Every attribute of the entry as (name, text), in order.
pub open spec fn attr_pairs(attrs: Seq<AttrRecord>) -> Seq<(Seq<char>, Seq<char>)> {
    attrs.map_values(|a: AttrRecord| (attr_label(a), attr_text(a.value)))
}

pub open spec fn opt_text(o: Option<String>) -> Option<Seq<char>> {
    match o {
        Some(s) => Some(s@),
        None => None,
    }
}

fn find_attr(attrs: &Vec<AttrRecord>, code: u16) -> (r: Option<usize>)
    ensures
        match r {
            Some(i) => i < attrs@.len() && first_attr_from(attrs@, code, 0) == Some(i as int),
            None => first_attr_from(attrs@, code, 0) is None,
        },
{
    let mut i: usize = 0;
    while i < attrs.len()
        invariant
            i <= attrs@.len(),
            first_attr_from(attrs@, code, 0) == first_attr_from(attrs@, code, i as int),
        decreases attrs.len() - i,
    {
        if attrs[i].code == code {
            return Some(i);
        }
        i += 1;
    }
    None
}

fn get_string_attr(attrs: &Vec<AttrRecord>, code: u16) -> (r: Option<String>)
    ensures
        opt_text(r) == string_attr(attrs@, code),
{
    match find_attr(attrs, code) {
        None => None,
        Some(i) => match &attrs[i].value {
            AttrValue::Text(t) => Some(t.clone()),
            AttrValue::Str(_, _, Some(t)) => Some(t.clone()),
            _ => None,
        },
    }
}

fn get_address_attr(attrs: &Vec<AttrRecord>, code: u16) -> (r: Option<u64>)
    ensures
        r == address_attr(attrs@, code),
{
    match find_attr(attrs, code) {
        None => None,
        Some(i) => match &attrs[i].value {
            AttrValue::Addr(a) => Some(*a),
            AttrValue::Udata(a) => Some(*a),
            _ => None,
        },
    }
}

fn constant_value_exec(v: &AttrValue) -> (r: Option<u64>)
    ensures
        r == constant_value(*v),
{
    match v {
        AttrValue::Udata(x) => Some(*x),
        AttrValue::Data1(x) => Some(*x as u64),
        AttrValue::Data2(x) => Some(*x as u64),
        AttrValue::Data4(x) => Some(*x as u64),
        AttrValue::Data8(x) => Some(*x),
        _ => None,
    }
}

/// The size of an entry: its byte-size attribute in any constant encoding;
/// else high address minus low address, where the high address may be given
/// as an address or as an offset from the low one; else none.
pub fn get_size(attrs: &Vec<AttrRecord>) -> (r: Option<u64>)
    ensures
        r == size_of_entry(attrs@),
{
    match find_attr(attrs, DW_AT_BYTE_SIZE) {
        Some(i) => match constant_value_exec(&attrs[i].value) {
            Some(n) => {
                return Some(n);
            },
            None => {},
        },
        None => {},
    }
    let low = match get_address_attr(attrs, DW_AT_LOW_PC) {
        Some(a) => a,
        None => {
            return None;
        },
    };
    match find_attr(attrs, DW_AT_HIGH_PC) {
        None => None,
        Some(i) => match &attrs[i].value {
            AttrValue::Addr(high) => Some(high.wrapping_sub(low)),
            v => constant_value_exec(v),
        },
    }
}

/// The source file, line and column of an entry.
pub fn get_file_line_info(attrs: &Vec<AttrRecord>) -> (r: (Option<String>, Option<u32>, Option<u32>))
    ensures
        opt_text(r.0) == file_of_entry(attrs@),
        r.1 == line_of_entry(attrs@),
        r.2 == column_of_entry(attrs@),
{
    let file = match find_attr(attrs, DW_AT_DECL_FILE) {
        Some(i) => match &attrs[i].value {
            AttrValue::FileIndex(idx, Some(p)) => if *idx > 0 {
                Some(p.clone())
            } else {
                None
            },
            _ => None,
        },
        None => None,
    };
    let line = match find_attr(attrs, DW_AT_DECL_LINE) {
        Some(i) => match &attrs[i].value {
            AttrValue::Udata(x) => Some(*x as u32),
            AttrValue::Data1(x) => Some(*x as u32),
            AttrValue::Data2(x) => Some(*x as u32),
            AttrValue::Data4(x) => Some(*x),
            _ => None,
        },
        None => None,
    };
    let column = match find_attr(attrs, DW_AT_DECL_COLUMN) {
        Some(i) => match &attrs[i].value {
            AttrValue::Udata(x) => Some(*x as u32),
            AttrValue::Data1(x) => Some(*x as u32),
            AttrValue::Data2(x) => Some(*x as u32),
            _ => None,
        },
        None => None,
    };
    (file, line, column)
}

/// The plain name of the entry that the type attribute refers to.
pub fn get_type_name(attrs: &Vec<AttrRecord>) -> (r: Option<String>)
    ensures
        opt_text(r) == type_label_of_entry(attrs@),
{
    match find_attr(attrs, DW_AT_TYPE) {
        Some(i) => match &attrs[i].value {
            AttrValue::UnitRef(_, RefTarget::Entry(Some(n), _)) => Some(n.clone()),
            _ => None,
        },
        None => None,
    }
}

fn kept_tag_exec(tag: u16) -> (r: Option<DwarfTag>)
    ensures
        r == kept_tag(tag),
{
    if tag == DW_TAG_SUBPROGRAM {
        Some(DwarfTag::Subprogram)
    } else if tag == DW_TAG_VARIABLE {
        Some(DwarfTag::Variable)
    } else if tag == DW_TAG_FORMAL_PARAMETER {
        Some(DwarfTag::FormalParameter)
    } else if tag == DW_TAG_LEXICAL_BLOCK {
        Some(DwarfTag::LexicalBlock)
    } else if tag == DW_TAG_INLINED_SUBROUTINE {
        Some(DwarfTag::InlinedSubroutine)
    } else if tag == DW_TAG_STRUCTURE_TYPE {
        Some(DwarfTag::StructureType)
    } else if tag == DW_TAG_UNION_TYPE {
        Some(DwarfTag::UnionType)
    } else if tag == DW_TAG_ENUMERATION_TYPE {
        Some(DwarfTag::EnumerationType)
    } else if tag == DW_TAG_MEMBER || tag == DW_TAG_ENUMERATOR {
        Some(DwarfTag::Member)
    } else if tag == DW_TAG_TYPEDEF {
        Some(DwarfTag::Typedef)
    } else if tag == DW_TAG_NAMESPACE {
        Some(DwarfTag::Namespace)
    } else {
        None
    }
}

fn entry_name(attrs: &Vec<AttrRecord>, tag: &DwarfTag) -> (r: String)
    ensures
        r@ == name_of_entry(attrs@, *tag),
{
    match get_string_attr(attrs, DW_AT_LINKAGE_NAME) {
        Some(n) => demangle_name(n.as_str()),
        None => match get_string_attr(attrs, DW_AT_NAME) {
            Some(n) => demangle_name(n.as_str()),
            None => match tag {
                DwarfTag::LexicalBlock => String::from_str("<block>"),
                DwarfTag::InlinedSubroutine => String::from_str("<inlined>"),
                _ => String::from_str("<anonymous>"),
            },
        },
    }
}

fn attribute_pairs(attrs: &Vec<AttrRecord>) -> (r: Vec<(String, String)>)
    ensures
        r@.map_values(|p: (String, String)| (p.0@, p.1@)) == attr_pairs(attrs@),
{
    let mut out: Vec<(String, String)> = Vec::new();
    let mut i: usize = 0;
    while i < attrs.len()
        invariant
            i <= attrs@.len(),
            out@.map_values(|p: (String, String)| (p.0@, p.1@)) == attr_pairs(attrs@.subrange(0, i as int)),
        decreases attrs.len() - i,
    {
        let a = &attrs[i];
        let label = match &a.label {
            Some(l) => l.clone(),
            None => String::from_str("Unknown"),
        };
        let text = format_attr_value(&a.value);
        let ghost before = out@.map_values(|p: (String, String)| (p.0@, p.1@));
        assert(label@ == attr_label(*a));
        assert(text@ == attr_text(a.value));
        out.push((label, text));
        proof {
            assert(attrs@.subrange(0, i + 1)[i as int] == *a);
            assert(out@.map_values(|p: (String, String)| (p.0@, p.1@)) =~= before.push((attr_label(*a), attr_text(a.value))));
            assert(out@.map_values(|p: (String, String)| (p.0@, p.1@)) =~= attr_pairs(attrs@.subrange(0, i + 1)));
        }
        i += 1;
    }
    proof {
        assert(attrs@.subrange(0, attrs@.len() as int) =~= attrs@);
    }
    out
}

/// A node of the symbol tree as values.
pub struct NodeView {
    pub id: int,
    pub name: Seq<char>,
    pub tag: DwarfTag,
    pub address: Option<u64>,
    pub size: Option<u64>,
    pub file: Option<Seq<char>>,
    pub line: Option<u32>,
    pub column: Option<u32>,
    pub type_label: Option<Seq<char>>,
    pub children: Seq<NodeView>,
    pub attributes: Seq<(Seq<char>, Seq<char>)>,
}

pub open spec fn node_view(s: DwarfSymbol) -> NodeView
    decreases s, s.children@.len() + 1,
{
    NodeView {
        id: s.id as int,
        name: s.name@,
        tag: s.tag,
        address: s.address,
        size: s.size,
        file: opt_text(s.file),
        line: s.line,
        column: s.column,
        type_label: opt_text(s.type_label),
        children: child_views(s, s.children@.len() as int),
        attributes: s.attributes@.map_values(|p: (String, String)| (p.0@, p.1@)),
    }
}

/// The views of the first `k` children of `s`.
pub open spec fn child_views(s: DwarfSymbol, k: int) -> Seq<NodeView>
    decreases s, if k > 0 { k } else { 0 },
{
    if k <= 0 || k > s.children@.len() {
        seq![]
    } else {
        proof {
            assert(decreases_to!(s => s.children@[k - 1]));
        }
        child_views(s, k - 1).push(node_view(s.children@[k - 1]))
    }
}

fn copy_tag(t: &DwarfTag) -> (r: DwarfTag)
    ensures
        r == *t,
{
    match t {
        DwarfTag::CompileUnit => DwarfTag::CompileUnit,
        DwarfTag::Subprogram => DwarfTag::Subprogram,
        DwarfTag::Variable => DwarfTag::Variable,
        DwarfTag::FormalParameter => DwarfTag::FormalParameter,
        DwarfTag::LexicalBlock => DwarfTag::LexicalBlock,
        DwarfTag::InlinedSubroutine => DwarfTag::InlinedSubroutine,
        DwarfTag::StructureType => DwarfTag::StructureType,
        DwarfTag::UnionType => DwarfTag::UnionType,
        DwarfTag::EnumerationType => DwarfTag::EnumerationType,
        DwarfTag::Member => DwarfTag::Member,
        DwarfTag::Typedef => DwarfTag::Typedef,
        DwarfTag::Namespace => DwarfTag::Namespace,
        DwarfTag::Other(s) => DwarfTag::Other(s.clone()),
    }
}

fn copy_text(o: &Option<String>) -> (r: Option<String>)
    ensures
        r == *o,
{
    match o {
        Some(s) => Some(s.clone()),
        None => None,
    }
}

/// A deep copy of a node and everything below it.
pub fn copy_symbol(s: &DwarfSymbol) -> (r: DwarfSymbol)
    ensures
        node_view(r) == node_view(*s),
    decreases s,
{
    let mut children: Vec<DwarfSymbol> = Vec::new();
    let mut i: usize = 0;
    while i < s.children.len()
        invariant
            i <= s.children@.len(),
            node_views(children@) == node_views(s.children@.subrange(0, i as int)),
        decreases s.children@.len() - i,
    {
        proof {
            assert(decreases_to!(s => s.children@[i as int]));
        }
        let c = copy_symbol(&s.children[i]);
        let ghost before = node_views(children@);
        children.push(c);
        proof {
            assert(node_views(children@) =~= before.push(node_view(c)));
            assert(node_views(s.children@.subrange(0, i + 1)) =~= node_views(s.children@.subrange(0, i as int)).push(
                node_view(s.children@[i as int]),
            ));
        }
        i += 1;
    }
    let mut attributes: Vec<(String, String)> = Vec::new();
    let mut k: usize = 0;
    while k < s.attributes.len()
        invariant
            k <= s.attributes@.len(),
            attributes@.map_values(|p: (String, String)| (p.0@, p.1@)) == s.attributes@.subrange(
                0,
                k as int,
            ).map_values(|p: (String, String)| (p.0@, p.1@)),
        decreases s.attributes@.len() - k,
    {
        let pair = &s.attributes[k];
        let ghost before = attributes@.map_values(|p: (String, String)| (p.0@, p.1@));
        attributes.push((pair.0.clone(), pair.1.clone()));
        proof {
            assert(attributes@.map_values(|p: (String, String)| (p.0@, p.1@)) =~= before.push((pair.0@, pair.1@)));
            assert(attributes@.map_values(|p: (String, String)| (p.0@, p.1@)) =~= s.attributes@.subrange(
                0,
                k + 1,
            ).map_values(|p: (String, String)| (p.0@, p.1@)));
        }
        k += 1;
    }
    let r = DwarfSymbol {
        id: s.id,
        name: s.name.clone(),
        tag: copy_tag(&s.tag),
        address: s.address,
        size: s.size,
        file: copy_text(&s.file),
        line: s.line,
        column: s.column,
        type_label: copy_text(&s.type_label),
        children,
        attributes,
    };
    proof {
        assert(s.children@.subrange(0, s.children@.len() as int) =~= s.children@);
        assert(s.attributes@.subrange(0, s.attributes@.len() as int) =~= s.attributes@);
        lemma_children_of(r);
        lemma_children_of(*s);
        assert(node_view(r) == node_view(*s));
    }
    r
}

impl Clone for DwarfSymbol {
    fn clone(&self) -> (r: Self)
        ensures
            node_view(r) == node_view(*self),
    {
        copy_symbol(self)
    }
}

impl Clone for DwarfInfo {
    fn clone(&self) -> (r: Self)
        ensures
            r.present == self.present,
            r.total_symbols == self.total_symbols,
            node_views(r.compile_units@) == node_views(self.compile_units@),
    {
        let mut units: Vec<DwarfSymbol> = Vec::new();
        let mut i: usize = 0;
        while i < self.compile_units.len()
            invariant
                i <= self.compile_units@.len(),
                node_views(units@) == node_views(self.compile_units@.subrange(0, i as int)),
            decreases self.compile_units@.len() - i,
        {
            let c = copy_symbol(&self.compile_units[i]);
            let ghost before = node_views(units@);
            units.push(c);
            proof {
                assert(node_views(units@) =~= before.push(node_view(c)));
                assert(node_views(self.compile_units@.subrange(0, i + 1)) =~= node_views(
                    self.compile_units@.subrange(0, i as int),
                ).push(node_view(self.compile_units@[i as int])));
            }
            i += 1;
        }
        proof {
            assert(self.compile_units@.subrange(0, self.compile_units@.len() as int) =~= self.compile_units@);
        }
        DwarfInfo { present: self.present, compile_units: units, total_symbols: self.total_symbols }
    }
}

pub open spec fn node_views(v: Seq<DwarfSymbol>) -> Seq<NodeView> {
    v.map_values(|s: DwarfSymbol| node_view(s))
}


/// Number of nodes that entry `d` gives: none for a dropped tag (its nested
/// entries are dropped with it), else one plus those of its nested entries.
pub open spec fn kept_count(d: DieRecord) -> nat
    decreases d, d.children@.len() + 1,
{
    match kept_tag(d.tag) {
        Some(_) => 1 + kept_before(d, d.children@.len() as int),
        None => 0,
    }
}

/// Number of nodes that the first `k` nested entries of `d` give.
pub open spec fn kept_before(d: DieRecord, k: int) -> nat
    decreases d, if k > 0 { k } else { 0 },
{
    if k <= 0 || k > d.children@.len() {
        0
    } else {
        proof {
            assert(decreases_to!(d => d.children@[k - 1]));
        }
        kept_before(d, k - 1) + kept_count(d.children@[k - 1])
    }
}

/// Order rank of a node kind among its siblings.
pub open spec fn tag_rank(t: DwarfTag) -> int {
    match t {
        DwarfTag::Subprogram => 0,
        DwarfTag::Variable => 1,
        DwarfTag::StructureType => 2,
        DwarfTag::UnionType => 2,
        DwarfTag::EnumerationType => 2,
        DwarfTag::Typedef => 3,
        DwarfTag::Namespace => 4,
        _ => 5,
    }
}

/// `a` is at most `b` in code-point lexicographic order.
pub open spec fn text_le(a: Seq<char>, b: Seq<char>) -> bool
    decreases a.len(),
{
    if a.len() == 0 {
        true
    } else if b.len() == 0 {
        false
    } else if a[0] != b[0] {
        (a[0] as u32) < (b[0] as u32)
    } else {
        text_le(a.drop_first(), b.drop_first())
    }
}

/// Sibling order: by kind rank; within a rank, nodes with an address first, by
/// address; then the others by name.
pub open spec fn node_le(a: NodeView, b: NodeView) -> bool {
    if tag_rank(a.tag) != tag_rank(b.tag) {
        tag_rank(a.tag) < tag_rank(b.tag)
    } else {
        match (a.address, b.address) {
            (Some(x), Some(y)) => x <= y,
            (Some(_), None) => true,
            (None, Some(_)) => false,
            (None, None) => text_le(a.name, b.name),
        }
    }
}

/// Where `x` goes into `s`: after every leading node at most `x`.
pub open spec fn sort_point(s: Seq<NodeView>, x: NodeView, p: int) -> int
    decreases s.len() - p,
{
    if p < 0 || p >= s.len() || !node_le(s[p], x) {
        p
    } else {
        sort_point(s, x, p + 1)
    }
}

/// `s` in sibling order, nodes that compare equal kept in their order in `s`.
pub open spec fn sort_nodes(s: Seq<NodeView>) -> Seq<NodeView>
    decreases s.len(),
{
    if s.len() == 0 {
        seq![]
    } else {
        let t = sort_nodes(s.drop_last());
        t.insert(sort_point(t, s.last(), 0), s.last())
    }
}

/// The node that entry `d` gives when numbered from `id`, where its tag is kept.
pub open spec fn built_node(d: DieRecord, id: int) -> Option<NodeView>
    decreases d, d.children@.len() + 1,
{
    match kept_tag(d.tag) {
        None => None,
        Some(t) => Some(
            NodeView {
                id,
                name: name_of_entry(d.attrs@, t),
                tag: t,
                address: address_attr(d.attrs@, DW_AT_LOW_PC),
                size: size_of_entry(d.attrs@),
                file: file_of_entry(d.attrs@),
                line: line_of_entry(d.attrs@),
                column: column_of_entry(d.attrs@),
                type_label: type_label_of_entry(d.attrs@),
                children: sort_nodes(built_children(d, d.children@.len() as int, id + 1)),
                attributes: attr_pairs(d.attrs@),
            },
        ),
    }
}

/// The nodes that the first `k` nested entries of `d` give, in entry order,
/// numbered in pre-order from `id`.
pub open spec fn built_children(d: DieRecord, k: int, id: int) -> Seq<NodeView>
    decreases d, if k > 0 { k } else { 0 },
{
    if k <= 0 || k > d.children@.len() {
        seq![]
    } else {
        proof {
            assert(decreases_to!(d => d.children@[k - 1]));
        }
        let prev = built_children(d, k - 1, id);
        match built_node(d.children@[k - 1], id + kept_before(d, k - 1)) {
            Some(n) => prev.push(n),
            None => prev,
        }
    }
}


proof fn lemma_child_views(s: DwarfSymbol, k: int)
    requires
        0 <= k <= s.children@.len(),
    ensures
        child_views(s, k) == node_views(s.children@.subrange(0, k)),
    decreases k,
{
    if k > 0 {
        lemma_child_views(s, k - 1);
        assert(node_views(s.children@.subrange(0, k)) =~= node_views(s.children@.subrange(0, k - 1)).push(
            node_view(s.children@[k - 1]),
        ));
    } else {
        assert(node_views(s.children@.subrange(0, 0)) =~= Seq::<NodeView>::empty());
    }
}

proof fn lemma_children_of(s: DwarfSymbol)
    ensures
        node_view(s).children == node_views(s.children@),
{
    lemma_child_views(s, s.children@.len() as int);
    assert(s.children@.subrange(0, s.children@.len() as int) =~= s.children@);
}

proof fn lemma_kept_before_grows(d: DieRecord, j: int, k: int)
    requires
        0 <= j <= k <= d.children@.len(),
    ensures
        kept_before(d, j) <= kept_before(d, k),
    decreases k - j,
{
    if j < k {
        lemma_kept_before_grows(d, j, k - 1);
    }
}

fn text_le_exec(a: &str, b: &str) -> (r: bool)
    ensures
        r == text_le(a@, b@),
{
    let x = chars_of(a);
    let y = chars_of(b);
    let mut i: usize = 0;
    proof {
        assert(a@.subrange(0, a@.len() as int) =~= a@);
        assert(b@.subrange(0, b@.len() as int) =~= b@);
    }
    loop
        invariant
            x@ == a@,
            y@ == b@,
            i <= x@.len(),
            i <= y@.len(),
            text_le(a@, b@) == text_le(a@.subrange(i as int, a@.len() as int), b@.subrange(i as int, b@.len() as int)),
        decreases x@.len() - i,
    {
        let ghost sa = a@.subrange(i as int, a@.len() as int);
        let ghost sb = b@.subrange(i as int, b@.len() as int);
        if i == x.len() {
            return true;
        }
        if i == y.len() {
            return false;
        }
        if x[i] != y[i] {
            proof {
                assert(sa[0] == x@[i as int]);
                assert(sb[0] == y@[i as int]);
            }
            return (x[i] as u32) < (y[i] as u32);
        }
        proof {
            assert(sa.drop_first() =~= a@.subrange(i + 1, a@.len() as int));
            assert(sb.drop_first() =~= b@.subrange(i + 1, b@.len() as int));
        }
        i += 1;
    }
}

fn tag_rank_exec(t: &DwarfTag) -> (r: u8)
    ensures
        r as int == tag_rank(*t),
{
    match t {
        DwarfTag::Subprogram => 0,
        DwarfTag::Variable => 1,
        DwarfTag::StructureType => 2,
        DwarfTag::UnionType => 2,
        DwarfTag::EnumerationType => 2,
        DwarfTag::Typedef => 3,
        DwarfTag::Namespace => 4,
        _ => 5,
    }
}

fn symbol_le(a: &DwarfSymbol, b: &DwarfSymbol) -> (r: bool)
    ensures
        r == node_le(node_view(*a), node_view(*b)),
{
    let ra = tag_rank_exec(&a.tag);
    let rb = tag_rank_exec(&b.tag);
    if ra != rb {
        return ra < rb;
    }
    match (a.address, b.address) {
        (Some(x), Some(y)) => x <= y,
        (Some(_), None) => true,
        (None, Some(_)) => false,
        (None, None) => text_le_exec(a.name.as_str(), b.name.as_str()),
    }
}

/// Sorts sibling nodes: functions, variables, composite types, typedefs,
/// namespaces, then the rest; within a kind, nodes with an address by address
/// before the others by name. Nodes that compare equal keep their order.
pub fn sort_symbols(v: Vec<DwarfSymbol>) -> (r: Vec<DwarfSymbol>)
    ensures
        node_views(r@) == sort_nodes(node_views(v@)),
{
    let ghost orig = node_views(v@);
    let ghost n = v@.len();
    let _ = v.len();
    let mut rest = v;
    let mut out: Vec<DwarfSymbol> = Vec::new();
    let mut taken: usize = 0;
    proof {
        assert(node_views(rest@) =~= orig.subrange(0, n as int));
    }
    while rest.len() > 0
        invariant
            taken + rest@.len() == n,
            n <= usize::MAX,
            orig.len() == n,
            node_views(rest@) == orig.subrange(taken as int, n as int),
            node_views(out@) == sort_nodes(orig.subrange(0, taken as int)),
        decreases rest@.len(),
    {
        let ghost old_rest = rest@;
        let x = rest.remove(0);
        let ghost xv = node_view(x);
        let ghost before = node_views(out@);
        proof {
            assert(node_views(old_rest)[0] == xv);
            assert(orig.subrange(taken as int, n as int)[0] == xv);
            assert(rest@ =~= old_rest.subrange(1, old_rest.len() as int));
            assert forall|k: int| 0 <= k < rest@.len() implies node_views(rest@)[k] == orig.subrange(
                taken + 1,
                n as int,
            )[k] by {
                assert(rest@[k] == old_rest[k + 1]);
                assert(node_views(old_rest)[k + 1] == orig.subrange(taken as int, n as int)[k + 1]);
            }
            assert(node_views(rest@) =~= orig.subrange(taken + 1, n as int));
        }
        let mut p: usize = 0;
        while p < out.len() && symbol_le(&out[p], &x)
            invariant
                p <= out@.len(),
                before == node_views(out@),
                xv == node_view(x),
                sort_point(before, xv, 0) == sort_point(before, xv, p as int),
            decreases out.len() - p,
        {
            p += 1;
        }
        out.insert(p, x);
        proof {
            let pre = orig.subrange(0, taken + 1);
            assert(pre.drop_last() =~= orig.subrange(0, taken as int));
            assert(pre.last() == xv);
            assert(node_views(out@) =~= before.insert(p as int, xv));
        }
        taken += 1;
    }
    proof {
        assert(orig.subrange(0, n as int) =~= orig);
    }
    out
}

/// The node of entry `d`, numbered from `*next` in pre-order, with the nodes of
/// its nested entries below it in sibling order; `None` where the tag is one
/// the tree does not keep, in which case nested entries are dropped too.
fn parse_die_recursive(d: &DieRecord, next: &mut usize) -> (r: Option<DwarfSymbol>)
    requires
        *old(next) + kept_count(*d) <= usize::MAX,
    ensures
        *final(next) == *old(next) + kept_count(*d),
        match r {
            Some(s) => built_node(*d, *old(next) as int) == Some(node_view(s)),
            None => built_node(*d, *old(next) as int) is None,
        },
    decreases d,
{
    let tag = match kept_tag_exec(d.tag) {
        Some(t) => t,
        None => {
            return None;
        },
    };
    let id = *next;
    *next = id + 1;
    let name = entry_name(&d.attrs, &tag);
    let address = get_address_attr(&d.attrs, DW_AT_LOW_PC);
    let size = get_size(&d.attrs);
    let (file, line, column) = get_file_line_info(&d.attrs);
    let type_label = get_type_name(&d.attrs);
    let attributes = attribute_pairs(&d.attrs);
    let mut built: Vec<DwarfSymbol> = Vec::new();
    let mut k: usize = 0;
    while k < d.children.len()
        invariant
            k <= d.children@.len(),
            kept_tag(d.tag) is Some,
            id + kept_count(*d) <= usize::MAX,
            *next == id + 1 + kept_before(*d, k as int),
            node_views(built@) == built_children(*d, k as int, id + 1),
        decreases d.children@.len() - k,
    {
        proof {
            lemma_kept_before_grows(*d, k + 1, d.children@.len() as int);
            assert(decreases_to!(d => d.children@[k as int]));
        }
        let ghost at = *next;
        let c = parse_die_recursive(&d.children[k], next);
        match c {
            Some(sym) => {
                let ghost bv = node_views(built@);
                built.push(sym);
                proof {
                    assert(node_views(built@) =~= bv.push(node_view(sym)));
                }
            },
            None => {},
        }
        k += 1;
    }
    let children = sort_symbols(built);
    let sym = DwarfSymbol {
        id,
        name,
        tag,
        address,
        size,
        file,
        line,
        column,
        type_label,
        children,
        attributes,
    };
    proof {
        lemma_children_of(sym);
        assert(node_view(sym) == built_node(*d, id as int)->Some_0);
    }
    Some(sym)
}


pub open spec fn unit_name(root: DieRecord) -> Seq<char> {
    match string_attr(root.attrs@, DW_AT_NAME) {
        Some(n) => n,
        None => "<unknown>"@,
    }
}

/// The unit's source path: its compilation directory joined to its name, or
/// its name alone.
pub open spec fn unit_file(root: DieRecord) -> Seq<char> {
    match string_attr(root.attrs@, DW_AT_COMP_DIR) {
        Some(dir) => dir + "/"@ + unit_name(root),
        None => unit_name(root),
    }
}

/// Number of nodes of a unit's tree, its root included.
pub open spec fn unit_count(root: DieRecord) -> nat {
    1 + kept_before(root, root.children@.len() as int)
}

/// The tree of the unit rooted at `root`, numbered from `id`.
pub open spec fn built_unit(root: DieRecord, id: int) -> NodeView {
    NodeView {
        id,
        name: unit_name(root),
        tag: DwarfTag::CompileUnit,
        address: None,
        size: None,
        file: Some(unit_file(root)),
        line: None,
        column: None,
        type_label: None,
        children: sort_nodes(built_children(root, root.children@.len() as int, id + 1)),
        attributes: seq![],
    }
}

/// Number of nodes given by the compilation units among the first `k` roots.
pub open spec fn units_count(units: Seq<DieRecord>, k: int) -> nat
    decreases k,
{
    if k <= 0 || k > units.len() {
        0
    } else {
        units_count(units, k - 1) + if units[k - 1].tag == DW_TAG_COMPILE_UNIT {
            unit_count(units[k - 1])
        } else {
            0
        }
    }
}

/// The trees of the compilation units among the first `k` roots, in order,
/// numbered in one pre-order sequence across them.
pub open spec fn built_units(units: Seq<DieRecord>, k: int) -> Seq<NodeView>
    decreases k,
{
    if k <= 0 || k > units.len() {
        seq![]
    } else {
        let prev = built_units(units, k - 1);
        if units[k - 1].tag == DW_TAG_COMPILE_UNIT {
            prev.push(built_unit(units[k - 1], units_count(units, k - 1) as int))
        } else {
            prev
        }
    }
}

/// The tree of one compilation unit, numbered from `*next`, with its node count.
pub fn parse_compile_unit(root: &DieRecord, next: &mut usize) -> (r: (DwarfSymbol, usize))
    requires
        *old(next) + unit_count(*root) <= usize::MAX,
    ensures
        *final(next) == *old(next) + unit_count(*root),
        node_view(r.0) == built_unit(*root, *old(next) as int),
        r.1 == unit_count(*root),
{
    let name = match get_string_attr(&root.attrs, DW_AT_NAME) {
        Some(n) => n,
        None => String::from_str("<unknown>"),
    };
    let file = match get_string_attr(&root.attrs, DW_AT_COMP_DIR) {
        Some(dir) => concat3(dir.as_str(), "/", name.as_str()),
        None => name.clone(),
    };
    let id = *next;
    *next = id + 1;
    let mut built: Vec<DwarfSymbol> = Vec::new();
    let mut count: usize = 1;
    let mut k: usize = 0;
    while k < root.children.len()
        invariant
            k <= root.children@.len(),
            id + unit_count(*root) <= usize::MAX,
            *next == id + 1 + kept_before(*root, k as int),
            count == 1 + kept_before(*root, k as int),
            node_views(built@) == built_children(*root, k as int, id + 1),
        decreases root.children@.len() - k,
    {
        proof {
            lemma_kept_before_grows(*root, k + 1, root.children@.len() as int);
        }
        let before = *next;
        let c = parse_die_recursive(&root.children[k], next);
        count = count + (*next - before);
        match c {
            Some(sym) => {
                let ghost bv = node_views(built@);
                built.push(sym);
                proof {
                    assert(node_views(built@) =~= bv.push(node_view(sym)));
                }
            },
            None => {},
        }
        k += 1;
    }
    let children = sort_symbols(built);
    let sym = DwarfSymbol {
        id,
        name,
        tag: DwarfTag::CompileUnit,
        address: None,
        size: None,
        file: Some(file),
        line: None,
        column: None,
        type_label: None,
        children,
        attributes: Vec::new(),
    };
    proof {
        lemma_children_of(sym);
        assert(sym.attributes@.map_values(|p: (String, String)| (p.0@, p.1@)) =~= Seq::<
            (Seq<char>, Seq<char>),
        >::empty());
        assert(node_view(sym) == built_unit(*root, id as int));
    }
    (sym, count)
}

/// The symbol trees of every compilation unit among `units`, the roots of the
/// image's units in order; roots of other kinds are passed over. Node ids run
/// in one pre-order sequence across all units.
pub fn build_dwarf_info(units: &Vec<DieRecord>) -> (r: DwarfInfo)
    requires
        units_count(units@, units@.len() as int) <= usize::MAX,
    ensures
        node_views(r.compile_units@) == built_units(units@, units@.len() as int),
        r.total_symbols == units_count(units@, units@.len() as int),
        r.present == (r.compile_units@.len() > 0),
{
    let mut compile_units: Vec<DwarfSymbol> = Vec::new();
    let mut total: usize = 0;
    let mut next: usize = 0;
    let mut i: usize = 0;
    while i < units.len()
        invariant
            i <= units@.len(),
            units_count(units@, units@.len() as int) <= usize::MAX,
            next == units_count(units@, i as int),
            total == next,
            node_views(compile_units@) == built_units(units@, i as int),
        decreases units@.len() - i,
    {
        proof {
            lemma_units_count_grows(units@, i + 1, units@.len() as int);
        }
        let root = &units[i];
        if root.tag == DW_TAG_COMPILE_UNIT {
            let (cu, count) = parse_compile_unit(root, &mut next);
            total = total + count;
            let ghost bv = node_views(compile_units@);
            compile_units.push(cu);
            proof {
                assert(node_views(compile_units@) =~= bv.push(node_view(cu)));
            }
        }
        i += 1;
    }
    let present = compile_units.len() > 0;
    DwarfInfo { present, compile_units, total_symbols: total }
}

fn kept_count_capped(d: &DieRecord) -> (r: Option<usize>)
    ensures
        match r {
            Some(n) => n == kept_count(*d),
            None => kept_count(*d) > usize::MAX,
        },
    decreases d,
{
    match kept_tag_exec(d.tag) {
        None => Some(0),
        Some(_) => {
            let mut total: usize = 1;
            let mut k: usize = 0;
            while k < d.children.len()
                invariant
                    k <= d.children@.len(),
                    kept_tag(d.tag) is Some,
                    total == 1 + kept_before(*d, k as int),
                decreases d.children@.len() - k,
            {
                proof {
                    lemma_kept_before_grows(*d, k + 1, d.children@.len() as int);
                    assert(decreases_to!(d => d.children@[k as int]));
                }
                let c = match kept_count_capped(&d.children[k]) {
                    Some(c) => c,
                    None => {
                        return None;
                    },
                };
                if c > usize::MAX - total {
                    return None;
                }
                total = total + c;
                k += 1;
            }
            Some(total)
        },
    }
}

/// Number of nodes the units' trees have, or `None` where it does not fit a `usize`.
pub fn count_unit_nodes(units: &Vec<DieRecord>) -> (r: Option<usize>)
    ensures
        match r {
            Some(n) => n == units_count(units@, units@.len() as int),
            None => units_count(units@, units@.len() as int) > usize::MAX,
        },
{
    let mut total: usize = 0;
    let mut i: usize = 0;
    while i < units.len()
        invariant
            i <= units@.len(),
            total == units_count(units@, i as int),
        decreases units@.len() - i,
    {
        proof {
            lemma_units_count_grows(units@, i + 1, units@.len() as int);
        }
        let root = &units[i];
        if root.tag == DW_TAG_COMPILE_UNIT {
            let mut unit: usize = 1;
            let mut k: usize = 0;
            while k < root.children.len()
                invariant
                    k <= root.children@.len(),
                    unit == 1 + kept_before(*root, k as int),
                    total == units_count(units@, i as int),
                    units_count(units@, i + 1) == total + unit_count(*root),
                    *root == units@[i as int],
                    units_count(units@, i + 1) <= units_count(units@, units@.len() as int),
                decreases root.children@.len() - k,
            {
                proof {
                    lemma_kept_before_grows(*root, k + 1, root.children@.len() as int);
                }
                let c = match kept_count_capped(&root.children[k]) {
                    Some(c) => c,
                    None => {
                        return None;
                    },
                };
                if c > usize::MAX - unit {
                    return None;
                }
                unit = unit + c;
                k += 1;
            }
            if unit > usize::MAX - total {
                return None;
            }
            total = total + unit;
        }
        i += 1;
    }
    Some(total)
}

/// `r` is what a build from the unit roots `units` gives: the trees, their node
/// count and presence; `None` exactly where the count does not fit a `usize`.
pub open spec fn built_from(units: Seq<DieRecord>, r: Option<DwarfInfo>) -> bool {
    match r {
        Some(info) => {
            &&& units_count(units, units.len() as int) <= usize::MAX
            &&& node_views(info.compile_units@) == built_units(units, units.len() as int)
            &&& info.total_symbols == units_count(units, units.len() as int)
            &&& info.present == (info.compile_units@.len() > 0)
        },
        None => units_count(units, units.len() as int) > usize::MAX,
    }
}

/// The symbol trees of every compilation unit among `units`, as
/// `build_dwarf_info` gives them, or `None` where their node count does not fit
/// a `usize`.
pub fn try_build_dwarf_info(units: &Vec<DieRecord>) -> (r: Option<DwarfInfo>)
    ensures
        built_from(units@, r),
{
    match count_unit_nodes(units) {
        Some(_) => Some(build_dwarf_info(units)),
        None => None,
    }
}

proof fn lemma_units_count_grows(units: Seq<DieRecord>, j: int, k: int)
    requires
        0 <= j <= k <= units.len(),
    ensures
        units_count(units, j) <= units_count(units, k),
    decreases k - j,
{
    if j < k {
        lemma_units_count_grows(units, j, k - 1);
    }
}

/// The ids of `nodes` and of everything below them, in pre-order.
pub open spec fn preorder_ids(nodes: Seq<NodeView>) -> Seq<int>
    decreases nodes,
{
    if nodes.len() == 0 {
        seq![]
    } else {
        proof {
            assert(decreases_to!(nodes => nodes[0]));
        }
        seq![nodes[0].id] + preorder_ids(nodes[0].children) + preorder_ids(nodes.drop_first())
    }
}

/// Building the trees twice from the same entries gives the same outcome: both
/// builds refuse, or both number their nodes alike, with the same ids in the
/// same pre-order.
pub proof fn build_numbering_is_deterministic(
    units: Seq<DieRecord>,
    first: Option<DwarfInfo>,
    second: Option<DwarfInfo>,
)
    requires
        built_from(units, first),
        built_from(units, second),
    ensures
        first is Some <==> second is Some,
        first is Some ==> preorder_ids(node_views(first->Some_0.compile_units@)) == preorder_ids(
            node_views(second->Some_0.compile_units@),
        ),
        first is Some ==> first->Some_0.total_symbols == second->Some_0.total_symbols,
{
}

/// The ids of the nodes of `s` and of everything below them.
pub open spec fn ids_below(s: Seq<NodeView>) -> Set<int>
    decreases s,
{
    if s.len() == 0 {
        Set::empty()
    } else {
        proof {
            assert(decreases_to!(s => s[s.len() - 1]));
        }
        ids_below(s.drop_last()).insert(s.last().id) + ids_below(s.last().children)
    }
}

/// The integers from `lo` up to, not including, `hi`.
pub open spec fn id_range(lo: int, hi: int) -> Set<int> {
    Set::new(|x: int| lo <= x < hi)
}

proof fn lemma_ids_below_insert(t: Seq<NodeView>, p: int, x: NodeView)
    requires
        0 <= p <= t.len(),
    ensures
        ids_below(t.insert(p, x)) == ids_below(t) + ids_below(seq![x]),
    decreases t.len(),
{
    let u = t.insert(p, x);
    assert(seq![x].drop_last() =~= Seq::<NodeView>::empty());
    let one = seq![x];
    assert(ids_below(one) == ids_below(one.drop_last()).insert(one.last().id) + ids_below(one.last().children));
    if p == t.len() {
        assert(u.drop_last() =~= t);
        assert(u.last() == x);
        assert(ids_below(u) == ids_below(u.drop_last()).insert(u.last().id) + ids_below(u.last().children));
        assert(ids_below(u) =~= ids_below(t) + ids_below(seq![x]));
    } else {
        lemma_ids_below_insert(t.drop_last(), p, x);
        assert(u.drop_last() =~= t.drop_last().insert(p, x));
        assert(u.last() == t.last());
        assert(ids_below(u) == ids_below(u.drop_last()).insert(u.last().id) + ids_below(u.last().children));
        assert(ids_below(t) == ids_below(t.drop_last()).insert(t.last().id) + ids_below(t.last().children));
        assert(ids_below(u) =~= ids_below(t) + ids_below(seq![x]));
    }
}

proof fn lemma_ids_below_sorted(s: Seq<NodeView>)
    ensures
        ids_below(sort_nodes(s)) == ids_below(s),
    decreases s.len(),
{
    if s.len() > 0 {
        let t = sort_nodes(s.drop_last());
        lemma_ids_below_sorted(s.drop_last());
        lemma_sort_nodes_len(s.drop_last());
        lemma_sort_point_bounds(t, s.last(), 0);
        lemma_ids_below_insert(t, sort_point(t, s.last(), 0), s.last());
        let one = seq![s.last()];
        assert(one.drop_last() =~= Seq::<NodeView>::empty());
        assert(ids_below(one) == ids_below(one.drop_last()).insert(one.last().id) + ids_below(one.last().children));
        assert(ids_below(s) == ids_below(s.drop_last()).insert(s.last().id) + ids_below(s.last().children));
        assert(ids_below(sort_nodes(s)) =~= ids_below(s));
    }
}

proof fn lemma_sort_nodes_len(s: Seq<NodeView>)
    ensures
        sort_nodes(s).len() == s.len(),
    decreases s.len(),
{
    if s.len() > 0 {
        lemma_sort_nodes_len(s.drop_last());
        lemma_sort_point_bounds(sort_nodes(s.drop_last()), s.last(), 0);
    }
}

proof fn lemma_sort_point_bounds(s: Seq<NodeView>, x: NodeView, p: int)
    requires
        0 <= p <= s.len(),
    ensures
        p <= sort_point(s, x, p) <= s.len(),
    decreases s.len() - p,
{
    if p < s.len() && node_le(s[p], x) {
        lemma_sort_point_bounds(s, x, p + 1);
    }
}

proof fn lemma_built_node_ids(d: DieRecord, id: int)
    requires
        kept_tag(d.tag) is Some,
    ensures
        built_node(d, id) is Some,
        ids_below(seq![built_node(d, id)->Some_0]) == id_range(id, id + kept_count(d)),
    decreases d, d.children@.len() + 1,
{
    let n = built_node(d, id)->Some_0;
    let len = d.children@.len() as int;
    lemma_built_children_ids(d, len, id + 1);
    lemma_ids_below_sorted(built_children(d, len, id + 1));
    let one = seq![n];
    assert(one.drop_last() =~= Seq::<NodeView>::empty());
    assert(ids_below(one) == ids_below(one.drop_last()).insert(one.last().id) + ids_below(one.last().children));
    assert(ids_below(one) =~= id_range(id, id + kept_count(d)));
}

proof fn lemma_built_children_ids(d: DieRecord, k: int, id: int)
    requires
        0 <= k <= d.children@.len(),
    ensures
        ids_below(built_children(d, k, id)) == id_range(id, id + kept_before(d, k)),
    decreases d, k,
{
    if k == 0 {
        assert(ids_below(built_children(d, 0, id)) =~= id_range(id, id));
    } else {
        assert(decreases_to!(d => d.children@[k - 1]));
        lemma_built_children_ids(d, k - 1, id);
        let c = d.children@[k - 1];
        let at = id + kept_before(d, k - 1);
        let prev = built_children(d, k - 1, id);
        match kept_tag(c.tag) {
            Some(_) => {
                lemma_built_node_ids(c, at);
                let n = built_node(c, at)->Some_0;
                lemma_ids_below_insert(prev, prev.len() as int, n);
                assert(prev.insert(prev.len() as int, n) =~= prev.push(n));
                assert(built_children(d, k, id) == prev.push(n));
                assert(kept_before(d, k) == kept_before(d, k - 1) + kept_count(c));
                assert(ids_below(prev.push(n)) == ids_below(prev) + ids_below(seq![n]));
                assert(ids_below(built_children(d, k, id)) =~= id_range(id, id + kept_before(d, k)));
            },
            None => {
                assert(ids_below(built_children(d, k, id)) =~= id_range(id, id + kept_before(d, k)));
            },
        }
    }
}

proof fn lemma_built_units_ids(units: Seq<DieRecord>, k: int)
    requires
        0 <= k <= units.len(),
    ensures
        ids_below(built_units(units, k)) == id_range(0, units_count(units, k) as int),
    decreases k,
{
    if k == 0 {
        assert(ids_below(built_units(units, 0)) =~= id_range(0, 0));
    } else {
        lemma_built_units_ids(units, k - 1);
        let prev = built_units(units, k - 1);
        let root = units[k - 1];
        if root.tag == DW_TAG_COMPILE_UNIT {
            let at = units_count(units, k - 1) as int;
            let len = root.children@.len() as int;
            lemma_built_children_ids(root, len, at + 1);
            lemma_ids_below_sorted(built_children(root, len, at + 1));
            let n = built_unit(root, at);
            let cur = prev.push(n);
            assert(cur.drop_last() =~= prev);
            assert(ids_below(cur) =~= id_range(0, units_count(units, k) as int));
        } else {
            assert(ids_below(built_units(units, k)) =~= id_range(0, units_count(units, k) as int));
        }
    }
}

/// No id occurs twice among the nodes of `s` and everything below them.
pub open spec fn ids_distinct(s: Seq<NodeView>) -> bool
    decreases s,
{
    if s.len() == 0 {
        true
    } else {
        proof {
            assert(decreases_to!(s => s[s.len() - 1]));
        }
        let rest = ids_below(s.drop_last());
        let below = ids_below(s.last().children);
        &&& ids_distinct(s.drop_last())
        &&& ids_distinct(s.last().children)
        &&& !rest.contains(s.last().id)
        &&& !below.contains(s.last().id)
        &&& rest.disjoint(below)
    }
}

proof fn lemma_ids_distinct_insert(t: Seq<NodeView>, p: int, x: NodeView)
    requires
        0 <= p <= t.len(),
        ids_distinct(t),
        ids_distinct(seq![x]),
        ids_below(t).disjoint(ids_below(seq![x])),
    ensures
        ids_distinct(t.insert(p, x)),
    decreases t.len(),
{
    let u = t.insert(p, x);
    let one = seq![x];
    assert(one.drop_last() =~= Seq::<NodeView>::empty());
    assert(ids_below(one) == ids_below(one.drop_last()).insert(one.last().id) + ids_below(one.last().children));
    if p == t.len() {
        assert(u.drop_last() =~= t);
        assert(u.last() == x);
    } else {
        let t0 = t.drop_last();
        assert(ids_below(t) == ids_below(t0).insert(t.last().id) + ids_below(t.last().children));
        lemma_ids_distinct_insert(t0, p, x);
        lemma_ids_below_insert(t0, p, x);
        assert(u.drop_last() =~= t0.insert(p, x));
        assert(u.last() == t.last());
        assert(ids_below(u.drop_last()) == ids_below(t0) + ids_below(one));
    }
}

proof fn lemma_ids_distinct_sorted(s: Seq<NodeView>)
    requires
        ids_distinct(s),
    ensures
        ids_distinct(sort_nodes(s)),
    decreases s.len(),
{
    if s.len() > 0 {
        let s0 = s.drop_last();
        let t = sort_nodes(s0);
        lemma_ids_distinct_sorted(s0);
        lemma_ids_below_sorted(s0);
        lemma_sort_nodes_len(s0);
        lemma_sort_point_bounds(t, s.last(), 0);
        let one = seq![s.last()];
        assert(one.drop_last() =~= Seq::<NodeView>::empty());
        assert(ids_below(one) == ids_below(one.drop_last()).insert(one.last().id) + ids_below(one.last().children));
        assert(one.last() == s.last());
        assert(ids_below(one.drop_last()) == Set::<int>::empty());
        assert(ids_distinct(one.drop_last()));
        assert(ids_below(one.drop_last()).disjoint(ids_below(one.last().children)));
        assert(ids_distinct(one));
        assert(ids_below(s) == ids_below(s0).insert(s.last().id) + ids_below(s.last().children));
        assert(ids_below(t).disjoint(ids_below(one)));
        lemma_ids_distinct_insert(t, sort_point(t, s.last(), 0), s.last());
    }
}

proof fn lemma_built_node_distinct(d: DieRecord, id: int)
    requires
        kept_tag(d.tag) is Some,
    ensures
        ids_distinct(seq![built_node(d, id)->Some_0]),
    decreases d, d.children@.len() + 1,
{
    let n = built_node(d, id)->Some_0;
    let len = d.children@.len() as int;
    let kids = built_children(d, len, id + 1);
    lemma_built_children_distinct(d, len, id + 1);
    lemma_built_children_ids(d, len, id + 1);
    lemma_ids_distinct_sorted(kids);
    lemma_ids_below_sorted(kids);
    let one = seq![n];
    assert(one.drop_last() =~= Seq::<NodeView>::empty());
    assert(one.last() == n);
    assert(n.id == id);
    assert(n.children == sort_nodes(kids));
    assert(ids_below(n.children) == id_range(id + 1, id + 1 + kept_before(d, len)));
    assert(!ids_below(n.children).contains(id));
    assert(ids_below(one.drop_last()) == Set::<int>::empty());
    assert(ids_distinct(one.drop_last()));
    assert(ids_below(one.drop_last()).disjoint(ids_below(one.last().children)));
}

proof fn lemma_built_children_distinct(d: DieRecord, k: int, id: int)
    requires
        0 <= k <= d.children@.len(),
    ensures
        ids_distinct(built_children(d, k, id)),
    decreases d, k,
{
    if k > 0 {
        assert(decreases_to!(d => d.children@[k - 1]));
        lemma_built_children_distinct(d, k - 1, id);
        lemma_built_children_ids(d, k - 1, id);
        let c = d.children@[k - 1];
        let at = id + kept_before(d, k - 1);
        let prev = built_children(d, k - 1, id);
        match kept_tag(c.tag) {
            Some(_) => {
                lemma_built_node_distinct(c, at);
                lemma_built_node_ids(c, at);
                let n = built_node(c, at)->Some_0;
                assert(prev.insert(prev.len() as int, n) =~= prev.push(n));
                assert(ids_below(prev).disjoint(ids_below(seq![n])));
                lemma_ids_distinct_insert(prev, prev.len() as int, n);
            },
            None => {},
        }
    }
}

proof fn lemma_built_units_distinct(units: Seq<DieRecord>, k: int)
    requires
        0 <= k <= units.len(),
    ensures
        ids_distinct(built_units(units, k)),
    decreases k,
{
    if k > 0 {
        lemma_built_units_distinct(units, k - 1);
        lemma_built_units_ids(units, k - 1);
        let prev = built_units(units, k - 1);
        let root = units[k - 1];
        if root.tag == DW_TAG_COMPILE_UNIT {
            let at = units_count(units, k - 1) as int;
            let len = root.children@.len() as int;
            let kids = built_children(root, len, at + 1);
            lemma_built_children_ids(root, len, at + 1);
            lemma_built_children_distinct(root, len, at + 1);
            lemma_ids_below_sorted(kids);
            lemma_ids_distinct_sorted(kids);
            let n = built_unit(root, at);
            let cur = prev.push(n);
            assert(cur.drop_last() =~= prev);
            assert(!ids_below(n.children).contains(at));
            assert(ids_below(prev).disjoint(ids_below(n.children)));
        }
    }
}

/// Node ids follow one numbering across the whole parse: no two nodes share an
/// id, and the ids of all nodes of all units are exactly the integers from 0
/// up to the total node count.
pub proof fn ids_are_unique_and_cover_total(units: Seq<DieRecord>, info: DwarfInfo)
    requires
        node_views(info.compile_units@) == built_units(units, units.len() as int),
        info.total_symbols == units_count(units, units.len() as int),
    ensures
        ids_distinct(node_views(info.compile_units@)),
        ids_below(node_views(info.compile_units@)) == id_range(0, info.total_symbols as int),
{
    lemma_built_units_ids(units, units.len() as int);
    lemma_built_units_distinct(units, units.len() as int);
}

} // verus!
