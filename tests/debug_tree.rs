use mason::dwarf::build_dwarf_info;
use mason::dwarf::count_unit_nodes;
use mason::dwarf::try_build_dwarf_info;
use mason::dwarf::get_file_line_info;
use mason::dwarf::get_size;
use mason::dwarf::get_type_name;
use mason::dwarf::sort_symbols;
use mason::dwarf::AttrRecord;
use mason::dwarf::DieRecord;
use mason::dwarf_attr::demangle_name;
use mason::dwarf_attr::format_attr_value;
use mason::dwarf_attr::AttrValue;
use mason::dwarf_attr::IndexTable;
use mason::dwarf_attr::OffsetSection;
use mason::dwarf_attr::RefTarget;
use mason::dwarf_attr::SignatureKind;
use mason::dwarf_attr::StrSource;
use mason::types::DwarfSymbol;
use mason::types::DwarfTag;

const TAG_CU: u16 = 0x11;
const TAG_FN: u16 = 0x2e;
const TAG_VAR: u16 = 0x34;
const TAG_MEMBER: u16 = 0x0d;
const TAG_STRUCT: u16 = 0x13;
const TAG_BASE_TYPE: u16 = 0x24;
const TAG_PARAM: u16 = 0x05;
const TAG_BLOCK: u16 = 0x0b;
const AT_NAME: u16 = 0x03;
const AT_LOW_PC: u16 = 0x11;
const AT_HIGH_PC: u16 = 0x12;
const AT_BYTE_SIZE: u16 = 0x0b;
const AT_COMP_DIR: u16 = 0x1b;
const AT_DECL_FILE: u16 = 0x3a;
const AT_DECL_LINE: u16 = 0x3b;
const AT_DECL_COLUMN: u16 = 0x39;
const AT_TYPE: u16 = 0x49;
const AT_LINKAGE_NAME: u16 = 0x6e;

fn attr(code: u16, label: &str, value: AttrValue) -> AttrRecord {
    AttrRecord { code, label: Some(label.to_string()), value }
}

fn name(n: &str) -> AttrRecord {
    attr(AT_NAME, "DW_AT_name", AttrValue::Text(n.to_string()))
}

fn die(tag: u16, attrs: Vec<AttrRecord>, children: Vec<DieRecord>) -> DieRecord {
    DieRecord { tag, attrs, children }
}

fn ids(nodes: &[DwarfSymbol], out: &mut Vec<usize>) {
    for n in nodes {
        out.push(n.id);
        ids(&n.children, out);
    }
}

fn sample_units() -> Vec<DieRecord> {
    let point = die(
        TAG_STRUCT,
        vec![name("Point"), attr(AT_BYTE_SIZE, "DW_AT_byte_size", AttrValue::Data1(8))],
        vec![die(TAG_MEMBER, vec![name("x")], vec![]), die(TAG_MEMBER, vec![name("y")], vec![])],
    );
    let main = die(
        TAG_FN,
        vec![
            name("main"),
            attr(AT_LOW_PC, "DW_AT_low_pc", AttrValue::Addr(0x0800_0100)),
            attr(AT_HIGH_PC, "DW_AT_high_pc", AttrValue::Data4(0x20)),
        ],
        vec![die(TAG_PARAM, vec![name("argc")], vec![]), die(TAG_BLOCK, vec![], vec![die(TAG_VAR, vec![name("index")], vec![])])],
    );
    let int_type = die(TAG_BASE_TYPE, vec![name("int")], vec![die(TAG_MEMBER, vec![name("hidden")], vec![])]);
    let cu = die(
        TAG_CU,
        vec![name("main.c"), attr(AT_COMP_DIR, "DW_AT_comp_dir", AttrValue::Text("/src".to_string()))],
        vec![point, int_type, main],
    );
    let second = die(TAG_CU, vec![], vec![die(TAG_VAR, vec![name("g")], vec![])]);
    let type_unit = die(0x41, vec![], vec![die(TAG_VAR, vec![name("t")], vec![])]);
    vec![cu, type_unit, second]
}

#[test]
fn high_pc_as_offset_gives_the_size() {
    let attrs = vec![
        attr(AT_LOW_PC, "DW_AT_low_pc", AttrValue::Addr(0x1000)),
        attr(AT_HIGH_PC, "DW_AT_high_pc", AttrValue::Udata(0x40)),
    ];
    assert_eq!(get_size(&attrs), Some(0x40));
}

#[test]
fn high_pc_as_address_gives_the_distance() {
    let attrs = vec![
        attr(AT_LOW_PC, "DW_AT_low_pc", AttrValue::Addr(0x1000)),
        attr(AT_HIGH_PC, "DW_AT_high_pc", AttrValue::Addr(0x1064)),
    ];
    assert_eq!(get_size(&attrs), Some(0x64));
}

#[test]
fn byte_size_comes_first_and_low_pc_is_needed() {
    let attrs = vec![
        attr(AT_HIGH_PC, "DW_AT_high_pc", AttrValue::Udata(0x40)),
        attr(AT_LOW_PC, "DW_AT_low_pc", AttrValue::Addr(0x1000)),
        attr(AT_BYTE_SIZE, "DW_AT_byte_size", AttrValue::Data2(12)),
    ];
    assert_eq!(get_size(&attrs), Some(12));
    let no_low = vec![attr(AT_HIGH_PC, "DW_AT_high_pc", AttrValue::Udata(0x40))];
    assert_eq!(get_size(&no_low), None);
    assert_eq!(get_size(&Vec::new()), None);
}

#[test]
fn file_line_and_column() {
    let attrs = vec![
        attr(AT_DECL_FILE, "DW_AT_decl_file", AttrValue::FileIndex(2, Some("lib.rs".to_string()))),
        attr(AT_DECL_LINE, "DW_AT_decl_line", AttrValue::Data2(42)),
        attr(AT_DECL_COLUMN, "DW_AT_decl_column", AttrValue::Data4(7)),
    ];
    let (file, line, column) = get_file_line_info(&attrs);
    assert_eq!(file.as_deref(), Some("lib.rs"));
    assert_eq!(line, Some(42));
    assert_eq!(column, None);
    let zero = vec![attr(AT_DECL_FILE, "DW_AT_decl_file", AttrValue::FileIndex(0, Some("x.rs".to_string())))];
    assert_eq!(get_file_line_info(&zero).0, None);
}

#[test]
fn type_name_follows_the_reference() {
    let attrs = vec![attr(
        AT_TYPE,
        "DW_AT_type",
        AttrValue::UnitRef(0x2d, RefTarget::Entry(Some("u32".to_string()), Some("DW_TAG_base_type".to_string()))),
    )];
    assert_eq!(get_type_name(&attrs).as_deref(), Some("u32"));
    let unnamed = vec![attr(AT_TYPE, "DW_AT_type", AttrValue::UnitRef(0x2d, RefTarget::Entry(None, None)))];
    assert_eq!(get_type_name(&unnamed), None);
}

#[test]
fn tree_is_built_in_preorder_and_filtered() {
    let info = build_dwarf_info(&sample_units());
    assert!(info.present);
    assert_eq!(info.compile_units.len(), 2);
    let cu = &info.compile_units[0];
    assert_eq!(cu.id, 0);
    assert_eq!(cu.name, "main.c");
    assert_eq!(cu.tag, DwarfTag::CompileUnit);
    assert_eq!(cu.file.as_deref(), Some("/src/main.c"));
    assert!(cu.attributes.is_empty());
    let kids: Vec<&str> = cu.children.iter().map(|c| c.name.as_str()).collect();
    assert_eq!(kids, vec!["main", "Point"]);
    let main = &cu.children[0];
    assert_eq!(main.id, 4);
    assert_eq!(main.address, Some(0x0800_0100));
    assert_eq!(main.size, Some(0x20));
    assert_eq!(main.children.len(), 2);
    assert_eq!(main.children[0].name, "<block>");
    assert_eq!(main.children[0].children[0].name, "index");
    assert_eq!(main.children[1].name, "argc");
    let point = &cu.children[1];
    assert_eq!(point.id, 1);
    assert_eq!(point.size, Some(8));
    assert_eq!(point.attributes, vec![
        ("DW_AT_name".to_string(), "Point".to_string()),
        ("DW_AT_byte_size".to_string(), "8".to_string()),
    ]);
    let second = &info.compile_units[1];
    assert_eq!(second.id, 8);
    assert_eq!(second.name, "<unknown>");
    assert_eq!(second.file.as_deref(), Some("<unknown>"));
    assert_eq!(info.total_symbols, 10);
}

#[test]
fn building_twice_numbers_alike() {
    let a = build_dwarf_info(&sample_units());
    let b = build_dwarf_info(&sample_units());
    let mut ia = Vec::new();
    let mut ib = Vec::new();
    ids(&a.compile_units, &mut ia);
    ids(&b.compile_units, &mut ib);
    assert_eq!(ia, ib);
    let mut sorted = ia.clone();
    sorted.sort();
    assert_eq!(sorted, (0..10).collect::<Vec<usize>>());
}

fn leaf(id: usize, tag: DwarfTag, name: &str, address: Option<u64>) -> DwarfSymbol {
    DwarfSymbol {
        id,
        name: name.to_string(),
        tag,
        address,
        size: None,
        file: None,
        line: None,
        column: None,
        type_label: None,
        children: Vec::new(),
        attributes: Vec::new(),
    }
}

#[test]
fn unaddressed_members_sort_by_name() {
    let v = vec![
        leaf(0, DwarfTag::Member, "b", None),
        leaf(1, DwarfTag::Member, "a", None),
        leaf(2, DwarfTag::Member, "c", None),
    ];
    let sorted = sort_symbols(v);
    let names: Vec<&str> = sorted.iter().map(|s| s.name.as_str()).collect();
    assert_eq!(names, vec!["a", "b", "c"]);
}

#[test]
fn tree_members_sort_by_demangled_name() {
    let cu = die(
        TAG_CU,
        vec![name("m.c")],
        vec![
            die(TAG_MEMBER, vec![name("beta")], vec![]),
            die(TAG_MEMBER, vec![name("alpha")], vec![]),
            die(TAG_MEMBER, vec![name("gamma")], vec![]),
        ],
    );
    let info = build_dwarf_info(&vec![cu]);
    let kids: Vec<&str> = info.compile_units[0].children.iter().map(|c| c.name.as_str()).collect();
    assert_eq!(kids, vec!["alpha", "beta", "gamma"]);
}

#[test]
fn siblings_sort_by_kind_then_address_then_name() {
    let v = vec![
        leaf(0, DwarfTag::Namespace, "ns", None),
        leaf(1, DwarfTag::Member, "m", None),
        leaf(2, DwarfTag::Variable, "zeta", None),
        leaf(3, DwarfTag::Subprogram, "late", Some(0x200)),
        leaf(4, DwarfTag::Typedef, "t", None),
        leaf(5, DwarfTag::UnionType, "u", None),
        leaf(6, DwarfTag::Subprogram, "early", Some(0x100)),
        leaf(7, DwarfTag::Variable, "alpha", Some(0x10)),
        leaf(8, DwarfTag::StructureType, "s", None),
        leaf(9, DwarfTag::Subprogram, "same", Some(0x100)),
    ];
    let sorted = sort_symbols(v);
    let order: Vec<usize> = sorted.iter().map(|s| s.id).collect();
    assert_eq!(order, vec![6, 9, 3, 7, 2, 8, 5, 4, 0, 1]);
}

#[test]
fn linkage_names_are_demangled() {
    assert_eq!(demangle_name("_ZN4core3fmt5write17h0123456789abcdefE"), "core::fmt::write");
    assert_eq!(demangle_name("_Z3foov"), "foo()");
    assert_eq!(demangle_name("plain_c_name"), "plain_c_name");
    let cu = die(
        TAG_CU,
        vec![name("lib.rs")],
        vec![die(
            TAG_FN,
            vec![
                name("write"),
                attr(AT_LINKAGE_NAME, "DW_AT_linkage_name", AttrValue::Text("_ZN4core3fmt5write17h0123456789abcdefE".to_string())),
            ],
            vec![],
        )],
    );
    let info = build_dwarf_info(&vec![cu]);
    assert_eq!(info.compile_units[0].children[0].name, "core::fmt::write");
}

#[test]
fn attribute_values_read_by_kind() {
    let cases: Vec<(AttrValue, &str)> = vec![
        (AttrValue::Addr(0x1f), "0x0000001f"),
        (AttrValue::Addr(0x1_0000_0000), "0x100000000"),
        (AttrValue::Block(vec![1, 0xab]), "[01 ab]"),
        (AttrValue::Block((0..17u8).collect()), "[00 01 02 03 04 05 06 07 ... (17 bytes)]"),
        (AttrValue::Block(Vec::new()), "[]"),
        (AttrValue::Exprloc(Vec::new()), "<empty expr>"),
        (AttrValue::Exprloc(vec![0x91, 0x7c]), "expr[91 7c]"),
        (AttrValue::Exprloc((0..20u8).collect()), "expr[00 01 02 03 04 05 06 07 ... (20 bytes)]"),
        (AttrValue::Data1(255), "255"),
        (AttrValue::Data8(u64::MAX), "18446744073709551615"),
        (AttrValue::Sdata(-42), "-42"),
        (AttrValue::Sdata(i64::MIN), "-9223372036854775808"),
        (AttrValue::Udata(0), "0"),
        (AttrValue::Flag(true), "true"),
        (AttrValue::Flag(false), "false"),
        (AttrValue::SecOffset(0xbeef), "offset 0xbeef"),
        (AttrValue::UnitRef(0x2d, RefTarget::Entry(Some("_Z3foov".to_string()), None)), "foo()"),
        (AttrValue::UnitRef(0x2d, RefTarget::Entry(None, Some("DW_TAG_pointer_type".to_string()))), "<DW_TAG_pointer_type> @ 0x2d"),
        (AttrValue::UnitRef(0x2d, RefTarget::Entry(None, None)), "<?> @ 0x2d"),
        (AttrValue::UnitRef(0x2d, RefTarget::Unreadable), "ref 0x2d"),
        (AttrValue::Offset(OffsetSection::DebugInfo, 0x10), ".debug_info+0x10"),
        (AttrValue::Offset(OffsetSection::DebugStrOffsets, 0x8), ".debug_str_offsets+0x8"),
        (AttrValue::Index(IndexTable::LocLists, 3), "loclist[3]"),
        (AttrValue::Index(IndexTable::Addr, 12), "addr[12]"),
        (AttrValue::Str(StrSource::DebugStr, 0x40, Some("hello".to_string())), "hello"),
        (AttrValue::Str(StrSource::DebugStr, 0x40, None), ".debug_str+0x40"),
        (AttrValue::Str(StrSource::DebugLineStr, 0x41, None), ".debug_line_str+0x41"),
        (AttrValue::Str(StrSource::StrOffsetsIndex, 5, None), "str[5]"),
        (AttrValue::Text("inline".to_string()), "inline"),
        (AttrValue::Signature(SignatureKind::TypeSignature, 0xabc), "type_sig 0x0000000000000abc"),
        (AttrValue::Signature(SignatureKind::DwoId, 1), "dwo_id 0x0000000000000001"),
        (AttrValue::Constant(Some("DW_ATE_unsigned".to_string())), "DW_ATE_unsigned"),
        (AttrValue::Constant(None), "?"),
        (AttrValue::AddressClass(2), "addr_class(2)"),
        (AttrValue::FileIndex(1, Some("main.rs".to_string())), "main.rs"),
        (AttrValue::FileIndex(0, Some("main.rs".to_string())), "file[0]"),
        (AttrValue::FileIndex(3, None), "file[3]"),
        (AttrValue::Other("LineRef(7)".to_string()), "LineRef(7)"),
    ];
    for (value, expected) in cases {
        assert_eq!(format_attr_value(&value), expected);
    }
}

#[test]
fn unlabelled_attribute_reads_unknown() {
    let cu = die(
        TAG_CU,
        vec![],
        vec![die(TAG_VAR, vec![AttrRecord { code: 0x3fff, label: None, value: AttrValue::Udata(9) }], vec![])],
    );
    let info = build_dwarf_info(&vec![cu]);
    let v = &info.compile_units[0].children[0];
    assert_eq!(v.name, "<anonymous>");
    assert_eq!(v.attributes, vec![("Unknown".to_string(), "9".to_string())]);
}

#[test]
fn no_units_means_absent() {
    let info = build_dwarf_info(&Vec::new());
    assert!(!info.present);
    assert_eq!(info.total_symbols, 0);
}

#[test]
fn cloned_tree_is_equal() {
    let info = build_dwarf_info(&sample_units());
    let copy = info.clone();
    assert_eq!(copy.total_symbols, info.total_symbols);
    let mut a = Vec::new();
    let mut b = Vec::new();
    ids(&info.compile_units, &mut a);
    ids(&copy.compile_units, &mut b);
    assert_eq!(a, b);
    assert_eq!(copy.compile_units[0].children[1].attributes, info.compile_units[0].children[1].attributes);
    assert_eq!(copy.compile_units[0].file, info.compile_units[0].file);
}

#[test]
fn checked_build_matches_plain_build() {
    let units = sample_units();
    assert_eq!(count_unit_nodes(&units), Some(10));
    let info = try_build_dwarf_info(&units).unwrap();
    assert_eq!(info.total_symbols, 10);
    let mut a = Vec::new();
    ids(&info.compile_units, &mut a);
    let plain = build_dwarf_info(&units);
    let mut b = Vec::new();
    ids(&plain.compile_units, &mut b);
    assert_eq!(a, b);
}
