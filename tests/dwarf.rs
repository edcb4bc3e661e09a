use isr::dwarf::{
    add_unit, type_from_base_type, DwarfEntry, DwarfError, DwarfUnit, DW_ATE_BOOLEAN,
    DW_ATE_FLOAT, DW_ATE_SIGNED, DW_TAG_ARRAY_TYPE, DW_TAG_BASE_TYPE, DW_TAG_ENUMERATION_TYPE,
    DW_TAG_ENUMERATOR, DW_TAG_MEMBER, DW_TAG_POINTER_TYPE, DW_TAG_STRUCTURE_TYPE,
    DW_TAG_SUBRANGE_TYPE, DW_TAG_TYPEDEF, DW_TAG_UNION_TYPE,
};
use isr::ingest::{create_dwarf_profile, DwarfProfileError};
use isr::merge::DeclCache;
use isr::profile::Types;
use isr::types::{BaseRef, StructKind, Type, Variant};

fn entry(tag: u16, offset: u64) -> DwarfEntry {
    DwarfEntry {
        tag,
        offset,
        name: None,
        type_ref: None,
        declaration: false,
        decl_file: None,
        decl_line: None,
        decl_column: None,
        byte_size: None,
        bit_size: None,
        data_bit_offset: None,
        data_member_location: None,
        encoding: None,
        count: None,
        upper_bound: None,
        const_udata: None,
        const_sdata: None,
        children: Vec::new(),
    }
}

fn named(mut e: DwarfEntry, name: &str) -> DwarfEntry {
    e.name = Some(name.to_string());
    e
}

fn sited(mut e: DwarfEntry, file: &str, line: u64, column: u64) -> DwarfEntry {
    e.decl_file = Some(file.to_string());
    e.decl_line = Some(line);
    e.decl_column = Some(column);
    e
}

fn member(name: Option<&str>, offset: u64, type_ref: usize) -> DwarfEntry {
    let mut e = entry(DW_TAG_MEMBER, 0x1000 + offset);
    e.name = name.map(|n| n.to_string());
    e.data_member_location = Some(offset);
    e.type_ref = Some(type_ref);
    e
}

fn base_type(name: &str, size: u64, encoding: u8) -> DwarfEntry {
    let mut e = named(entry(DW_TAG_BASE_TYPE, 0x10), name);
    e.byte_size = Some(size);
    e.encoding = Some(encoding);
    e
}

/// 0: int, 1: struct point { x, y } at a.h:1:1, 2: member x, 3: member y,
/// 4: anonymous struct at a.h:5:1 with member z (5), 6: anonymous struct at
/// a.h:9:1 with member w (7).
fn point_unit() -> DwarfUnit {
    let mut point = sited(named(entry(DW_TAG_STRUCTURE_TYPE, 0x20), "point"), "a.h", 1, 1);
    point.byte_size = Some(8);
    point.children = vec![2, 3];
    let mut anon1 = sited(entry(DW_TAG_STRUCTURE_TYPE, 0x40), "a.h", 5, 1);
    anon1.byte_size = Some(4);
    anon1.children = vec![5];
    let mut anon2 = sited(entry(DW_TAG_STRUCTURE_TYPE, 0x60), "a.h", 9, 1);
    anon2.byte_size = Some(4);
    anon2.children = vec![7];
    DwarfUnit {
        entries: vec![
            base_type("int", 4, DW_ATE_SIGNED),
            point,
            member(Some("x"), 0, 0),
            member(Some("y"), 4, 0),
            anon1,
            member(Some("z"), 0, 0),
            anon2,
            member(Some("w"), 0, 0),
        ],
        top: vec![0, 1, 4, 6],
    }
}

#[test]
fn struct_members_round_trip() {
    let unit = point_unit();
    let mut types = Types::new();
    let mut cache = DeclCache::new();
    add_unit(&mut types, &unit, &mut cache).unwrap();
    let point = types.structs.get("point").unwrap();
    assert_eq!(point.kind, StructKind::Struct);
    assert_eq!(point.size, 8);
    assert_eq!(point.fields.len(), 2);
    let names: Vec<&str> = point.fields.keys().map(|k| k.as_str()).collect();
    assert_eq!(names, vec!["x", "y"]);
    assert_eq!(point.fields["y"].offset, 4);
    assert!(matches!(point.fields["x"].type_, Type::Base(BaseRef::I32)));
}

#[test]
fn duplicate_member_keeps_last() {
    let mut point = named(entry(DW_TAG_STRUCTURE_TYPE, 0x20), "dup");
    point.byte_size = Some(16);
    point.children = vec![2, 3, 4];
    let unit = DwarfUnit {
        entries: vec![
            base_type("int", 4, DW_ATE_SIGNED),
            point,
            member(Some("a"), 0, 0),
            member(Some("b"), 4, 0),
            member(Some("a"), 8, 0),
        ],
        top: vec![1],
    };
    let mut types = Types::new();
    let mut cache = DeclCache::new();
    add_unit(&mut types, &unit, &mut cache).unwrap();
    let s = types.structs.get("dup").unwrap();
    assert_eq!(s.fields.len(), 2);
    assert_eq!(s.fields["a"].offset, 8);
    let names: Vec<&str> = s.fields.keys().map(|k| k.as_str()).collect();
    assert_eq!(names, vec!["a", "b"]);
}

#[test]
fn reingesting_a_unit_changes_nothing() {
    let unit = point_unit();
    let mut types = Types::new();
    let mut cache = DeclCache::new();
    add_unit(&mut types, &unit, &mut cache).unwrap();
    let structs_once = format!("{:?}", types.structs);
    add_unit(&mut types, &unit, &mut cache).unwrap();
    assert_eq!(format!("{:?}", types.structs), structs_once);
    assert_eq!(types.structs.len(), 3);
}

#[test]
fn anonymous_structs_get_distinct_names() {
    let unit = point_unit();
    let mut types = Types::new();
    let mut cache = DeclCache::new();
    add_unit(&mut types, &unit, &mut cache).unwrap();
    assert!(types.structs.contains_key("__unnamed_40"));
    assert!(types.structs.contains_key("__unnamed_60"));
    assert!(types.structs["__unnamed_40"].fields.contains_key("z"));
    assert!(types.structs["__unnamed_60"].fields.contains_key("w"));
}

#[test]
fn declaration_sites_are_deduplicated() {
    let mut cache = DeclCache::new();
    assert!(cache.insert("a.h".to_string(), 1, 1));
    assert!(!cache.insert("a.h".to_string(), 1, 1));
    assert!(cache.insert("a.h".to_string(), 1, 2));
    assert!(cache.insert("b.h".to_string(), 1, 1));
    assert!(!cache.insert("b.h".to_string(), 1, 1));
}

fn conflicting_units() -> (DwarfUnit, DwarfUnit) {
    let mut small = named(entry(DW_TAG_STRUCTURE_TYPE, 0x20), "task");
    small.byte_size = Some(4);
    small.children = vec![2];
    let small_unit = DwarfUnit {
        entries: vec![base_type("int", 4, DW_ATE_SIGNED), small, member(Some("a"), 0, 0)],
        top: vec![1],
    };
    let mut big = named(entry(DW_TAG_STRUCTURE_TYPE, 0x20), "task");
    big.byte_size = Some(8);
    big.children = vec![2, 3];
    let big_unit = DwarfUnit {
        entries: vec![
            base_type("int", 4, DW_ATE_SIGNED),
            big,
            member(Some("a"), 0, 0),
            member(Some("b"), 4, 0),
        ],
        top: vec![1],
    };
    (small_unit, big_unit)
}

#[test]
fn more_fields_win_in_either_order() {
    let (small, big) = conflicting_units();
    let mut first = Types::new();
    let mut cache = DeclCache::new();
    add_unit(&mut first, &small, &mut cache).unwrap();
    add_unit(&mut first, &big, &mut cache).unwrap();
    let mut second = Types::new();
    let mut cache = DeclCache::new();
    add_unit(&mut second, &big, &mut cache).unwrap();
    add_unit(&mut second, &small, &mut cache).unwrap();
    assert_eq!(format!("{:?}", first.structs), format!("{:?}", second.structs));
    assert_eq!(first.structs["task"].fields.len(), 2);
    assert_eq!(first.structs["task"].size, 8);
}

#[test]
fn base_type_encodings() {
    let cases = [
        (Some(4), Some(DW_ATE_SIGNED), BaseRef::I32),
        (Some(1), Some(DW_ATE_BOOLEAN), BaseRef::Bool),
        (Some(2), Some(DW_ATE_BOOLEAN), BaseRef::Void),
        (Some(8), Some(DW_ATE_FLOAT), BaseRef::F64),
        (Some(16), Some(DW_ATE_FLOAT), BaseRef::Void),
        (Some(8), None, BaseRef::U64),
        (Some(2), Some(0x10), BaseRef::U16),
        (Some(3), Some(DW_ATE_SIGNED), BaseRef::Void),
        (Some(0), Some(DW_ATE_SIGNED), BaseRef::Void),
        (None, Some(DW_ATE_SIGNED), BaseRef::Void),
    ];
    for (size, encoding, expected) in cases {
        let mut e = entry(DW_TAG_BASE_TYPE, 0);
        e.byte_size = size;
        e.encoding = encoding;
        assert_eq!(type_from_base_type(&e), expected);
    }
}

#[test]
fn members_arrays_pointers_bitfields() {
    // 0 int, 1 struct s, 2 arr member, 3 array type, 4 subrange(count 3),
    // 5 subrange(upper bound 4), 6 ptr member, 7 pointer type, 8 typedef,
    // 9 bit member, 10 member without type, 11 member without name or offset
    let mut s = named(entry(DW_TAG_STRUCTURE_TYPE, 0x20), "s");
    s.byte_size = Some(64);
    s.children = vec![2, 6, 9, 10, 11];
    let mut array = entry(DW_TAG_ARRAY_TYPE, 0x30);
    array.type_ref = Some(0);
    array.children = vec![4, 5];
    let mut sub1 = entry(DW_TAG_SUBRANGE_TYPE, 0x31);
    sub1.count = Some(3);
    let mut sub2 = entry(DW_TAG_SUBRANGE_TYPE, 0x32);
    sub2.upper_bound = Some(4);
    let mut pointer = entry(DW_TAG_POINTER_TYPE, 0x40);
    pointer.type_ref = Some(8);
    let mut typedef = named(entry(DW_TAG_TYPEDEF, 0x48), "int_t");
    typedef.type_ref = Some(0);
    let mut bits = member(Some("flag"), 0, 0);
    bits.data_member_location = None;
    bits.data_bit_offset = Some(8 * 40 + 3);
    bits.bit_size = Some(2);
    let mut untyped = member(Some("v"), 48, 0);
    untyped.type_ref = None;
    let mut unnamed = member(None, 0, 0);
    unnamed.data_member_location = None;
    let unit = DwarfUnit {
        entries: vec![
            base_type("int", 4, DW_ATE_SIGNED),
            s,
            member(Some("arr"), 0, 3),
            array,
            sub1,
            sub2,
            member(Some("ptr"), 32, 7),
            pointer,
            typedef,
            bits,
            untyped,
            unnamed,
        ],
        top: vec![1],
    };
    let mut types = Types::new();
    let mut cache = DeclCache::new();
    add_unit(&mut types, &unit, &mut cache).unwrap();
    let s = &types.structs["s"];
    match &s.fields["arr"].type_ {
        Type::Array(a) => {
            assert_eq!(a.dims.to_vec(), vec![3, 5]);
            assert_eq!(a.size, 3);
            assert!(matches!(*a.subtype, Type::Base(BaseRef::I32)));
        }
        other => panic!("unexpected {:?}", other),
    }
    match &s.fields["ptr"].type_ {
        Type::Pointer(p) => assert!(matches!(*p.subtype, Type::Base(BaseRef::I32))),
        other => panic!("unexpected {:?}", other),
    }
    assert_eq!(s.fields["flag"].offset, 40);
    match &s.fields["flag"].type_ {
        Type::Bitfield(b) => {
            assert_eq!(b.bit_length, 2);
            assert_eq!(b.bit_position, 3);
        }
        other => panic!("unexpected {:?}", other),
    }
    assert!(matches!(s.fields["v"].type_, Type::Base(BaseRef::Void)));
    assert_eq!(s.fields["__unnamed_field_4"].offset, 0);
}

#[test]
fn enums_unions_and_declarations() {
    let mut color = sited(named(entry(DW_TAG_ENUMERATION_TYPE, 0x20), "color"), "c.h", 3, 6);
    color.type_ref = Some(0);
    color.children = vec![2, 3, 4];
    let mut red = named(entry(DW_TAG_ENUMERATOR, 0x21), "RED");
    red.const_udata = Some(1);
    let mut neg = named(entry(DW_TAG_ENUMERATOR, 0x22), "NEG");
    neg.const_sdata = Some(-1);
    let novalue = named(entry(DW_TAG_ENUMERATOR, 0x23), "NONE");
    let mut u = named(entry(DW_TAG_UNION_TYPE, 0x30), "u");
    u.byte_size = Some(4);
    let mut decl = named(entry(DW_TAG_STRUCTURE_TYPE, 0x40), "opaque");
    decl.declaration = true;
    let mut no_type = named(entry(DW_TAG_ENUMERATION_TYPE, 0x50), "untyped");
    no_type.children = vec![];
    let unit = DwarfUnit {
        entries: vec![
            base_type("unsigned int", 4, 0x07),
            color,
            red,
            neg,
            novalue,
            u,
            decl,
            no_type,
        ],
        top: vec![1, 5, 6, 7],
    };
    let mut types = Types::new();
    let mut cache = DeclCache::new();
    add_unit(&mut types, &unit, &mut cache).unwrap();
    let color = &types.enums["color"];
    assert!(matches!(color.subtype, Type::Base(BaseRef::U32)));
    assert_eq!(color.fields.len(), 2);
    assert_eq!(color.fields["RED"], Variant::U8(1));
    assert_eq!(color.fields["NEG"], Variant::I8(-1));
    assert_eq!(types.structs["u"].kind, StructKind::Union);
    assert!(!types.structs.contains_key("opaque"));
    assert!(!types.enums.contains_key("untyped"));
}

#[test]
fn invalid_reference_is_refused() {
    let mut s = named(entry(DW_TAG_STRUCTURE_TYPE, 0x20), "s");
    s.children = vec![7];
    let unit = DwarfUnit { entries: vec![s], top: vec![0] };
    assert!(!unit.check());
    let mut types = Types::new();
    let mut cache = DeclCache::new();
    assert_eq!(add_unit(&mut types, &unit, &mut cache), Err(DwarfError::InvalidReference));
    assert!(types.structs.is_empty());
}

#[test]
fn dwarf_profile_end_to_end() {
    let map = "ffffffff81000000 T _text\nffffffff82000000 D init_task\n\nffffffff81000010 t helper\nffffffff83000000 A absolute\n";
    let profile = create_dwarf_profile(&vec![point_unit()], map).unwrap();
    assert_eq!(profile.architecture(), "Amd64");
    assert_eq!(profile.pointer_size(), 8);
    assert_eq!(profile.find_symbol("_text"), Some(0xffffffff81000000));
    assert_eq!(profile.find_symbol("init_task"), Some(0xffffffff82000000));
    assert_eq!(profile.find_symbol("helper"), Some(0xffffffff81000010));
    assert_eq!(profile.find_symbol("absolute"), None);
    assert_eq!(profile.find_field_descriptor("point", "y").unwrap().offset(), 4);
    let bad = DwarfUnit { entries: vec![], top: vec![3] };
    assert!(matches!(create_dwarf_profile(&vec![bad], map), Err(DwarfProfileError::InvalidReference)));
    assert!(matches!(
        create_dwarf_profile(&vec![point_unit()], "zzz T x\n"),
        Err(DwarfProfileError::InvalidSystemMap)
    ));
}

#[test]
fn enumerators_take_the_smallest_width() {
    let values: Vec<(Option<u64>, Option<i64>, Variant)> = vec![
        (Some(0), None, Variant::U8(0)),
        (Some(255), None, Variant::U8(255)),
        (Some(300), None, Variant::U16(300)),
        (Some(70000), None, Variant::U32(70000)),
        (Some(1 << 40), None, Variant::U64(1 << 40)),
        (None, Some(5), Variant::U8(5)),
        (None, Some(-128), Variant::I8(-128)),
        (None, Some(-200), Variant::I16(-200)),
        (None, Some(-40000), Variant::I32(-40000)),
        (None, Some(-(1 << 40)), Variant::I64(-(1 << 40))),
    ];
    let mut e = named(entry(DW_TAG_ENUMERATION_TYPE, 0x20), "wide");
    e.type_ref = Some(0);
    e.children = (2..2 + values.len()).collect();
    let mut entries = vec![base_type("long", 8, DW_ATE_SIGNED), e];
    for (i, (u, s, _)) in values.iter().enumerate() {
        let mut v = named(entry(DW_TAG_ENUMERATOR, 0x30 + i as u64), &format!("V{i}"));
        v.const_udata = *u;
        v.const_sdata = *s;
        entries.push(v);
    }
    let unit = DwarfUnit { entries, top: vec![1] };
    let mut types = Types::new();
    let mut cache = DeclCache::new();
    add_unit(&mut types, &unit, &mut cache).unwrap();
    let wide = &types.enums["wide"];
    for (i, (_, _, expected)) in values.iter().enumerate() {
        assert_eq!(wide.fields[&format!("V{i}")], *expected);
    }
}
