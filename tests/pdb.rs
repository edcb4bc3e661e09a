use isr::ingest::{create_pdb_profile, PdbProfileError};
use isr::pdb::{
    anonymous_name, convert_variant, from_primitive_kind, parse_symbols, parse_types,
    type_new, PdbClassKind, PdbError, PdbField, PdbPrimitiveKind, PdbPublicSymbol, PdbRecord,
    PdbTypeTable, PdbVariant,
};
use isr::types::{BaseRef, StructKind, Type, Variant};

const FIRST: u32 = 0x1000;
const T_INT4: u32 = 0x74;
const T_64PINT4: u32 = 0x674;
const T_UCHAR: u32 = 0x20;

/// Primitive slots, then the given stream records from index 0x1000.
fn table(stream: Vec<PdbRecord>) -> PdbTypeTable {
    let mut records = vec![PdbRecord::Other; FIRST as usize];
    records[T_INT4 as usize] = PdbRecord::Primitive { kind: PdbPrimitiveKind::Long, indirect: false };
    records[T_64PINT4 as usize] = PdbRecord::Primitive { kind: PdbPrimitiveKind::Long, indirect: true };
    records[T_UCHAR as usize] = PdbRecord::Primitive { kind: PdbPrimitiveKind::UChar, indirect: false };
    records.extend(stream);
    PdbTypeTable { first: FIRST, records }
}

fn member(name: &str, offset: u64, field_type: u32) -> PdbField {
    PdbField::Member { name: name.to_string(), offset, field_type }
}

fn class(name: &str, size: u64, fields: Option<u32>) -> PdbRecord {
    PdbRecord::Class {
        name: name.to_string(),
        forward_reference: false,
        kind: PdbClassKind::Struct,
        size,
        fields,
    }
}

#[test]
fn class_with_continued_field_list() {
    let t = table(vec![
        // 0x1000: second half of the member list
        PdbRecord::FieldList { fields: vec![member("c", 8, T_64PINT4)], continuation: None },
        // 0x1001: first half, continued at 0x1000
        PdbRecord::FieldList {
            fields: vec![member("a", 0, T_INT4), PdbField::Other, member("b", 4, T_UCHAR)],
            continuation: Some(0x1000),
        },
        // 0x1002: forward reference, skipped
        PdbRecord::Class {
            name: "_S".to_string(),
            forward_reference: true,
            kind: PdbClassKind::Struct,
            size: 0,
            fields: None,
        },
        // 0x1003
        class("_S", 16, Some(0x1001)),
    ]);
    let types = parse_types(&t).unwrap();
    let s = &types.structs["_S"];
    assert_eq!(s.size, 16);
    assert_eq!(s.kind, StructKind::Struct);
    let names: Vec<&str> = s.fields.keys().map(|k| k.as_str()).collect();
    assert_eq!(names, vec!["a", "b", "c"]);
    assert!(matches!(s.fields["a"].type_, Type::Base(BaseRef::I32)));
    assert!(matches!(s.fields["b"].type_, Type::Base(BaseRef::Char)));
    match &s.fields["c"].type_ {
        Type::Pointer(p) => assert!(matches!(*p.subtype, Type::Base(BaseRef::I32))),
        other => panic!("unexpected {:?}", other),
    }
    assert_eq!(s.fields["c"].offset, 8);
}

#[test]
fn anonymous_type_names() {
    assert_eq!(anonymous_name(&"<anonymous-tag>".to_string(), 0x1a2b), "__anonymous_1a2b");
    assert_eq!(anonymous_name(&"<unnamed-tag>".to_string(), 0x10), "__anonymous_10");
    assert_eq!(anonymous_name(&"__unnamed".to_string(), 0), "__anonymous_0");
    assert_eq!(anonymous_name(&"_EPROCESS".to_string(), 0x1000), "_EPROCESS");
    let t = table(vec![
        PdbRecord::FieldList { fields: vec![member("x", 0, T_INT4)], continuation: None },
        class("<anonymous-tag>", 4, Some(0x1000)),
        class("<anonymous-tag>", 4, Some(0x1000)),
    ]);
    let types = parse_types(&t).unwrap();
    assert!(types.structs.contains_key("__anonymous_1001"));
    assert!(types.structs.contains_key("__anonymous_1002"));
}

#[test]
fn enums_and_unions() {
    let t = table(vec![
        PdbRecord::FieldList {
            fields: vec![
                PdbField::Enumerate { name: Some("A".to_string()), value: PdbVariant::U8(1) },
                PdbField::Enumerate { name: None, value: PdbVariant::I16(-2) },
                PdbField::Enumerate { name: Some("C".to_string()), value: PdbVariant::I64(-3) },
            ],
            continuation: None,
        },
        PdbRecord::Enumeration {
            name: "_MODE".to_string(),
            forward_reference: false,
            underlying_type: T_INT4,
            fields: 0x1000,
        },
        PdbRecord::FieldList { fields: vec![member("a", 0, T_INT4), member("b", 0, T_UCHAR)], continuation: None },
        PdbRecord::Union { name: "_U".to_string(), forward_reference: false, size: 4, fields: 0x1002 },
    ]);
    let types = parse_types(&t).unwrap();
    let e = &types.enums["_MODE"];
    assert_eq!(e.fields.len(), 2);
    assert_eq!(e.fields["A"], Variant::U8(1));
    assert_eq!(e.fields["C"], Variant::I64(-3));
    assert!(matches!(e.subtype, Type::Base(BaseRef::I32)));
    assert_eq!(types.structs["_U"].kind, StructKind::Union);
    assert_eq!(types.structs["_U"].fields.len(), 2);
}

#[test]
fn type_translation() {
    let t = table(vec![
        PdbRecord::Array { element_type: T_INT4, dimensions: vec![2, 3] },
        PdbRecord::Modifier { underlying_type: 0x1000 },
        PdbRecord::Bitfield { underlying_type: T_INT4, length: 3, position: 5 },
        PdbRecord::Pointer { underlying_type: 0x1001 },
        PdbRecord::Procedure,
        PdbRecord::Other,
    ]);
    match type_new(&t, 0x1001, 0x1005, t.records.len()).unwrap() {
        Type::Array(a) => {
            assert_eq!(a.dims.to_vec(), vec![2, 3]);
            assert_eq!(a.size, 6);
        }
        other => panic!("unexpected {:?}", other),
    }
    match type_new(&t, 0x1002, 0x1005, t.records.len()).unwrap() {
        Type::Bitfield(b) => assert_eq!((b.bit_length, b.bit_position), (3, 5)),
        other => panic!("unexpected {:?}", other),
    }
    assert!(matches!(type_new(&t, 0x1003, 0x1005, t.records.len()).unwrap(), Type::Pointer(_)));
    assert!(matches!(type_new(&t, 0x1004, 0x1005, t.records.len()).unwrap(), Type::Function));
    assert!(matches!(
        type_new(&t, 0x1005, 0x1005, t.records.len()).unwrap(),
        Type::Base(BaseRef::Void)
    ));
    // Not yet read, and beyond the table.
    assert_eq!(type_new(&t, 0x1003, 0x1002, t.records.len()).unwrap_err(), PdbError::InvalidTypeStream);
    assert_eq!(type_new(&t, 0x2000, 0x3000, t.records.len()).unwrap_err(), PdbError::InvalidTypeStream);
}

#[test]
fn invalid_record_fails_the_stream() {
    let t = table(vec![class("_A", 0, None), PdbRecord::Invalid]);
    assert_eq!(parse_types(&t).unwrap_err(), PdbError::InvalidTypeStream);
    let t = table(vec![class("_B", 4, Some(0x1005))]);
    assert_eq!(parse_types(&t).unwrap_err(), PdbError::InvalidTypeStream);
}

#[test]
fn conflicting_classes_more_fields_win() {
    let small = PdbRecord::FieldList { fields: vec![member("a", 0, T_INT4)], continuation: None };
    let big = PdbRecord::FieldList {
        fields: vec![member("a", 0, T_INT4), member("b", 4, T_INT4)],
        continuation: None,
    };
    let one = table(vec![small.clone(), big.clone(), class("_T", 4, Some(0x1000)), class("_T", 8, Some(0x1001))]);
    let two = table(vec![small, big, class("_T", 8, Some(0x1001)), class("_T", 4, Some(0x1000))]);
    let a = parse_types(&one).unwrap();
    let b = parse_types(&two).unwrap();
    assert_eq!(format!("{:?}", a.structs), format!("{:?}", b.structs));
    assert_eq!(a.structs["_T"].size, 8);
}

#[test]
fn primitive_kinds_and_variants() {
    assert_eq!(from_primitive_kind(PdbPrimitiveKind::HRESULT), BaseRef::I32);
    assert_eq!(from_primitive_kind(PdbPrimitiveKind::UQuad), BaseRef::U64);
    assert_eq!(from_primitive_kind(PdbPrimitiveKind::WChar), BaseRef::Wchar);
    assert_eq!(from_primitive_kind(PdbPrimitiveKind::Other), BaseRef::Void);
    assert_eq!(convert_variant(PdbVariant::I32(-7)), Variant::I32(-7));
    assert_eq!(convert_variant(PdbVariant::U16(7)), Variant::U16(7));
}

#[test]
fn public_symbols_skip_unreadable_entries() {
    let symbols = parse_symbols(&vec![
        PdbPublicSymbol { name: Some("NtCreateFile".to_string()), rva: Some(0x1234) },
        PdbPublicSymbol { name: None, rva: Some(0x10) },
        PdbPublicSymbol { name: Some("NoAddress".to_string()), rva: None },
        PdbPublicSymbol { name: Some("PsActiveProcessHead".to_string()), rva: Some(0x437BC0) },
    ]);
    assert_eq!(symbols.0.len(), 2);
    assert_eq!(symbols.0["PsActiveProcessHead"], 0x437BC0);
}

#[test]
fn pdb_profile_end_to_end() {
    let t = table(vec![
        PdbRecord::FieldList { fields: vec![member("UniqueProcessId", 744, T_64PINT4)], continuation: None },
        class("_EPROCESS", 2176, Some(0x1000)),
    ]);
    let syms = vec![PdbPublicSymbol { name: Some("NtOpenFile".to_string()), rva: Some(0x100) }];
    let p = create_pdb_profile("Amd64".to_string(), &syms, &t).unwrap();
    let d = p.find_field_descriptor("_EPROCESS", "UniqueProcessId").unwrap();
    assert_eq!((d.offset(), d.size()), (744, 8));
    assert_eq!(p.find_symbol("NtOpenFile"), Some(0x100));
    let p32 = create_pdb_profile("X86".to_string(), &syms, &t).unwrap();
    assert_eq!(p32.find_field_descriptor("_EPROCESS", "UniqueProcessId").unwrap().size(), 4);
    assert!(matches!(
        create_pdb_profile("Ia64".to_string(), &syms, &t),
        Err(PdbProfileError::UnsupportedArchitecture)
    ));
    let bad = table(vec![PdbRecord::Invalid]);
    assert!(matches!(
        create_pdb_profile("Amd64".to_string(), &syms, &bad),
        Err(PdbProfileError::InvalidTypeStream)
    ));
}
