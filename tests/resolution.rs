use indexmap::IndexMap;
use isr::offsets::{Bitfield, ConversionError, Error, FieldDescriptor};
use isr::profile::{pointer_size_of, Profile, ProfileError, Symbols, Types};
use isr::types::{
    ArrayRef, BaseRef, BitfieldRef, Dims, Enum, EnumRef, Field, PointerRef, Struct, StructKind,
    StructRef, Type, Variant,
};

fn base(b: BaseRef) -> Type {
    Type::Base(b)
}

fn field(offset: u64, type_: Type) -> Field {
    Field { offset, type_ }
}

fn strukt(size: u64, fields: Vec<(&str, Field)>) -> Struct {
    let mut map = IndexMap::new();
    for (name, f) in fields {
        map.insert(name.to_string(), f);
    }
    Struct { kind: StructKind::Struct, size, fields: map }
}

fn nested_profile() -> Profile {
    let mut types = Types::new();
    types.structs.insert(
        "Outer".to_string(),
        strukt(
            16,
            vec![
                ("base", field(8, Type::Struct(StructRef { name: "Base".to_string() }))),
                ("x", field(8, base(BaseRef::U64))),
            ],
        ),
    );
    types.structs.insert(
        "Head".to_string(),
        strukt(
            16,
            vec![
                ("base", field(0, Type::Struct(StructRef { name: "Base".to_string() }))),
                ("x", field(8, base(BaseRef::U64))),
            ],
        ),
    );
    types.structs.insert("Base".to_string(), strukt(4, vec![("id", field(0, base(BaseRef::U32)))]));
    types.structs.insert(
        "Flags".to_string(),
        strukt(
            8,
            vec![
                (
                    "RefCnt",
                    field(
                        0,
                        Type::Bitfield(BitfieldRef {
                            subtype: Box::new(base(BaseRef::U64)),
                            bit_length: 4,
                            bit_position: 0,
                        }),
                    ),
                ),
                ("Value", field(0, base(BaseRef::U64))),
            ],
        ),
    );
    types.structs.insert(
        "Holder".to_string(),
        strukt(
            24,
            vec![
                ("pad", field(0, base(BaseRef::U64))),
                ("flags", field(16, Type::Struct(StructRef { name: "Flags".to_string() }))),
            ],
        ),
    );
    let mut fields = IndexMap::new();
    fields.insert("A".to_string(), Variant::U32(0));
    types.enums.insert("Color".to_string(), Enum { subtype: base(BaseRef::U32), fields });
    let mut symbols = Symbols::new();
    symbols.0.insert("PsActiveProcessHead".to_string(), 0x437BC0);
    Profile::new("Amd64".to_string(), symbols, types).unwrap()
}

#[test]
fn nested_field_resolution() {
    let p = nested_profile();
    match p.find_field_descriptor("Outer", "id").unwrap() {
        FieldDescriptor::Field(f) => {
            assert_eq!(f.offset, 8);
            assert_eq!(f.size, 4);
        }
        FieldDescriptor::Bitfield(_) => panic!("expected a plain field"),
    }
    let d = p.find_field_descriptor("Head", "id").unwrap();
    assert_eq!(d.offset(), 0);
    assert_eq!(d.size(), 4);
    let d = p.find_field_descriptor("Outer", "x").unwrap();
    assert_eq!(d.offset(), 8);
    assert_eq!(d.size(), 8);
}

#[test]
fn nested_bitfield_keeps_bits() {
    let p = nested_profile();
    match p.find_field_descriptor("Holder", "RefCnt").unwrap() {
        FieldDescriptor::Bitfield(b) => {
            assert_eq!(b.offset, 16);
            assert_eq!(b.size, 8);
            assert_eq!(b.bit_position, 0);
            assert_eq!(b.bit_length, 4);
        }
        FieldDescriptor::Field(_) => panic!("expected a bit-field"),
    }
    let b = p.find_bitfield("Holder", "RefCnt").unwrap();
    assert_eq!(b.offset, 16);
    assert!(p.find_bitfield("Holder", "Value").is_none());
    let f = p.find_field("Holder", "RefCnt").unwrap();
    assert_eq!((f.offset, f.size), (16, 8));
}

#[test]
fn bitfield_extraction() {
    let low = Bitfield { offset: 0, size: 8, bit_position: 0, bit_length: 4 };
    assert_eq!(low.value_from(0x1234567890abcdef), 0xf);
    let next = Bitfield { offset: 0, size: 8, bit_position: 4, bit_length: 4 };
    assert_eq!(next.value_from(0x1234567890abcdef), 0xe);
    let whole = Bitfield { offset: 0, size: 8, bit_position: 0, bit_length: 64 };
    assert_eq!(whole.value_from(0x1234567890abcdef), 0x1234567890abcdef);
    let high = Bitfield { offset: 0, size: 8, bit_position: 60, bit_length: 8 };
    assert_eq!(high.value_from(0x1234567890abcdef), 0x1);
    let beyond = Bitfield { offset: 0, size: 8, bit_position: 64, bit_length: 4 };
    assert_eq!(beyond.value_from(u64::MAX), 0);
}

#[test]
fn unknown_names_are_not_found() {
    let p = nested_profile();
    assert_eq!(p.find_symbol("NoSuchSymbol"), None);
    assert!(p.find_struct("NoSuchStruct").is_none());
    assert!(p.find_enum("NoSuchEnum").is_none());
    match p.find_field_descriptor("NoSuchStruct", "id") {
        Err(Error::TypeNotFound(name)) => assert_eq!(name, "NoSuchStruct"),
        other => panic!("unexpected {:?}", other),
    }
    match p.find_field_descriptor("Outer", "nope") {
        Err(Error::FieldNotFound { struct_name, field_name }) => {
            assert_eq!(struct_name, "Outer");
            assert_eq!(field_name, "nope");
        }
        other => panic!("unexpected {:?}", other),
    }
    match p.find_symbol_descriptor("NoSuchSymbol") {
        Err(Error::SymbolNotFound(name)) => assert_eq!(name, "NoSuchSymbol"),
        other => panic!("unexpected {:?}", other),
    }
    assert!(p.find_field("Outer", "nope").is_none());
    assert!(p.find_bitfield("Outer", "nope").is_none());
}

#[test]
fn symbol_lookup() {
    let p = nested_profile();
    assert_eq!(p.find_symbol("PsActiveProcessHead"), Some(0x437BC0));
    assert_eq!(p.find_symbol_descriptor("PsActiveProcessHead").unwrap().offset, 0x437BC0);
}

#[test]
fn base_type_sizes() {
    let p = nested_profile();
    let expected = [
        (BaseRef::Void, 0),
        (BaseRef::Bool, 1),
        (BaseRef::Char, 1),
        (BaseRef::Wchar, 2),
        (BaseRef::I8, 1),
        (BaseRef::I16, 2),
        (BaseRef::I32, 4),
        (BaseRef::I64, 8),
        (BaseRef::I128, 16),
        (BaseRef::U8, 1),
        (BaseRef::U16, 2),
        (BaseRef::U32, 4),
        (BaseRef::U64, 8),
        (BaseRef::U128, 16),
        (BaseRef::F8, 1),
        (BaseRef::F16, 2),
        (BaseRef::F32, 4),
        (BaseRef::F64, 8),
        (BaseRef::F128, 16),
    ];
    let q = Profile::new("X86".to_string(), Symbols::new(), Types::new()).unwrap();
    for (b, size) in expected {
        assert_eq!(p.type_size(&Type::Base(b)), Some(size));
        assert_eq!(q.type_size(&Type::Base(b)), Some(size));
        assert_eq!(p.base_size(&b), size);
    }
}

#[test]
fn pointer_size_by_architecture() {
    for (arch, size) in [("X86", 4), ("Arm", 4), ("Amd64", 8), ("Arm64", 8)] {
        let p = Profile::new(arch.to_string(), Symbols::new(), Types::new()).unwrap();
        assert_eq!(p.pointer_size(), size);
        assert_eq!(p.architecture(), arch);
        let ptr = Type::Pointer(PointerRef { subtype: Box::new(Type::Base(BaseRef::Void)) });
        assert_eq!(p.type_size(&ptr), Some(size));
        assert_eq!(p.type_size(&Type::Function), Some(size));
    }
    assert_eq!(pointer_size_of(&"Mips".to_string()), None);
    for arch in ["Mips", "x86", "", "Amd64 "] {
        match Profile::new(arch.to_string(), Symbols::new(), Types::new()) {
            Err(e) => assert_eq!(e, ProfileError::UnsupportedArchitecture),
            Ok(_) => panic!("architecture {arch:?} accepted"),
        }
    }
}

#[test]
fn composite_type_sizes() {
    let p = nested_profile();
    assert_eq!(p.type_size(&Type::Enum(EnumRef { name: "Color".to_string() })), Some(4));
    assert_eq!(p.type_size(&Type::Enum(EnumRef { name: "Missing".to_string() })), None);
    assert_eq!(p.type_size(&Type::Struct(StructRef { name: "Outer".to_string() })), Some(16));
    assert_eq!(p.type_size(&Type::Struct(StructRef { name: "Missing".to_string() })), None);
    let mut dims = Dims::new();
    dims.push(10);
    let array = Type::Array(ArrayRef { subtype: Box::new(base(BaseRef::U32)), dims, size: 10 });
    assert_eq!(p.type_size(&array), Some(4));
    assert_eq!(p.enum_size("Color"), Some(4));
    assert_eq!(p.struct_size("Base"), Some(4));
    assert_eq!(p.struct_size("Missing"), None);
}

#[test]
fn circular_enum_has_no_size() {
    let mut types = Types::new();
    types.enums.insert(
        "A".to_string(),
        Enum { subtype: Type::Enum(EnumRef { name: "B".to_string() }), fields: IndexMap::new() },
    );
    types.enums.insert(
        "B".to_string(),
        Enum { subtype: Type::Enum(EnumRef { name: "A".to_string() }), fields: IndexMap::new() },
    );
    let p = Profile::new("Amd64".to_string(), Symbols::new(), types).unwrap();
    assert_eq!(p.enum_size("A"), None);
}

#[test]
fn circular_embedding_terminates() {
    let mut types = Types::new();
    types.structs.insert(
        "Loop".to_string(),
        strukt(8, vec![("self_", field(0, Type::Struct(StructRef { name: "Loop".to_string() })))]),
    );
    let p = Profile::new("Amd64".to_string(), Symbols::new(), types).unwrap();
    assert!(p.find_field_descriptor("Loop", "missing").is_err());
}

#[test]
fn descriptor_conversions() {
    let p = nested_profile();
    let plain = p.find_field_descriptor("Base", "id").unwrap();
    let bits = p.find_field_descriptor("Flags", "RefCnt").unwrap();
    assert_eq!(plain.into_field().unwrap().size, 4);
    assert_eq!(plain.into_offset(), 0);
    match plain.into_bitfield() {
        Err(Error::Conversion(e)) => assert_eq!(e, ConversionError::ExpectedBitfield),
        other => panic!("unexpected {:?}", other),
    }
    match bits.into_field() {
        Err(Error::Conversion(e)) => assert_eq!(e, ConversionError::ExpectedField),
        other => panic!("unexpected {:?}", other),
    }
    assert_eq!(bits.into_bitfield().unwrap().bit_length, 4);
}

#[test]
fn error_constructors() {
    match Error::field_not_found("T".to_string(), "f".to_string()) {
        Error::FieldNotFound { struct_name, field_name } => {
            assert_eq!((struct_name.as_str(), field_name.as_str()), ("T", "f"))
        }
        _ => panic!(),
    }
    assert!(matches!(Error::type_not_found("T".to_string()), Error::TypeNotFound(n) if n == "T"));
    assert!(
        matches!(Error::symbol_not_found("S".to_string()), Error::SymbolNotFound(n) if n == "S")
    );
}
