//! Normalization of PDB type records and public symbols into the model.
//!
//! The type stream is given as a table indexed by type index: positions
//! below `first` hold the primitive types, the others the stream's records
//! in order. The reader of the PDB file fills it.
use crate::maps::{
    field_entries, fields_insert, fields_new, lemma_put_map, map_vals, put, u64map_insert, variant_entries, variants_insert, variants_new,
};
use crate::merge::{
    enum_members, enum_views, merge_def, merge_enum, merge_struct, struct_members, struct_views,
};
use crate::profile::{Symbols, Types};
use crate::text::{hex_of, is_prefix, prefixed_hex, starts_with};
use crate::types::{
    dims_new, dims_of, dims_push, field_view, ArrayRef, BaseRef, BitfieldRef, Enum, EnumRef,
    EnumView, Field, PointerRef, Struct, StructKind, StructRef, StructView, Type, TypeView,
    Variant,
};
use indexmap::IndexMap;
use vstd::prelude::*;

verus! {

/// Primitive kinds of the PDB format.
#[derive(Debug, Clone, Copy, PartialEq, Eq, Structural)]
pub enum PdbPrimitiveKind {
    Void,
    Bool8,
    RChar,
    Char,
    UChar,
    WChar,
    I8,
    U8,
    I16,
    Short,
    U16,
    UShort,
    I32,
    Long,
    HRESULT,
    U32,
    ULong,
    I64,
    Quad,
    U64,
    UQuad,
    F32,
    F64,
    /// Any other primitive kind.
    Other,
}

/// An enumerator value as the PDB stores it.
#[derive(Debug, Clone, Copy, PartialEq, Eq, Structural)]
pub enum PdbVariant {
    U8(u8),
    U16(u16),
    U32(u32),
    U64(u64),
    I8(i8),
    I16(i16),
    I32(i32),
    I64(i64),
}

#[derive(Debug, Clone, Copy, PartialEq, Eq, Structural)]
pub enum PdbClassKind {
    Class,
    Struct,
    Interface,
}

/// An entry of a field list.
#[derive(Debug, Clone)]
pub enum PdbField {
    Member { name: String, offset: u64, field_type: u32 },
    /// An enumerator; its name is absent when it is not valid UTF-8.
    Enumerate { name: Option<String>, value: PdbVariant },
    Other,
}

/// A type record.
#[derive(Debug, Clone)]
pub enum PdbRecord {
    Primitive { kind: PdbPrimitiveKind, indirect: bool },
    Enumeration { name: String, forward_reference: bool, underlying_type: u32, fields: u32 },
    Class {
        name: String,
        forward_reference: bool,
        kind: PdbClassKind,
        size: u64,
        fields: Option<u32>,
    },
    Union { name: String, forward_reference: bool, size: u64, fields: u32 },
    Array { element_type: u32, dimensions: Vec<u32> },
    Pointer { underlying_type: u32 },
    Bitfield { underlying_type: u32, length: u8, position: u8 },
    Procedure,
    Modifier { underlying_type: u32 },
    FieldList { fields: Vec<PdbField>, continuation: Option<u32> },
    /// A record of a kind the normalizer does not read.
    Other,
    /// A record that could not be decoded.
    Invalid,
}

/// Type records by type index.
#[derive(Debug, Clone)]
pub struct PdbTypeTable {
    /// Index of the first record of the stream.
    pub first: u32,
    pub records: Vec<PdbRecord>,
}

/// The type stream cannot be read: a record is undecodable, or a type
/// index leads outside what has been read.
#[derive(Debug, Clone, Copy, PartialEq, Eq, Structural)]
pub enum PdbError {
    InvalidTypeStream,
}

/// The record of type index `idx` while the stream has been read up to
/// `limit`: none when it lies beyond, or could not be decoded.
pub open spec fn record_at(t: PdbTypeTable, idx: u32, limit: u32) -> Option<PdbRecord> {
    if idx <= limit && (idx as int) < t.records@.len() {
        match t.records@[idx as int] {
            PdbRecord::Invalid => None,
            r => Some(r),
        }
    } else {
        None
    }
}

fn record_of(t: &PdbTypeTable, idx: u32, limit: u32) -> (r: Option<&PdbRecord>)
    ensures
        match record_at(*t, idx, limit) {
            Some(x) => r matches Some(y) && *y == x,
            None => r is None,
        },
{
    if idx <= limit && (idx as usize) < t.records.len() {
        let rec = &t.records[idx as usize];
        match rec {
            PdbRecord::Invalid => None,
            _ => Some(rec),
        }
    } else {
        None
    }
}

/// Name of a user-defined type: its own, unless it is one of the
/// compiler's anonymous names, which become `__anonymous_<hex index>`.
pub open spec fn pdb_type_name(name: Seq<char>, index: u32) -> Seq<char> {
    if is_prefix("<anonymous-"@, name) || is_prefix("<unnamed-"@, name) || is_prefix(
        "__unnamed"@,
        name,
    ) {
        "__anonymous_"@ + hex_of(index as nat)
    } else {
        name
    }
}

/// Name of a user-defined type (see [`pdb_type_name`]).
pub fn anonymous_name(name: &String, index: u32) -> (r: String)
    ensures
        r@ == pdb_type_name(name@, index),
{
    if starts_with(name.as_str(), "<anonymous-") || starts_with(name.as_str(), "<unnamed-")
        || starts_with(name.as_str(), "__unnamed") {
        prefixed_hex("__anonymous_", index as u64)
    } else {
        name.clone()
    }
}

/// Base type of a primitive kind.
pub open spec fn primitive_base(k: PdbPrimitiveKind) -> BaseRef {
    match k {
        PdbPrimitiveKind::Void => BaseRef::Void,
        PdbPrimitiveKind::Bool8 => BaseRef::Bool,
        PdbPrimitiveKind::RChar | PdbPrimitiveKind::Char | PdbPrimitiveKind::UChar => BaseRef::Char,
        PdbPrimitiveKind::WChar => BaseRef::Wchar,
        PdbPrimitiveKind::I8 => BaseRef::I8,
        PdbPrimitiveKind::U8 => BaseRef::U8,
        PdbPrimitiveKind::I16 | PdbPrimitiveKind::Short => BaseRef::I16,
        PdbPrimitiveKind::U16 | PdbPrimitiveKind::UShort => BaseRef::U16,
        PdbPrimitiveKind::I32 | PdbPrimitiveKind::Long | PdbPrimitiveKind::HRESULT => BaseRef::I32,
        PdbPrimitiveKind::U32 | PdbPrimitiveKind::ULong => BaseRef::U32,
        PdbPrimitiveKind::I64 | PdbPrimitiveKind::Quad => BaseRef::I64,
        PdbPrimitiveKind::U64 | PdbPrimitiveKind::UQuad => BaseRef::U64,
        PdbPrimitiveKind::F32 => BaseRef::F32,
        PdbPrimitiveKind::F64 => BaseRef::F64,
        PdbPrimitiveKind::Other => BaseRef::Void,
    }
}

/// Base type of a primitive kind (see [`primitive_base`]).
pub fn from_primitive_kind(kind: PdbPrimitiveKind) -> (r: BaseRef)
    ensures
        r == primitive_base(kind),
{
    match kind {
        PdbPrimitiveKind::Void => BaseRef::Void,
        PdbPrimitiveKind::Bool8 => BaseRef::Bool,
        PdbPrimitiveKind::RChar | PdbPrimitiveKind::Char | PdbPrimitiveKind::UChar => BaseRef::Char,
        PdbPrimitiveKind::WChar => BaseRef::Wchar,
        PdbPrimitiveKind::I8 => BaseRef::I8,
        PdbPrimitiveKind::U8 => BaseRef::U8,
        PdbPrimitiveKind::I16 | PdbPrimitiveKind::Short => BaseRef::I16,
        PdbPrimitiveKind::U16 | PdbPrimitiveKind::UShort => BaseRef::U16,
        PdbPrimitiveKind::I32 | PdbPrimitiveKind::Long | PdbPrimitiveKind::HRESULT => BaseRef::I32,
        PdbPrimitiveKind::U32 | PdbPrimitiveKind::ULong => BaseRef::U32,
        PdbPrimitiveKind::I64 | PdbPrimitiveKind::Quad => BaseRef::I64,
        PdbPrimitiveKind::U64 | PdbPrimitiveKind::UQuad => BaseRef::U64,
        PdbPrimitiveKind::F32 => BaseRef::F32,
        PdbPrimitiveKind::F64 => BaseRef::F64,
        PdbPrimitiveKind::Other => BaseRef::Void,
    }
}

/// The model's variant for a PDB enumerator value, of the same width and
/// signedness.
pub open spec fn variant_from(v: PdbVariant) -> Variant {
    match v {
        PdbVariant::U8(x) => Variant::U8(x),
        PdbVariant::U16(x) => Variant::U16(x),
        PdbVariant::U32(x) => Variant::U32(x),
        PdbVariant::U64(x) => Variant::U64(x),
        PdbVariant::I8(x) => Variant::I8(x),
        PdbVariant::I16(x) => Variant::I16(x),
        PdbVariant::I32(x) => Variant::I32(x),
        PdbVariant::I64(x) => Variant::I64(x),
    }
}

/// Converts an enumerator value (see [`variant_from`]).
pub fn convert_variant(variant: PdbVariant) -> (r: Variant)
    ensures
        r == variant_from(variant),
{
    match variant {
        PdbVariant::U8(value) => Variant::U8(value),
        PdbVariant::U16(value) => Variant::U16(value),
        PdbVariant::U32(value) => Variant::U32(value),
        PdbVariant::U64(value) => Variant::U64(value),
        PdbVariant::I8(value) => Variant::I8(value),
        PdbVariant::I16(value) => Variant::I16(value),
        PdbVariant::I32(value) => Variant::I32(value),
        PdbVariant::I64(value) => Variant::I64(value),
    }
}

/// Product of the extents, when it fits in 64 bits; 0 otherwise.
pub open spec fn extent_product(d: Seq<u32>) -> u64
    decreases d.len(),
{
    if d.len() == 0 {
        1
    } else {
        let p = extent_product(d.drop_last());
        if p as int * d.last() as int <= u64::MAX && p != 0 {
            (p * d.last()) as u64
        } else {
            0
        }
    }
}

/// Type of type index `idx`, following at most `fuel` references; `None`
/// when a record cannot be read. Modifiers are transparent and kinds the
/// model has no place for read as `void`.
pub open spec fn pdb_type(t: PdbTypeTable, idx: u32, limit: u32, fuel: nat) -> Option<TypeView>
    decreases fuel,
{
    if fuel == 0 {
        Some(TypeView::Base(BaseRef::Void))
    } else {
        let next = (fuel - 1) as nat;
        match record_at(t, idx, limit) {
            None => None,
            Some(rec) => match rec {
                PdbRecord::Primitive { kind, indirect } => if indirect {
                    Some(TypeView::Pointer(Box::new(TypeView::Base(primitive_base(kind)))))
                } else {
                    Some(TypeView::Base(primitive_base(kind)))
                },
                PdbRecord::Enumeration { name, .. } => Some(
                    TypeView::Enum(pdb_type_name(name@, idx)),
                ),
                PdbRecord::Union { name, .. } => Some(TypeView::Struct(pdb_type_name(name@, idx))),
                PdbRecord::Class { name, .. } => Some(TypeView::Struct(pdb_type_name(name@, idx))),
                PdbRecord::Array { element_type, dimensions } => match pdb_type(
                    t,
                    element_type,
                    limit,
                    next,
                ) {
                    Some(e) => Some(
                        TypeView::Array(
                            Box::new(e),
                            dimensions@.map_values(|d: u32| d as u64),
                            extent_product(dimensions@),
                        ),
                    ),
                    None => None,
                },
                PdbRecord::Pointer { underlying_type } => match pdb_type(
                    t,
                    underlying_type,
                    limit,
                    next,
                ) {
                    Some(e) => Some(TypeView::Pointer(Box::new(e))),
                    None => None,
                },
                PdbRecord::Bitfield { underlying_type, length, position } => match pdb_type(
                    t,
                    underlying_type,
                    limit,
                    next,
                ) {
                    Some(e) => Some(TypeView::Bitfield(Box::new(e), length as u64, position as u64)),
                    None => None,
                },
                PdbRecord::Procedure => Some(TypeView::Function),
                PdbRecord::Modifier { underlying_type } => pdb_type(t, underlying_type, limit, next),
                _ => Some(TypeView::Base(BaseRef::Void)),
            },
        }
    }
}

/// The type-reference budget of a table: a chain of references that is not
/// circular visits each record at most once.
pub open spec fn table_fuel(t: PdbTypeTable) -> nat {
    t.records@.len()
}

fn array_dims(d: &Vec<u32>) -> (r: (crate::types::Dims, u64))
    ensures
        dims_of(r.0) == d@.map_values(|x: u32| x as u64),
        r.1 == extent_product(d@),
{
    let mut dims = dims_new();
    let mut product: u64 = 1;
    let mut i: usize = 0;
    while i < d.len()
        invariant
            i <= d@.len(),
            dims_of(dims) == d@.subrange(0, i as int).map_values(|x: u32| x as u64),
            product == extent_product(d@.subrange(0, i as int)),
        decreases d@.len() - i,
    {
        proof {
            assert(d@.subrange(0, i + 1).drop_last() == d@.subrange(0, i as int));
            assert(d@.subrange(0, i + 1).last() == d@[i as int]);
        }
        dims_push(&mut dims, d[i] as u64);
        proof {
            assert(d@.subrange(0, i + 1).map_values(|x: u32| x as u64) =~= d@.subrange(
                0,
                i as int,
            ).map_values(|x: u32| x as u64).push(d@[i as int] as u64));
        }
        if product != 0 {
            product = match product.checked_mul(d[i] as u64) {
                Some(p) => p,
                None => 0,
            };
        }
        i = i + 1;
    }
    proof {
        assert(d@.subrange(0, d@.len() as int) == d@);
    }
    (dims, product)
}

/// Type of type index `idx` (see [`pdb_type`]).
pub fn type_new(t: &PdbTypeTable, idx: u32, limit: u32, fuel: usize) -> (r: Result<Type, PdbError>)
    ensures
        match pdb_type(*t, idx, limit, fuel as nat) {
            Some(v) => r matches Ok(x) && x@ == v,
            None => r is Err,
        },
    decreases fuel,
{
    if fuel == 0 {
        return Ok(Type::Base(BaseRef::Void));
    }
    let next = fuel - 1;
    let rec = match record_of(t, idx, limit) {
        Some(rec) => rec,
        None => return Err(PdbError::InvalidTypeStream),
    };
    match rec {
        PdbRecord::Primitive { kind, indirect } => {
            if *indirect {
                let base = Type::Base(from_primitive_kind(*kind));
                assert(base@ == TypeView::Base(primitive_base(*kind)));
                Ok(Type::Pointer(PointerRef { subtype: Box::new(base) }))
            } else {
                Ok(Type::Base(from_primitive_kind(*kind)))
            }
        },
        PdbRecord::Enumeration { name, .. } => Ok(Type::Enum(EnumRef { name: anonymous_name(name, idx) })),
        PdbRecord::Union { name, .. } => Ok(Type::Struct(StructRef { name: anonymous_name(name, idx) })),
        PdbRecord::Class { name, .. } => Ok(Type::Struct(StructRef { name: anonymous_name(name, idx) })),
        PdbRecord::Array { element_type, dimensions } => {
            let sub = match type_new(t, *element_type, limit, next) {
                Ok(x) => x,
                Err(e) => return Err(e),
            };
            let (dims, size) = array_dims(dimensions);
            Ok(Type::Array(ArrayRef { subtype: Box::new(sub), dims, size }))
        },
        PdbRecord::Pointer { underlying_type } => {
            let sub = match type_new(t, *underlying_type, limit, next) {
                Ok(x) => x,
                Err(e) => return Err(e),
            };
            Ok(Type::Pointer(PointerRef { subtype: Box::new(sub) }))
        },
        PdbRecord::Bitfield { underlying_type, length, position } => {
            let sub = match type_new(t, *underlying_type, limit, next) {
                Ok(x) => x,
                Err(e) => return Err(e),
            };
            Ok(
                Type::Bitfield(
                    BitfieldRef {
                        subtype: Box::new(sub),
                        bit_length: *length as u64,
                        bit_position: *position as u64,
                    },
                ),
            )
        },
        PdbRecord::Procedure => Ok(Type::Function),
        PdbRecord::Modifier { underlying_type } => type_new(t, *underlying_type, limit, next),
        _ => Ok(Type::Base(BaseRef::Void)),
    }
}

/// Members `fs` of field list `list`, added in order to `acc`.
pub open spec fn member_fold(
    t: PdbTypeTable,
    list: u32,
    fs: Seq<PdbField>,
    limit: u32,
    acc: Seq<(Seq<char>, (u64, TypeView))>,
) -> Option<Seq<(Seq<char>, (u64, TypeView))>>
    decreases fs.len(),
{
    if fs.len() == 0 {
        Some(acc)
    } else {
        match member_fold(t, list, fs.drop_last(), limit, acc) {
            None => None,
            Some(a) => match fs.last() {
                PdbField::Member { name, offset, field_type } => match pdb_type(
                    t,
                    field_type,
                    limit,
                    table_fuel(t),
                ) {
                    Some(ty) => Some(put(a, pdb_type_name(name@, list), (offset, ty))),
                    None => None,
                },
                _ => Some(a),
            },
        }
    }
}

/// Members of the field-list chain that starts at `list`, added to `acc`;
/// at most `fuel` continuations are followed, and a record that is not a
/// field list adds nothing.
pub open spec fn struct_members_of(
    t: PdbTypeTable,
    list: u32,
    limit: u32,
    fuel: nat,
    acc: Seq<(Seq<char>, (u64, TypeView))>,
) -> Option<Seq<(Seq<char>, (u64, TypeView))>>
    decreases fuel,
{
    match record_at(t, list, limit) {
        None => None,
        Some(PdbRecord::FieldList { fields, continuation }) => match member_fold(
            t,
            list,
            fields@,
            limit,
            acc,
        ) {
            None => None,
            Some(a) => match continuation {
                None => Some(a),
                Some(c) => if fuel == 0 {
                    Some(a)
                } else {
                    struct_members_of(t, c, limit, (fuel - 1) as nat, a)
                },
            },
        },
        Some(_) => Some(acc),
    }
}

/// Enumerators `fs`, added in order to `acc`; those without a UTF-8 name
/// are left out.
pub open spec fn variant_fold(fs: Seq<PdbField>, acc: Seq<(Seq<char>, Variant)>) -> Seq<
    (Seq<char>, Variant),
>
    decreases fs.len(),
{
    if fs.len() == 0 {
        acc
    } else {
        let a = variant_fold(fs.drop_last(), acc);
        match fs.last() {
            PdbField::Enumerate { name: Some(n), value } => put(a, n@, variant_from(value)),
            _ => a,
        }
    }
}

/// Enumerators of the field-list chain that starts at `list`.
pub open spec fn enum_variants_of(
    t: PdbTypeTable,
    list: u32,
    limit: u32,
    fuel: nat,
    acc: Seq<(Seq<char>, Variant)>,
) -> Option<Seq<(Seq<char>, Variant)>>
    decreases fuel,
{
    match record_at(t, list, limit) {
        None => None,
        Some(PdbRecord::FieldList { fields, continuation }) => {
            let a = variant_fold(fields@, acc);
            match continuation {
                None => Some(a),
                Some(c) => if fuel == 0 {
                    Some(a)
                } else {
                    enum_variants_of(t, c, limit, (fuel - 1) as nat, a)
                },
            }
        },
        Some(_) => Some(acc),
    }
}

proof fn lemma_member_fold_none(
    t: PdbTypeTable,
    list: u32,
    fs: Seq<PdbField>,
    limit: u32,
    acc: Seq<(Seq<char>, (u64, TypeView))>,
    k: int,
)
    requires
        0 <= k <= fs.len(),
        member_fold(t, list, fs.subrange(0, k), limit, acc) is None,
    ensures
        member_fold(t, list, fs, limit, acc) is None,
    decreases fs.len(),
{
    if k == fs.len() {
        assert(fs.subrange(0, k) == fs);
    } else {
        assert(fs.drop_last().subrange(0, k) == fs.subrange(0, k));
        lemma_member_fold_none(t, list, fs.drop_last(), limit, acc, k);
    }
}

fn add_members(
    t: &PdbTypeTable,
    list: u32,
    limit: u32,
    fuel: usize,
    fields: &mut IndexMap<String, Field>,
) -> (r: Result<(), PdbError>)
    ensures
        match struct_members_of(
            *t,
            list,
            limit,
            fuel as nat,
            map_vals(field_entries(*old(fields)), |f: Field| field_view(f)),
        ) {
            Some(v) => r is Ok && map_vals(field_entries(*final(fields)), |f: Field| field_view(f))
                == v,
            None => r is Err,
        },
    decreases fuel,
{
    let ghost g = |f: Field| field_view(f);
    let rec = match record_of(t, list, limit) {
        Some(rec) => rec,
        None => return Err(PdbError::InvalidTypeStream),
    };
    match rec {
        PdbRecord::FieldList { fields: fs, continuation } => {
            let ghost start = map_vals(field_entries(*fields), g);
            let mut k: usize = 0;
            while k < fs.len()
                invariant
                    k <= fs@.len(),
                    start == map_vals(field_entries(*old(fields)), |f: Field| field_view(f)),
                    record_at(*t, list, limit) == Some(
                        PdbRecord::FieldList { fields: *fs, continuation: *continuation },
                    ),
                    g == (|f: Field| field_view(f)),
                    member_fold(*t, list, fs@.subrange(0, k as int), limit, start) == Some(
                        map_vals(field_entries(*fields), g),
                    ),
                decreases fs@.len() - k,
            {
                proof {
                    assert(fs@.subrange(0, k + 1).drop_last() == fs@.subrange(0, k as int));
                    assert(fs@.subrange(0, k + 1).last() == fs@[k as int]);
                }
                match &fs[k] {
                    PdbField::Member { name, offset, field_type } => {
                        let ty = match type_new(t, *field_type, limit, t.records.len()) {
                            Ok(ty) => ty,
                            Err(e) => {
                                proof {
                                    lemma_member_fold_none(*t, list, fs@, limit, start, k + 1);
                                }
                                return Err(e);
                            },
                        };
                        let f = Field { offset: *offset, type_: ty };
                        let n = anonymous_name(name, list);
                        proof {
                            lemma_put_map(field_entries(*fields), g, n@, f);
                        }
                        fields_insert(fields, n, f);
                    },
                    _ => {},
                }
                k = k + 1;
            }
            proof {
                assert(fs@.subrange(0, fs@.len() as int) == fs@);
            }
            match continuation {
                None => Ok(()),
                Some(c) => {
                    if fuel == 0 {
                        Ok(())
                    } else {
                        add_members(t, *c, limit, fuel - 1, fields)
                    }
                },
            }
        },
        _ => Ok(()),
    }
}

fn add_variants(
    t: &PdbTypeTable,
    list: u32,
    limit: u32,
    fuel: usize,
    variants: &mut IndexMap<String, Variant>,
) -> (r: Result<(), PdbError>)
    ensures
        match enum_variants_of(*t, list, limit, fuel as nat, variant_entries(*old(variants))) {
            Some(v) => r is Ok && variant_entries(*final(variants)) == v,
            None => r is Err,
        },
    decreases fuel,
{
    let rec = match record_of(t, list, limit) {
        Some(rec) => rec,
        None => return Err(PdbError::InvalidTypeStream),
    };
    match rec {
        PdbRecord::FieldList { fields: fs, continuation } => {
            let ghost start = variant_entries(*variants);
            let mut k: usize = 0;
            while k < fs.len()
                invariant
                    k <= fs@.len(),
                    variant_fold(fs@.subrange(0, k as int), start) == variant_entries(*variants),
                decreases fs@.len() - k,
            {
                proof {
                    assert(fs@.subrange(0, k + 1).drop_last() == fs@.subrange(0, k as int));
                    assert(fs@.subrange(0, k + 1).last() == fs@[k as int]);
                }
                match &fs[k] {
                    PdbField::Enumerate { name: Some(n), value } => {
                        variants_insert(variants, n.clone(), convert_variant(*value));
                    },
                    _ => {},
                }
                k = k + 1;
            }
            proof {
                assert(fs@.subrange(0, fs@.len() as int) == fs@);
            }
            match continuation {
                None => Ok(()),
                Some(c) => {
                    if fuel == 0 {
                        Ok(())
                    } else {
                        add_variants(t, *c, limit, fuel - 1, variants)
                    }
                },
            }
        },
        _ => Ok(()),
    }
}

pub open spec fn class_kind(k: PdbClassKind) -> StructKind {
    match k {
        PdbClassKind::Struct => StructKind::Struct,
        PdbClassKind::Class => StructKind::Class,
        PdbClassKind::Interface => StructKind::Interface,
    }
}

/// What ingestion has built so far.
pub struct PdbState {
    pub structs: Seq<(Seq<char>, StructView)>,
    pub enums: Seq<(Seq<char>, EnumView)>,
}

pub open spec fn types_state(types: Types) -> PdbState {
    PdbState { structs: struct_views(types.structs), enums: enum_views(types.enums) }
}

/// The stream record at `i`: complete enumerations, classes and unions are
/// offered to the collections (see [`merge_def`]); other records are passed
/// over; an undecodable one fails the ingestion.
pub open spec fn pdb_step(t: PdbTypeTable, i: u32, st: PdbState) -> Option<PdbState> {
    let fuel = table_fuel(t);
    match t.records@[i as int] {
        PdbRecord::Invalid => None,
        PdbRecord::Enumeration { name, forward_reference, underlying_type, fields } => if forward_reference {
            Some(st)
        } else {
            match (pdb_type(t, underlying_type, i, fuel), enum_variants_of(t, fields, i, fuel, Seq::empty())) {
                (Some(sub), Some(vs)) => Some(
                    PdbState {
                        enums: merge_def(
                            st.enums,
                            pdb_type_name(name@, i),
                            EnumView { subtype: sub, variants: vs },
                            |v: EnumView| enum_members(v),
                        ),
                        ..st
                    },
                ),
                _ => None,
            }
        },
        PdbRecord::Class { name, forward_reference, kind, size, fields } => if forward_reference {
            Some(st)
        } else {
            let members = match fields {
                Some(f) => struct_members_of(t, f, i, fuel, Seq::empty()),
                None => Some(Seq::empty()),
            };
            match members {
                Some(m) => Some(
                    PdbState {
                        structs: merge_def(
                            st.structs,
                            pdb_type_name(name@, i),
                            StructView { kind: class_kind(kind), size, fields: m },
                            |v: StructView| struct_members(v),
                        ),
                        ..st
                    },
                ),
                None => None,
            }
        },
        PdbRecord::Union { name, forward_reference, size, fields } => if forward_reference {
            Some(st)
        } else {
            match struct_members_of(t, fields, i, fuel, Seq::empty()) {
                Some(m) => Some(
                    PdbState {
                        structs: merge_def(
                            st.structs,
                            pdb_type_name(name@, i),
                            StructView { kind: StructKind::Union, size, fields: m },
                            |v: StructView| struct_members(v),
                        ),
                        ..st
                    },
                ),
                None => None,
            }
        },
        _ => Some(st),
    }
}

/// The stream records before position `k`, in order.
pub open spec fn pdb_ingest(t: PdbTypeTable, k: int) -> Option<PdbState>
    decreases k - t.first,
{
    if k <= t.first {
        Some(PdbState { structs: Seq::empty(), enums: Seq::empty() })
    } else {
        match pdb_ingest(t, k - 1) {
            None => None,
            Some(st) => pdb_step(t, (k - 1) as u32, st),
        }
    }
}

/// Types of a whole stream; none when it cannot be read, or when it holds
/// more records than type indices can name.
pub open spec fn pdb_types(t: PdbTypeTable) -> Option<PdbState> {
    if t.records@.len() > u32::MAX {
        None
    } else {
        pdb_ingest(t, t.records@.len() as int)
    }
}

proof fn lemma_ingest_none(t: PdbTypeTable, k: int, n: int)
    requires
        k <= n,
        pdb_ingest(t, k) is None,
    ensures
        pdb_ingest(t, n) is None,
    decreases n - k,
{
    if k < n {
        lemma_ingest_none(t, k, n - 1);
    }
}

/// Builds the type collections from a type stream.
pub fn parse_types(t: &PdbTypeTable) -> (r: Result<Types, PdbError>)
    ensures
        match pdb_types(*t) {
            Some(st) => r matches Ok(types) && types_state(types) == st,
            None => r is Err,
        },
{
    let n = t.records.len();
    if n > u32::MAX as usize {
        return Err(PdbError::InvalidTypeStream);
    }
    let fuel = n;
    let mut types = Types::new();
    proof {
        assert(struct_views(types.structs) =~= Seq::<(Seq<char>, StructView)>::empty());
        assert(enum_views(types.enums) =~= Seq::<(Seq<char>, EnumView)>::empty());
    }
    let mut i: usize = t.first as usize;
    if i > n {
        i = n;
        proof {
            assert(pdb_ingest(*t, n as int) == Some(PdbState { structs: Seq::empty(), enums: Seq::empty() }));
        }
    }
    while i < n
        invariant
            n == t.records@.len(),
            n <= u32::MAX,
            fuel == n,
            i <= n,
            i >= t.first || i == n,
            pdb_ingest(*t, i as int) == Some(types_state(types)),
        decreases n - i,
    {
        let idx = i as u32;
        let ghost before = types_state(types);
        match &t.records[i] {
            PdbRecord::Invalid => {
                proof {
                    lemma_ingest_none(*t, i + 1, n as int);
                }
                return Err(PdbError::InvalidTypeStream);
            },
            PdbRecord::Enumeration { name, forward_reference, underlying_type, fields } => {
                if !*forward_reference {
                    let sub = match type_new(t, *underlying_type, idx, fuel) {
                        Ok(x) => x,
                        Err(e) => {
                            proof {
                                lemma_ingest_none(*t, i + 1, n as int);
                            }
                            return Err(e);
                        },
                    };
                    let mut vs = variants_new();
                    match add_variants(t, *fields, idx, fuel, &mut vs) {
                        Ok(()) => {},
                        Err(e) => {
                            proof {
                                lemma_ingest_none(*t, i + 1, n as int);
                            }
                            return Err(e);
                        },
                    }
                    merge_enum(&mut types.enums, anonymous_name(name, idx), Enum { subtype: sub, fields: vs });
                }
            },
            PdbRecord::Class { name, forward_reference, kind, size, fields } => {
                if !*forward_reference {
                    let mut members = fields_new();
                    proof {
                        assert(map_vals(field_entries(members), |f: Field| field_view(f)) =~= Seq::<(Seq<char>, (u64, TypeView))>::empty());
                    }
                    match fields {
                        Some(f) => match add_members(t, *f, idx, fuel, &mut members) {
                            Ok(()) => {},
                            Err(e) => {
                                proof {
                                    lemma_ingest_none(*t, i + 1, n as int);
                                }
                                return Err(e);
                            },
                        },
                        None => {},
                    }
                    let k = match kind {
                        PdbClassKind::Struct => StructKind::Struct,
                        PdbClassKind::Class => StructKind::Class,
                        PdbClassKind::Interface => StructKind::Interface,
                    };
                    merge_struct(&mut types.structs, anonymous_name(name, idx), Struct { kind: k, size: *size, fields: members });
                }
            },
            PdbRecord::Union { name, forward_reference, size, fields } => {
                if !*forward_reference {
                    let mut members = fields_new();
                    proof {
                        assert(map_vals(field_entries(members), |f: Field| field_view(f)) =~= Seq::<(Seq<char>, (u64, TypeView))>::empty());
                    }
                    match add_members(t, *fields, idx, fuel, &mut members) {
                        Ok(()) => {},
                        Err(e) => {
                            proof {
                                lemma_ingest_none(*t, i + 1, n as int);
                            }
                            return Err(e);
                        },
                    }
                    merge_struct(&mut types.structs, anonymous_name(name, idx), Struct { kind: StructKind::Union, size: *size, fields: members });
                }
            },
            _ => {},
        }
        assert(pdb_step(*t, idx, before) == Some(types_state(types)));
        i = i + 1;
    }
    Ok(types)
}

/// A public symbol as read: its name when it is valid UTF-8, and its
/// address when the offset translates to one.
#[derive(Debug, Clone)]
pub struct PdbPublicSymbol {
    pub name: Option<String>,
    pub rva: Option<u32>,
}

/// The symbol table of a list of public symbols: those with a name and an
/// address, in order.
pub open spec fn pdb_symbol_entries(s: Seq<PdbPublicSymbol>) -> Seq<(Seq<char>, u64)>
    decreases s.len(),
{
    if s.len() == 0 {
        Seq::empty()
    } else {
        let acc = pdb_symbol_entries(s.drop_last());
        match (s.last().name, s.last().rva) {
            (Some(n), Some(a)) => put(acc, n@, a as u64),
            _ => acc,
        }
    }
}

/// Builds the symbol table; symbols without a UTF-8 name or an address are
/// dropped.
pub fn parse_symbols(symbols: &Vec<PdbPublicSymbol>) -> (r: Symbols)
    ensures
        r.entries() == pdb_symbol_entries(symbols@),
{
    let mut result = Symbols::new();
    let mut i: usize = 0;
    while i < symbols.len()
        invariant
            i <= symbols@.len(),
            result.entries() == pdb_symbol_entries(symbols@.subrange(0, i as int)),
        decreases symbols@.len() - i,
    {
        proof {
            assert(symbols@.subrange(0, i + 1).drop_last() == symbols@.subrange(0, i as int));
            assert(symbols@.subrange(0, i + 1).last() == symbols@[i as int]);
        }
        let s = &symbols[i];
        match (&s.name, s.rva) {
            (Some(n), Some(a)) => u64map_insert(&mut result.0, n.clone(), a as u64),
            _ => {},
        }
        i = i + 1;
    }
    proof {
        assert(symbols@.subrange(0, symbols@.len() as int) == symbols@);
    }
    result
}

} // verus!