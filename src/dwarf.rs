//! Normalization of DWARF debugging information into the model.
//!
//! A compilation unit is given as an arena of entries: each entry lists the
//! positions of its children, and its type attribute is the position of the
//! entry it refers to. The reader of the object file fills it.
use crate::maps::{
    fields_insert, fields_len, fields_new, lemma_put_map, map_vals, put,
    variants_insert, variants_len, variants_new,
};
use crate::merge::{
    enum_members, enum_views, merge_def, merge_enum, merge_struct, struct_members, struct_views,
    DeclCache,
};
use crate::profile::Types;
use crate::text::{hex_of, prefixed_hex};
use crate::types::{
    dims_new, dims_of, dims_push, field_view, ArrayRef, BaseRef, BitfieldRef, Enum, EnumRef,
    EnumView, Field, PointerRef, Struct, StructKind, StructRef, StructView, Type, TypeView,
    Variant,
};
use vstd::prelude::*;

verus! {

pub const DW_TAG_ARRAY_TYPE: u16 = 0x01;
pub const DW_TAG_ENUMERATION_TYPE: u16 = 0x04;
pub const DW_TAG_MEMBER: u16 = 0x0d;
pub const DW_TAG_POINTER_TYPE: u16 = 0x0f;
pub const DW_TAG_STRUCTURE_TYPE: u16 = 0x13;
pub const DW_TAG_SUBROUTINE_TYPE: u16 = 0x15;
pub const DW_TAG_TYPEDEF: u16 = 0x16;
pub const DW_TAG_UNION_TYPE: u16 = 0x17;
pub const DW_TAG_SUBRANGE_TYPE: u16 = 0x21;
pub const DW_TAG_BASE_TYPE: u16 = 0x24;
pub const DW_TAG_CONST_TYPE: u16 = 0x26;
pub const DW_TAG_ENUMERATOR: u16 = 0x28;
pub const DW_TAG_VOLATILE_TYPE: u16 = 0x35;

pub const DW_ATE_BOOLEAN: u8 = 0x02;
pub const DW_ATE_FLOAT: u8 = 0x04;
pub const DW_ATE_SIGNED: u8 = 0x05;
pub const DW_ATE_SIGNED_CHAR: u8 = 0x06;
pub const DW_ATE_UNSIGNED: u8 = 0x07;
pub const DW_ATE_UNSIGNED_CHAR: u8 = 0x08;

/// One debugging-information entry, with the attributes the normalizer
/// reads.
#[derive(Debug, Clone)]
pub struct DwarfEntry {
    pub tag: u16,
    /// Offset of the entry within its section.
    pub offset: u64,
    pub name: Option<String>,
    /// Position of the entry named by the type attribute.
    pub type_ref: Option<usize>,
    pub declaration: bool,
    pub decl_file: Option<String>,
    pub decl_line: Option<u64>,
    pub decl_column: Option<u64>,
    pub byte_size: Option<u64>,
    pub bit_size: Option<u64>,
    pub data_bit_offset: Option<u64>,
    pub data_member_location: Option<u64>,
    pub encoding: Option<u8>,
    pub count: Option<u64>,
    pub upper_bound: Option<u64>,
    /// The constant value read as unsigned data, where it reads as such.
    pub const_udata: Option<u64>,
    /// The constant value read as signed data, where it reads as such.
    pub const_sdata: Option<i64>,
    /// Positions of the children, in order.
    pub children: Vec<usize>,
}

/// A compilation unit: its entries, and the positions of the root's children.
#[derive(Debug, Clone)]
pub struct DwarfUnit {
    pub entries: Vec<DwarfEntry>,
    pub top: Vec<usize>,
}

/// Why a unit cannot be normalized.
#[derive(Debug, Clone, Copy, PartialEq, Eq, Structural)]
pub enum DwarfError {
    /// An entry refers to a position outside the unit.
    InvalidReference,
}

impl DwarfUnit {
    /// Every reference stays inside the unit.
    pub open spec fn wf(&self) -> bool {
        &&& forall|i: int| 0 <= i < self.top@.len() ==> #[trigger] self.top@[i] < self.entries@.len()
        &&& forall|i: int|
            0 <= i < self.entries@.len() ==> ((#[trigger] self.entries@[i]).type_ref matches Some(
                t,
            ) ==> t < self.entries@.len())
        &&& forall|i: int, j: int|
            0 <= i < self.entries@.len() && 0 <= j < self.entries@[i].children@.len()
                ==> #[trigger] self.entries@[i].children@[j] < self.entries@.len()
    }

    /// Checks that every reference stays inside the unit.
    pub fn check(&self) -> (r: bool)
        ensures
            r == self.wf(),
    {
        let n = self.entries.len();
        let mut i: usize = 0;
        while i < self.top.len()
            invariant
                n == self.entries@.len(),
                i <= self.top@.len(),
                forall|k: int| 0 <= k < i ==> #[trigger] self.top@[k] < n,
            decreases self.top@.len() - i,
        {
            if self.top[i] >= n {
                return false;
            }
            i = i + 1;
        }
        let mut i: usize = 0;
        while i < n
            invariant
                n == self.entries@.len(),
                i <= n,
                forall|k: int| 0 <= k < self.top@.len() ==> #[trigger] self.top@[k] < n,
                forall|k: int|
                    0 <= k < i ==> ((#[trigger] self.entries@[k]).type_ref matches Some(t) ==> t < n),
                forall|k: int, j: int|
                    0 <= k < i && 0 <= j < self.entries@[k].children@.len()
                        ==> #[trigger] self.entries@[k].children@[j] < n,
            decreases n - i,
        {
            let e = &self.entries[i];
            match e.type_ref {
                Some(t) => {
                    if t >= n {
                        return false;
                    }
                },
                None => {},
            }
            let mut j: usize = 0;
            while j < e.children.len()
                invariant
                    n == self.entries@.len(),
                    i < n,
                    e == self.entries@[i as int],
                    j <= e.children@.len(),
                    forall|m: int| 0 <= m < j ==> #[trigger] e.children@[m] < n,
                decreases e.children@.len() - j,
            {
                if e.children[j] >= n {
                    return false;
                }
                j = j + 1;
            }
            i = i + 1;
        }
        true
    }
}

/// Name of a type entry: its own, or one made from its offset.
pub open spec fn entry_name(e: DwarfEntry) -> Seq<char> {
    match e.name {
        Some(n) => n@,
        None => "__unnamed_"@ + hex_of(e.offset as nat),
    }
}

fn type_name_of(e: &DwarfEntry) -> (r: String)
    ensures
        r@ == entry_name(*e),
{
    match &e.name {
        Some(n) => n.clone(),
        None => prefixed_hex("__unnamed_", e.offset),
    }
}

/// Unsigned integer base type of a byte size.
pub open spec fn unsigned_of(n: u64) -> BaseRef {
    if n == 1 {
        BaseRef::U8
    } else if n == 2 {
        BaseRef::U16
    } else if n == 4 {
        BaseRef::U32
    } else if n == 8 {
        BaseRef::U64
    } else if n == 16 {
        BaseRef::U128
    } else {
        BaseRef::Void
    }
}

/// Signed integer base type of a byte size.
pub open spec fn signed_of(n: u64) -> BaseRef {
    if n == 1 {
        BaseRef::I8
    } else if n == 2 {
        BaseRef::I16
    } else if n == 4 {
        BaseRef::I32
    } else if n == 8 {
        BaseRef::I64
    } else if n == 16 {
        BaseRef::I128
    } else {
        BaseRef::Void
    }
}

/// Base type of an encoding and byte size; unknown encodings read as
/// unsigned integers, unsupported sizes as `Void`.
pub open spec fn base_of(byte_size: Option<u64>, encoding: Option<u8>) -> BaseRef {
    match byte_size {
        None => BaseRef::Void,
        Some(n) => if n == 0 {
            BaseRef::Void
        } else {
            match encoding {
                None => unsigned_of(n),
                Some(enc) => if enc == DW_ATE_BOOLEAN {
                    if n == 1 {
                        BaseRef::Bool
                    } else {
                        BaseRef::Void
                    }
                } else if enc == DW_ATE_SIGNED || enc == DW_ATE_SIGNED_CHAR {
                    signed_of(n)
                } else if enc == DW_ATE_UNSIGNED || enc == DW_ATE_UNSIGNED_CHAR {
                    unsigned_of(n)
                } else if enc == DW_ATE_FLOAT {
                    if n == 4 {
                        BaseRef::F32
                    } else if n == 8 {
                        BaseRef::F64
                    } else {
                        BaseRef::Void
                    }
                } else {
                    unsigned_of(n)
                },
            }
        },
    }
}

fn unsigned_base(n: u64) -> (r: BaseRef)
    ensures
        r == unsigned_of(n),
{
    if n == 1 {
        BaseRef::U8
    } else if n == 2 {
        BaseRef::U16
    } else if n == 4 {
        BaseRef::U32
    } else if n == 8 {
        BaseRef::U64
    } else if n == 16 {
        BaseRef::U128
    } else {
        BaseRef::Void
    }
}

fn signed_base(n: u64) -> (r: BaseRef)
    ensures
        r == signed_of(n),
{
    if n == 1 {
        BaseRef::I8
    } else if n == 2 {
        BaseRef::I16
    } else if n == 4 {
        BaseRef::I32
    } else if n == 8 {
        BaseRef::I64
    } else if n == 16 {
        BaseRef::I128
    } else {
        BaseRef::Void
    }
}

/// Base type of a base-type entry.
pub fn type_from_base_type(e: &DwarfEntry) -> (r: BaseRef)
    ensures
        r == base_of(e.byte_size, e.encoding),
{
    let n = match e.byte_size {
        Some(n) => n,
        None => return BaseRef::Void,
    };
    if n == 0 {
        return BaseRef::Void;
    }
    match e.encoding {
        None => unsigned_base(n),
        Some(enc) => {
            if enc == DW_ATE_BOOLEAN {
                if n == 1 {
                    BaseRef::Bool
                } else {
                    BaseRef::Void
                }
            } else if enc == DW_ATE_SIGNED || enc == DW_ATE_SIGNED_CHAR {
                signed_base(n)
            } else if enc == DW_ATE_UNSIGNED || enc == DW_ATE_UNSIGNED_CHAR {
                unsigned_base(n)
            } else if enc == DW_ATE_FLOAT {
                if n == 4 {
                    BaseRef::F32
                } else if n == 8 {
                    BaseRef::F64
                } else {
                    BaseRef::Void
                }
            } else {
                unsigned_base(n)
            }
        },
    }
}

/// Element count of a subrange: its count, or its upper bound plus one.
pub open spec fn subrange_count(e: DwarfEntry) -> Option<u64> {
    match e.count {
        Some(c) => Some(c),
        None => match e.upper_bound {
            Some(b) => if b < u64::MAX {
                Some((b + 1) as u64)
            } else {
                None
            },
            None => None,
        },
    }
}

/// Extents of the subrange children `cs` of an array entry.
pub open spec fn subrange_dims(u: DwarfUnit, cs: Seq<usize>) -> Seq<Option<u64>>
    decreases cs.len(),
{
    if cs.len() == 0 {
        Seq::empty()
    } else {
        let rest = subrange_dims(u, cs.drop_last());
        let c = cs.last() as int;
        if 0 <= c < u.entries@.len() && u.entries@[c].tag == DW_TAG_SUBRANGE_TYPE {
            rest.push(subrange_count(u.entries@[c]))
        } else {
            rest
        }
    }
}

pub open spec fn or_zero(d: Option<u64>) -> u64 {
    match d {
        Some(x) => x,
        None => 0,
    }
}

/// Type of the entry at `i` from its type attribute: `void` without one,
/// a bit-field when the entry has a bit size. At most `fuel` references
/// are followed.
pub open spec fn member_type(u: DwarfUnit, i: int, fuel: nat) -> TypeView
    decreases fuel, 1int,
{
    let e = u.entries@[i];
    match e.type_ref {
        None => TypeView::Base(BaseRef::Void),
        Some(t) => match e.bit_size {
            Some(len) => TypeView::Bitfield(
                Box::new(target_type(u, t as int, fuel)),
                len,
                (or_zero(e.data_bit_offset) % 8) as u64,
            ),
            None => target_type(u, t as int, fuel),
        },
    }
}

/// Type described by the entry at `t`. Pointers, arrays, typedefs and
/// qualifiers follow their own type attribute; unknown tags read as `void`.
pub open spec fn target_type(u: DwarfUnit, t: int, fuel: nat) -> TypeView
    decreases fuel, 0int,
{
    if fuel == 0 || !(0 <= t < u.entries@.len()) {
        TypeView::Base(BaseRef::Void)
    } else {
        let e = u.entries@[t];
        let next = (fuel - 1) as nat;
        if e.tag == DW_TAG_BASE_TYPE {
            TypeView::Base(base_of(e.byte_size, e.encoding))
        } else if e.tag == DW_TAG_ENUMERATION_TYPE {
            TypeView::Enum(entry_name(e))
        } else if e.tag == DW_TAG_STRUCTURE_TYPE || e.tag == DW_TAG_UNION_TYPE {
            TypeView::Struct(entry_name(e))
        } else if e.tag == DW_TAG_ARRAY_TYPE {
            let dims = subrange_dims(u, e.children@);
            TypeView::Array(
                Box::new(member_type(u, t, next)),
                dims.map_values(|d: Option<u64>| or_zero(d)),
                if dims.len() > 0 {
                    or_zero(dims[0])
                } else {
                    0
                },
            )
        } else if e.tag == DW_TAG_POINTER_TYPE {
            TypeView::Pointer(Box::new(member_type(u, t, next)))
        } else if e.tag == DW_TAG_SUBROUTINE_TYPE {
            TypeView::Function
        } else if e.tag == DW_TAG_TYPEDEF || e.tag == DW_TAG_CONST_TYPE || e.tag
            == DW_TAG_VOLATILE_TYPE {
            member_type(u, t, next)
        } else {
            TypeView::Base(BaseRef::Void)
        }
    }
}

/// The type-reference budget for a unit: a chain of references that is not
/// circular visits each entry at most once.
pub open spec fn unit_fuel(u: DwarfUnit) -> nat {
    u.entries@.len()
}

fn subrange_count_of(e: &DwarfEntry) -> (r: Option<u64>)
    ensures
        r == subrange_count(*e),
{
    match e.count {
        Some(c) => Some(c),
        None => match e.upper_bound {
            Some(b) => b.checked_add(1),
            None => None,
        },
    }
}

/// Extents and element count of an array entry.
fn array_dims(u: &DwarfUnit, a: usize) -> (r: (crate::types::Dims, u64))
    requires
        u.wf(),
        a < u.entries@.len(),
    ensures
        ({
            let dims = subrange_dims(*u, u.entries@[a as int].children@);
            &&& dims_of(r.0) == dims.map_values(|d: Option<u64>| or_zero(d))
            &&& r.1 == if dims.len() > 0 {
                or_zero(dims[0])
            } else {
                0
            }
        }),
{
    let cs = &u.entries[a].children;
    let mut dims = dims_new();
    let mut first: Option<Option<u64>> = None;
    let mut i: usize = 0;
    while i < cs.len()
        invariant
            u.wf(),
            a < u.entries@.len(),
            cs == u.entries@[a as int].children,
            i <= cs@.len(),
            ({
                let d = subrange_dims(*u, cs@.subrange(0, i as int));
                &&& dims_of(dims) == d.map_values(|x: Option<u64>| or_zero(x))
                &&& first == if d.len() > 0 {
                    Some(d[0])
                } else {
                    None::<Option<u64>>
                }
            }),
        decreases cs@.len() - i,
    {
        let c = cs[i];
        proof {
            assert(cs@.subrange(0, i + 1).drop_last() == cs@.subrange(0, i as int));
            assert(cs@.subrange(0, i + 1).last() == c);
        }
        let e = &u.entries[c];
        if e.tag == DW_TAG_SUBRANGE_TYPE {
            let n = subrange_count_of(e);
            let ghost before = dims_of(dims);
            dims_push(&mut dims, or_zero_of(n));
            if first.is_none() {
                first = Some(n);
            }
            proof {
                let d = subrange_dims(*u, cs@.subrange(0, i as int));
                assert(d.push(n).map_values(|x: Option<u64>| or_zero(x)) =~= d.map_values(
                    |x: Option<u64>| or_zero(x),
                ).push(or_zero(n)));
            }
        }
        i = i + 1;
    }
    proof {
        assert(cs@.subrange(0, cs@.len() as int) == cs@);
    }
    let total = match first {
        Some(d) => or_zero_of(d),
        None => 0,
    };
    (dims, total)
}

fn or_zero_of(d: Option<u64>) -> (r: u64)
    ensures
        r == or_zero(d),
{
    match d {
        Some(x) => x,
        None => 0,
    }
}

/// Type of the entry at `i` from its type attribute (see [`member_type`]).
pub fn type_new(u: &DwarfUnit, i: usize, fuel: usize) -> (r: Type)
    requires
        u.wf(),
        i < u.entries@.len(),
    ensures
        r@ == member_type(*u, i as int, fuel as nat),
    decreases fuel, 1int,
{
    let e = &u.entries[i];
    match e.type_ref {
        None => Type::Base(BaseRef::Void),
        Some(t) => match e.bit_size {
            Some(len) => {
                let sub = type_from_type(u, t, fuel);
                Type::Bitfield(
                    BitfieldRef {
                        subtype: Box::new(sub),
                        bit_length: len,
                        bit_position: or_zero_of(e.data_bit_offset) % 8,
                    },
                )
            },
            None => type_from_type(u, t, fuel),
        },
    }
}

/// Type described by the entry at `t` (see [`target_type`]).
pub fn type_from_type(u: &DwarfUnit, t: usize, fuel: usize) -> (r: Type)
    requires
        u.wf(),
    ensures
        r@ == target_type(*u, t as int, fuel as nat),
    decreases fuel, 0int,
{
    if fuel == 0 || t >= u.entries.len() {
        return Type::Base(BaseRef::Void);
    }
    let e = &u.entries[t];
    let next = fuel - 1;
    if e.tag == DW_TAG_BASE_TYPE {
        Type::Base(type_from_base_type(e))
    } else if e.tag == DW_TAG_ENUMERATION_TYPE {
        Type::Enum(EnumRef { name: type_name_of(e) })
    } else if e.tag == DW_TAG_STRUCTURE_TYPE || e.tag == DW_TAG_UNION_TYPE {
        Type::Struct(StructRef { name: type_name_of(e) })
    } else if e.tag == DW_TAG_ARRAY_TYPE {
        let (dims, size) = array_dims(u, t);
        let sub = type_new(u, t, next);
        Type::Array(ArrayRef { subtype: Box::new(sub), dims, size })
    } else if e.tag == DW_TAG_POINTER_TYPE {
        let sub = type_new(u, t, next);
        Type::Pointer(PointerRef { subtype: Box::new(sub) })
    } else if e.tag == DW_TAG_SUBROUTINE_TYPE {
        Type::Function
    } else if e.tag == DW_TAG_TYPEDEF || e.tag == DW_TAG_CONST_TYPE || e.tag
        == DW_TAG_VOLATILE_TYPE {
        type_new(u, t, next)
    } else {
        Type::Base(BaseRef::Void)
    }
}

/// Name of a member: its own, or one made from the number of members
/// before it.
pub open spec fn member_name(e: DwarfEntry, n: nat) -> Seq<char> {
    match e.name {
        Some(s) => s@,
        None => "__unnamed_field_"@ + hex_of(n),
    }
}

/// Offset of a member: its byte location, else its bit offset in whole
/// bytes, else 0.
pub open spec fn member_offset(e: DwarfEntry) -> u64 {
    match e.data_member_location {
        Some(o) => o,
        None => match e.data_bit_offset {
            Some(b) => (b / 8) as u64,
            None => 0,
        },
    }
}

/// Members of a struct entry with children `cs`, in order; a later member
/// of the same name replaces the earlier one in place.
pub open spec fn struct_fields(u: DwarfUnit, cs: Seq<usize>, fuel: nat) -> Seq<
    (Seq<char>, (u64, TypeView)),
>
    decreases cs.len(),
{
    if cs.len() == 0 {
        Seq::empty()
    } else {
        let acc = struct_fields(u, cs.drop_last(), fuel);
        let c = cs.last() as int;
        if 0 <= c < u.entries@.len() && u.entries@[c].tag == DW_TAG_MEMBER {
            let e = u.entries@[c];
            put(acc, member_name(e, acc.len()), (member_offset(e), member_type(u, c, fuel)))
        } else {
            acc
        }
    }
}

/// `x` in the smallest unsigned variant that holds it.
pub open spec fn narrowest_unsigned(x: u64) -> Variant {
    if x <= u8::MAX {
        Variant::U8(x as u8)
    } else if x <= u16::MAX {
        Variant::U16(x as u16)
    } else if x <= u32::MAX {
        Variant::U32(x as u32)
    } else {
        Variant::U64(x)
    }
}

/// `y` in the smallest variant that holds it: unsigned when it is not
/// negative, signed otherwise.
pub open spec fn narrowest_signed(y: i64) -> Variant {
    if y >= 0 {
        narrowest_unsigned(y as u64)
    } else if y >= i8::MIN {
        Variant::I8(y as i8)
    } else if y >= i16::MIN {
        Variant::I16(y as i16)
    } else if y >= i32::MIN {
        Variant::I32(y as i32)
    } else {
        Variant::I64(y)
    }
}

/// Value of an enumerator, read as unsigned data first, then as signed
/// data, in the smallest variant that holds it.
pub open spec fn variant_of(e: DwarfEntry) -> Option<Variant> {
    match e.const_udata {
        Some(x) => Some(narrowest_unsigned(x)),
        None => match e.const_sdata {
            Some(y) => Some(narrowest_signed(y)),
            None => None,
        },
    }
}

/// `x` in the smallest unsigned variant (see [`narrowest_unsigned`]).
pub fn unsigned_variant(x: u64) -> (r: Variant)
    ensures
        r == narrowest_unsigned(x),
{
    if x <= u8::MAX as u64 {
        Variant::U8(x as u8)
    } else if x <= u16::MAX as u64 {
        Variant::U16(x as u16)
    } else if x <= u32::MAX as u64 {
        Variant::U32(x as u32)
    } else {
        Variant::U64(x)
    }
}

/// `y` in the smallest variant (see [`narrowest_signed`]).
pub fn signed_variant(y: i64) -> (r: Variant)
    ensures
        r == narrowest_signed(y),
{
    if y >= 0 {
        unsigned_variant(y as u64)
    } else if y >= i8::MIN as i64 {
        Variant::I8(y as i8)
    } else if y >= i16::MIN as i64 {
        Variant::I16(y as i16)
    } else if y >= i32::MIN as i64 {
        Variant::I32(y as i32)
    } else {
        Variant::I64(y)
    }
}

/// Name of an enumerator: its own, or one made from the number before it.
pub open spec fn enumerator_name(e: DwarfEntry, n: nat) -> Seq<char> {
    match e.name {
        Some(s) => s@,
        None => "__unnamed_"@ + hex_of(n),
    }
}

/// Variants of an enumeration entry with children `cs`; enumerators without
/// a readable value are left out.
pub open spec fn enum_variants(u: DwarfUnit, cs: Seq<usize>) -> Seq<(Seq<char>, Variant)>
    decreases cs.len(),
{
    if cs.len() == 0 {
        Seq::empty()
    } else {
        let acc = enum_variants(u, cs.drop_last());
        let c = cs.last() as int;
        if 0 <= c < u.entries@.len() && u.entries@[c].tag == DW_TAG_ENUMERATOR && variant_of(
            u.entries@[c],
        ) is Some {
            let e = u.entries@[c];
            put(acc, enumerator_name(e, acc.len()), variant_of(e)->0)
        } else {
            acc
        }
    }
}

/// The struct that the entry at `i` defines.
pub open spec fn struct_def(u: DwarfUnit, i: int, kind: StructKind) -> StructView {
    let e = u.entries@[i];
    StructView {
        kind,
        size: or_zero(e.byte_size),
        fields: struct_fields(u, e.children@, unit_fuel(u)),
    }
}

/// The enum that the entry at `i` defines; none without an underlying type.
pub open spec fn enum_def(u: DwarfUnit, i: int) -> Option<EnumView> {
    let e = u.entries@[i];
    match e.type_ref {
        None => None,
        Some(t) => Some(
            EnumView {
                subtype: target_type(u, t as int, unit_fuel(u)),
                variants: enum_variants(u, e.children@),
            },
        ),
    }
}

fn struct_from_entry(u: &DwarfUnit, i: usize, kind: StructKind) -> (r: Struct)
    requires
        u.wf(),
        i < u.entries@.len(),
    ensures
        r@ == struct_def(*u, i as int, kind),
{
    let e = &u.entries[i];
    let cs = &e.children;
    let fuel = u.entries.len();
    let mut fields = fields_new();
    let ghost g = |f: Field| field_view(f);
    let mut k: usize = 0;
    while k < cs.len()
        invariant
            u.wf(),
            i < u.entries@.len(),
            cs == u.entries@[i as int].children,
            fuel == unit_fuel(*u),
            k <= cs@.len(),
            g == (|f: Field| field_view(f)),
            map_vals(crate::maps::field_entries(fields), g) == struct_fields(
                *u,
                cs@.subrange(0, k as int),
                fuel as nat,
            ),
        decreases cs@.len() - k,
    {
        let c = cs[k];
        proof {
            assert(cs@.subrange(0, k + 1).drop_last() == cs@.subrange(0, k as int));
            assert(cs@.subrange(0, k + 1).last() == c);
        }
        let m = &u.entries[c];
        if m.tag == DW_TAG_MEMBER {
            let n = fields_len(&fields);
            let name = match &m.name {
                Some(s) => s.clone(),
                None => prefixed_hex("__unnamed_field_", n as u64),
            };
            let offset = match m.data_member_location {
                Some(o) => o,
                None => match m.data_bit_offset {
                    Some(b) => b / 8,
                    None => 0,
                },
            };
            let type_ = type_new(u, c, fuel);
            let f = Field { offset, type_ };
            proof {
                lemma_put_map(crate::maps::field_entries(fields), g, name@, f);
            }
            fields_insert(&mut fields, name, f);
        }
        k = k + 1;
    }
    proof {
        assert(cs@.subrange(0, cs@.len() as int) == cs@);
    }
    let size = or_zero_of(e.byte_size);
    Struct { kind, size, fields }
}

fn variants_from_entry(u: &DwarfUnit, i: usize) -> (r: indexmap::IndexMap<String, Variant>)
    requires
        u.wf(),
        i < u.entries@.len(),
    ensures
        crate::maps::variant_entries(r) == enum_variants(*u, u.entries@[i as int].children@),
{
    let cs = &u.entries[i].children;
    let mut variants = variants_new();
    let mut k: usize = 0;
    while k < cs.len()
        invariant
            u.wf(),
            i < u.entries@.len(),
            cs == u.entries@[i as int].children,
            k <= cs@.len(),
            crate::maps::variant_entries(variants) == enum_variants(*u, cs@.subrange(0, k as int)),
        decreases cs@.len() - k,
    {
        let c = cs[k];
        proof {
            assert(cs@.subrange(0, k + 1).drop_last() == cs@.subrange(0, k as int));
            assert(cs@.subrange(0, k + 1).last() == c);
        }
        let m = &u.entries[c];
        if m.tag == DW_TAG_ENUMERATOR {
            let value = match m.const_udata {
                Some(x) => Some(unsigned_variant(x)),
                None => match m.const_sdata {
                    Some(y) => Some(signed_variant(y)),
                    None => None,
                },
            };
            match value {
                Some(v) => {
                    let n = variants_len(&variants);
                    let name = match &m.name {
                        Some(s) => s.clone(),
                        None => prefixed_hex("__unnamed_", n as u64),
                    };
                    variants_insert(&mut variants, name, v);
                },
                None => {},
            }
        }
        k = k + 1;
    }
    proof {
        assert(cs@.subrange(0, cs@.len() as int) == cs@);
    }
    variants
}

fn enum_from_entry(u: &DwarfUnit, i: usize) -> (r: Option<Enum>)
    requires
        u.wf(),
        i < u.entries@.len(),
    ensures
        match enum_def(*u, i as int) {
            Some(d) => r matches Some(x) && x@ == d,
            None => r is None,
        },
{
    let e = &u.entries[i];
    match e.type_ref {
        None => None,
        Some(t) => {
            let subtype = type_from_type(u, t, u.entries.len());
            let fields = variants_from_entry(u, i);
            Some(Enum { subtype, fields })
        },
    }
}

/// Declaration site of an entry, when file, line and column are all known.
pub open spec fn decl_site(e: DwarfEntry) -> Option<(Seq<char>, u64, u64)> {
    match (e.decl_file, e.decl_line, e.decl_column) {
        (Some(f), Some(l), Some(c)) => Some((f@, l, c)),
        _ => None,
    }
}

/// What ingestion has built so far: both collections, and the declaration
/// sites already processed.
pub struct IngestState {
    pub structs: Seq<(Seq<char>, StructView)>,
    pub enums: Seq<(Seq<char>, EnumView)>,
    pub seen: Set<(Seq<char>, u64, u64)>,
}

/// The state of a type collection and a site record.
pub open spec fn state_of(types: Types, cache: DeclCache) -> IngestState {
    IngestState {
        structs: struct_views(types.structs),
        enums: enum_views(types.enums),
        seen: cache.seen(),
    }
}

pub open spec fn is_type_tag(tag: u16) -> bool {
    tag == DW_TAG_ENUMERATION_TYPE || tag == DW_TAG_STRUCTURE_TYPE || tag == DW_TAG_UNION_TYPE
}

/// Offers the definition of the entry at `c` to the collections.
pub open spec fn define(u: DwarfUnit, c: int, st: IngestState) -> IngestState {
    let e = u.entries@[c];
    if e.tag == DW_TAG_ENUMERATION_TYPE {
        match enum_def(u, c) {
            Some(d) => IngestState {
                enums: merge_def(st.enums, entry_name(e), d, |v: EnumView| enum_members(v)),
                ..st
            },
            None => st,
        }
    } else {
        let kind = if e.tag == DW_TAG_UNION_TYPE {
            StructKind::Union
        } else {
            StructKind::Struct
        };
        IngestState {
            structs: merge_def(
                st.structs,
                entry_name(e),
                struct_def(u, c, kind),
                |v: StructView| struct_members(v),
            ),
            ..st
        }
    }
}

/// One top-level entry: enumerations, structures and unions that are not
/// mere declarations are defined, once per declaration site; an entry
/// without a complete site is defined every time.
pub open spec fn ingest_entry(u: DwarfUnit, c: int, st: IngestState) -> IngestState {
    let e = u.entries@[c];
    if !is_type_tag(e.tag) || e.declaration {
        st
    } else {
        match decl_site(e) {
            Some(site) => if st.seen.contains(site) {
                st
            } else {
                define(u, c, IngestState { seen: st.seen.insert(site), ..st })
            },
            None => define(u, c, st),
        }
    }
}

/// The top-level entries `cs`, in order.
pub open spec fn ingest(u: DwarfUnit, cs: Seq<usize>, st: IngestState) -> IngestState
    decreases cs.len(),
{
    if cs.len() == 0 {
        st
    } else {
        ingest_entry(u, cs.last() as int, ingest(u, cs.drop_last(), st))
    }
}

/// Adds the types of a compilation unit; sites in `cache` are skipped and
/// the sites processed are added to it. A unit whose references leave it
/// is refused and nothing changes.
pub fn add_unit(types: &mut Types, u: &DwarfUnit, cache: &mut DeclCache) -> (r: Result<
    (),
    DwarfError,
>)
    requires
        old(cache).wf(),
    ensures
        final(cache).wf(),
        r is Ok <==> u.wf(),
        r is Ok ==> state_of(*final(types), *final(cache)) == ingest(
            *u,
            u.top@,
            state_of(*old(types), *old(cache)),
        ),
        r is Err ==> *final(types) == *old(types) && *final(cache) == *old(cache),
{
    if !u.check() {
        return Err(DwarfError::InvalidReference);
    }
    let ghost st0 = state_of(*types, *cache);
    let mut k: usize = 0;
    while k < u.top.len()
        invariant
            u.wf(),
            cache.wf(),
            k <= u.top@.len(),
            state_of(*types, *cache) == ingest(*u, u.top@.subrange(0, k as int), st0),
        decreases u.top@.len() - k,
    {
        let c = u.top[k];
        proof {
            assert(u.top@.subrange(0, k + 1).drop_last() == u.top@.subrange(0, k as int));
            assert(u.top@.subrange(0, k + 1).last() == c);
        }
        let e = &u.entries[c];
        let ghost before = state_of(*types, *cache);
        if (e.tag == DW_TAG_ENUMERATION_TYPE || e.tag == DW_TAG_STRUCTURE_TYPE || e.tag
            == DW_TAG_UNION_TYPE) && !e.declaration {
            let fresh = match (&e.decl_file, e.decl_line, e.decl_column) {
                (Some(f), Some(l), Some(col)) => {
                    let fresh = cache.insert(f.clone(), l, col);
                    proof {
                        if !fresh {
                            assert(cache.seen() =~= before.seen);
                        }
                    }
                    fresh
                },
                _ => true,
            };
            if fresh {
                let ghost mid = state_of(*types, *cache);
                if e.tag == DW_TAG_ENUMERATION_TYPE {
                    match enum_from_entry(u, c) {
                        Some(d) => merge_enum(&mut types.enums, type_name_of(e), d),
                        None => {},
                    }
                } else {
                    let kind = if e.tag == DW_TAG_UNION_TYPE {
                        StructKind::Union
                    } else {
                        StructKind::Struct
                    };
                    let d = struct_from_entry(u, c, kind);
                    merge_struct(&mut types.structs, type_name_of(e), d);
                }
                assert(state_of(*types, *cache) == define(*u, c as int, mid));
            }
            assert(state_of(*types, *cache) == ingest_entry(*u, c as int, before));
        }
        k = k + 1;
    }
    proof {
        assert(u.top@.subrange(0, u.top@.len() as int) == u.top@);
    }
    Ok(())
}

} // verus!