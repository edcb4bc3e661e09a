//! The canonical type and symbol model.
//!
//! Types refer to enums and structs by name, never by embedding them, so a
//! struct may hold a field whose type leads back to the struct itself.
use crate::maps::{field_entries, map_vals, variant_entries};
use indexmap::IndexMap;
use smallvec::SmallVec;
use vstd::prelude::*;

verus! {

/// Array extents, held in a `SmallVec` with four inline slots.
#[verifier::external_body]
#[derive(Debug)]
pub struct Dims {
    inner: SmallVec<[u64; 4]>,
}

/// Array extents, in dimension order.
pub uninterp spec fn dims_of(v: Dims) -> Seq<u64>;

/// Relies on `SmallVec::new`: a new vector is empty.
#[verifier::external_body]
pub(crate) fn dims_new() -> (r: Dims)
    ensures
        dims_of(r) == Seq::<u64>::empty(),
{
    Dims { inner: SmallVec::new() }
}

/// Relies on `SmallVec::push`: the value is appended.
#[verifier::external_body]
pub(crate) fn dims_push(v: &mut Dims, x: u64)
    ensures
        dims_of(*final(v)) == dims_of(*old(v)).push(x),
{
    v.inner.push(x)
}

/// Relies on `SmallVec::as_slice`: the extents in order.
#[verifier::external_body]
fn dims_to_vec(v: &Dims) -> (r: Vec<u64>)
    ensures
        r@ == dims_of(*v),
{
    v.inner.as_slice().to_vec()
}

impl Dims {
    /// No extents.
    pub fn new() -> (r: Dims)
        ensures
            dims_of(r) == Seq::<u64>::empty(),
    {
        dims_new()
    }

    /// Appends an extent.
    pub fn push(&mut self, extent: u64)
        ensures
            dims_of(*final(self)) == dims_of(*old(self)).push(extent),
    {
        dims_push(self, extent)
    }

    /// The extents in order.
    pub fn to_vec(&self) -> (r: Vec<u64>)
        ensures
            r@ == dims_of(*self),
    {
        dims_to_vec(self)
    }
}

/// Base (primitive) types.
#[derive(Debug, Clone, Copy, PartialEq, Eq, Structural)]
pub enum BaseRef {
    Void,
    Bool,
    Char,
    Wchar,
    I8,
    I16,
    I32,
    I64,
    I128,
    U8,
    U16,
    U32,
    U64,
    U128,
    F8,
    F16,
    F32,
    F64,
    F128,
}

/// Reference to an enum, by name.
#[derive(Debug)]
pub struct EnumRef {
    pub name: String,
}

/// Reference to a struct, class, union or interface, by name.
#[derive(Debug)]
pub struct StructRef {
    pub name: String,
}

/// An array: element type, the extent of each dimension (0 when unknown)
/// and the element count used for the total span.
#[derive(Debug)]
pub struct ArrayRef {
    pub subtype: Box<Type>,
    pub dims: Dims,
    pub size: u64,
}

/// A bit-field: the underlying type, its length in bits and its position
/// within the byte that the member's offset addresses.
#[derive(Debug)]
pub struct BitfieldRef {
    pub subtype: Box<Type>,
    pub bit_length: u64,
    pub bit_position: u64,
}

/// A pointer; its size depends on the architecture, not on the pointee.
#[derive(Debug)]
pub struct PointerRef {
    pub subtype: Box<Type>,
}

/// A type.
#[derive(Debug)]
pub enum Type {
    Base(BaseRef),
    Enum(EnumRef),
    Struct(StructRef),
    Array(ArrayRef),
    Pointer(PointerRef),
    Bitfield(BitfieldRef),
    Function,
}

/// Enum variant value, in the smallest integer type that holds the source
/// value.
#[derive(Debug, Clone, Copy, PartialEq, Eq, Structural)]
pub enum Variant {
    U8(u8),
    U16(u16),
    U32(u32),
    U64(u64),
    U128(u128),
    I8(i8),
    I16(i16),
    I32(i32),
    I64(i64),
    I128(i128),
}

/// Kind of a user-defined aggregate.
#[derive(Debug, Clone, Copy, PartialEq, Eq, Structural)]
pub enum StructKind {
    Struct,
    Class,
    Union,
    Interface,
}

/// A struct member: its offset in bytes and its type.
#[derive(Debug)]
pub struct Field {
    pub offset: u64,
    pub type_: Type,
}

/// An enumeration: its underlying type and its variants in declaration order.
#[derive(Debug)]
pub struct Enum {
    pub subtype: Type,
    pub fields: IndexMap<String, Variant>,
}

/// A struct, class, union or interface: its kind, its declared size in
/// bytes and its members in declaration order.
#[derive(Debug)]
pub struct Struct {
    pub kind: StructKind,
    pub size: u64,
    pub fields: IndexMap<String, Field>,
}

/// What a type describes, with array extents as a sequence.
pub enum TypeView {
    Base(BaseRef),
    Enum(Seq<char>),
    Struct(Seq<char>),
    /// Element type, extents, element count.
    Array(Box<TypeView>, Seq<u64>, u64),
    Pointer(Box<TypeView>),
    /// Underlying type, bit length, bit position.
    Bitfield(Box<TypeView>, u64, u64),
    Function,
}

impl View for Type {
    type V = TypeView;

    open spec fn view(&self) -> TypeView
        decreases self,
    {
        match self {
            Type::Base(b) => TypeView::Base(*b),
            Type::Enum(r) => TypeView::Enum(r.name@),
            Type::Struct(r) => TypeView::Struct(r.name@),
            Type::Array(r) => TypeView::Array(Box::new((*r.subtype).view()), dims_of(r.dims), r.size),
            Type::Pointer(r) => TypeView::Pointer(Box::new((*r.subtype).view())),
            Type::Bitfield(r) => TypeView::Bitfield(
                Box::new((*r.subtype).view()),
                r.bit_length,
                r.bit_position,
            ),
            Type::Function => TypeView::Function,
        }
    }
}

/// A member as offset and type.
pub open spec fn field_view(f: Field) -> (u64, TypeView) {
    (f.offset, f.type_@)
}

/// A struct as kind, size and members.
pub struct StructView {
    pub kind: StructKind,
    pub size: u64,
    pub fields: Seq<(Seq<char>, (u64, TypeView))>,
}

/// An enum as underlying type and variants.
pub struct EnumView {
    pub subtype: TypeView,
    pub variants: Seq<(Seq<char>, Variant)>,
}

impl View for Struct {
    type V = StructView;

    open spec fn view(&self) -> StructView {
        StructView {
            kind: self.kind,
            size: self.size,
            fields: map_vals(self.field_seq(), |f: Field| field_view(f)),
        }
    }
}

impl View for Enum {
    type V = EnumView;

    open spec fn view(&self) -> EnumView {
        EnumView { subtype: self.subtype@, variants: self.variant_seq() }
    }
}

pub open spec fn struct_view(s: Struct) -> StructView {
    s@
}

pub open spec fn enum_view(e: Enum) -> EnumView {
    e@
}

impl Struct {
    /// Members in declaration order.
    pub open spec fn field_seq(&self) -> Seq<(Seq<char>, Field)> {
        field_entries(self.fields)
    }
}

impl Enum {
    /// Variants in declaration order.
    pub open spec fn variant_seq(&self) -> Seq<(Seq<char>, Variant)> {
        variant_entries(self.fields)
    }
}

} // verus!
