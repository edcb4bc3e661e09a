//! Field, bit-field and symbol resolution against a profile, including the
//! search through embedded sub-structures.
use crate::maps::{fields_get, fields_get_index, fields_len, lookup};
use crate::profile::Profile;
use crate::types::{Struct, Type};
use vstd::arithmetic::power2::{lemma_pow2_strictly_increases, pow2};
use vstd::bits::{lemma_u64_low_bits_mask_is_mod, lemma_u64_shl_is_mul, lemma_u64_shr_is_div};
use vstd::bits::{lemma_u64_pow2_no_overflow, low_bits_mask};
use vstd::prelude::*;

verus! {

/// A resolved field: offset from the start of the structure and size, in
/// bytes.
#[derive(Debug, Clone, Copy, PartialEq, Eq, Structural)]
pub struct Field {
    pub offset: u64,
    pub size: u64,
}

/// A resolved bit-field: offset and size of the underlying storage in bytes,
/// and the position and length of the bits within it.
#[derive(Debug, Clone, Copy, PartialEq, Eq, Structural)]
pub struct Bitfield {
    pub offset: u64,
    pub size: u64,
    pub bit_position: u64,
    pub bit_length: u64,
}

/// The bits `[pos, pos + len)` of `v`, as a number.
pub open spec fn extract_bits(v: u64, pos: u64, len: u64) -> nat {
    (v as nat / pow2(pos as nat)) % pow2(len as nat)
}

proof fn lemma_u64_below_pow2(v: u64, n: nat)
    requires
        n >= 64,
    ensures
        (v as nat) < pow2(n),
{
    vstd::arithmetic::power2::lemma2_to64();
    if n > 64 {
        lemma_pow2_strictly_increases(64, n);
    }
}

impl Bitfield {
    /// Extracts the bit-field's value from the raw integer `value`: shifted
    /// right by the bit position, then masked to the bit length.
    pub fn value_from(&self, value: u64) -> (r: u64)
        ensures
            r as nat == extract_bits(value, self.bit_position, self.bit_length),
    {
        let pos = self.bit_position;
        let len = self.bit_length;
        let shifted: u64 = if pos >= 64 {
            0
        } else {
            value >> pos
        };
        proof {
            if pos >= 64 {
                lemma_u64_below_pow2(value, pos as nat);
                vstd::arithmetic::div_mod::lemma_basic_div(value as int, pow2(pos as nat) as int);
            } else {
                lemma_u64_shr_is_div(value, pos);
            }
            assert(shifted as nat == value as nat / pow2(pos as nat));
        }
        if len >= 64 {
            proof {
                lemma_u64_below_pow2(shifted, len as nat);
                vstd::arithmetic::div_mod::lemma_small_mod(shifted as nat, pow2(len as nat));
            }
            shifted
        } else {
            proof {
                lemma_u64_pow2_no_overflow(len as nat);
                lemma_u64_shl_is_mul(1, len);
                lemma_u64_low_bits_mask_is_mod(shifted, len as nat);
                vstd::arithmetic::power2::lemma_pow2_pos(len as nat);
            }
            let mask: u64 = (1u64 << len) - 1;
            assert(mask == low_bits_mask(len as nat) as u64);
            shifted & mask
        }
    }
}

/// Either a plain field or a bit-field.
#[derive(Debug, Clone, Copy, PartialEq, Eq, Structural)]
pub enum FieldDescriptor {
    Field(Field),
    Bitfield(Bitfield),
}

impl FieldDescriptor {
    pub open spec fn offset_of(&self) -> u64 {
        match self {
            FieldDescriptor::Field(f) => f.offset,
            FieldDescriptor::Bitfield(b) => b.offset,
        }
    }

    pub open spec fn size_of(&self) -> u64 {
        match self {
            FieldDescriptor::Field(f) => f.size,
            FieldDescriptor::Bitfield(b) => b.size,
        }
    }

    /// Offset in bytes.
    pub fn offset(&self) -> (r: u64)
        ensures
            r == self.offset_of(),
    {
        match self {
            FieldDescriptor::Field(field) => field.offset,
            FieldDescriptor::Bitfield(bitfield) => bitfield.offset,
        }
    }

    /// Size in bytes.
    pub fn size(&self) -> (r: u64)
        ensures
            r == self.size_of(),
    {
        match self {
            FieldDescriptor::Field(field) => field.size,
            FieldDescriptor::Bitfield(bitfield) => bitfield.size,
        }
    }

    /// The plain field; a bit-field is a conversion error.
    pub fn into_field(self) -> (r: Result<Field, Error>)
        ensures
            self matches FieldDescriptor::Field(f) ==> r == Ok::<Field, Error>(f),
            self is Bitfield ==> r matches Err(Error::Conversion(_)),
    {
        match self {
            FieldDescriptor::Field(field) => Ok(field),
            FieldDescriptor::Bitfield(_) => Err(Error::Conversion(ConversionError::ExpectedField)),
        }
    }

    /// The bit-field; a plain field is a conversion error.
    pub fn into_bitfield(self) -> (r: Result<Bitfield, Error>)
        ensures
            self matches FieldDescriptor::Bitfield(b) ==> r == Ok::<Bitfield, Error>(b),
            self is Field ==> r matches Err(Error::Conversion(_)),
    {
        match self {
            FieldDescriptor::Field(_) => Err(Error::Conversion(ConversionError::ExpectedBitfield)),
            FieldDescriptor::Bitfield(bitfield) => Ok(bitfield),
        }
    }

    /// The offset, whichever kind of field this is.
    pub fn into_offset(self) -> (r: u64)
        ensures
            r == self.offset_of(),
    {
        self.offset()
    }
}

/// A resolved symbol.
#[derive(Debug, Clone, Copy, PartialEq, Eq, Structural)]
pub struct SymbolDescriptor {
    /// Address of the symbol, relative to the image base.
    pub offset: u64,
}

/// Which shape of field was asked for and which was found.
#[derive(Debug, Clone, Copy, PartialEq, Eq, Structural)]
pub enum ConversionError {
    /// A plain field was asked for; the field is a bit-field.
    ExpectedField,
    /// A bit-field was asked for; the field is a plain field.
    ExpectedBitfield,
}

/// Query errors.
#[derive(Debug)]
pub enum Error {
    /// A field of one shape was asked for, and it has the other.
    Conversion(ConversionError),
    SymbolNotFound(String),
    TypeNotFound(String),
    FieldNotFound { struct_name: String, field_name: String },
}

impl Error {
    pub fn symbol_not_found(symbol_name: String) -> (r: Error)
        ensures
            r matches Error::SymbolNotFound(n) && n@ == symbol_name@,
    {
        Error::SymbolNotFound(symbol_name)
    }

    pub fn type_not_found(struct_name: String) -> (r: Error)
        ensures
            r matches Error::TypeNotFound(n) && n@ == struct_name@,
    {
        Error::TypeNotFound(struct_name)
    }

    pub fn field_not_found(struct_name: String, field_name: String) -> (r: Error)
        ensures
            r matches Error::FieldNotFound { struct_name: s, field_name: f } && s@ == struct_name@
                && f@ == field_name@,
    {
        Error::FieldNotFound { struct_name, field_name }
    }
}

/// What a field search accepts as a direct match.
#[derive(Debug, Clone, Copy, PartialEq, Eq, Structural)]
pub enum SearchMode {
    /// Any field, described as a bit-field when its type is one.
    Descriptor,
    /// Any field, described by offset and size alone.
    Plain,
    /// Bit-fields only; a plain field of that name is passed over.
    BitfieldOnly,
}

/// The outcome of meeting a field of the requested name directly in a
/// struct: `None` when the search goes on into nested structs, otherwise the
/// final answer (`Some(None)` when the field's size is unknown).
pub open spec fn direct_match(p: Profile, f: crate::types::Field, mode: SearchMode) -> Option<
    Option<FieldDescriptor>,
> {
    let plain = match p.size_of(f.type_) {
        Some(sz) => Some(FieldDescriptor::Field(Field { offset: f.offset, size: sz })),
        None => None,
    };
    match f.type_ {
        Type::Bitfield(b) => match mode {
            SearchMode::Plain => Some(plain),
            _ => Some(
                match p.size_of(f.type_) {
                    Some(sz) => Some(
                        FieldDescriptor::Bitfield(
                            Bitfield {
                                offset: f.offset,
                                size: sz,
                                bit_position: b.bit_position,
                                bit_length: b.bit_length,
                            },
                        ),
                    ),
                    None => None,
                },
            ),
        },
        _ => match mode {
            SearchMode::BitfieldOnly => None,
            _ => Some(plain),
        },
    }
}

/// A nested descriptor moved by the offset of the member that embeds it;
/// `None` when the sum does not fit in 64 bits.
pub open spec fn shifted(d: FieldDescriptor, base: u64) -> Option<FieldDescriptor> {
    match d {
        FieldDescriptor::Field(f) => if base + f.offset <= u64::MAX {
            Some(FieldDescriptor::Field(Field { offset: (base + f.offset) as u64, size: f.size }))
        } else {
            None
        },
        FieldDescriptor::Bitfield(b) => if base + b.offset <= u64::MAX {
            Some(
                FieldDescriptor::Bitfield(
                    Bitfield {
                        offset: (base + b.offset) as u64,
                        size: b.size,
                        bit_position: b.bit_position,
                        bit_length: b.bit_length,
                    },
                ),
            )
        } else {
            None
        },
    }
}

/// Resolution of `field` in the struct named `name`: a direct member first,
/// then depth-first through the struct-typed members in declaration order,
/// descending at most `depth` more levels.
pub open spec fn resolve(
    p: Profile,
    name: Seq<char>,
    field: Seq<char>,
    mode: SearchMode,
    depth: nat,
) -> Option<FieldDescriptor>
    decreases depth, 0nat, 0nat,
{
    match lookup(p.struct_seq(), name) {
        None => None,
        Some(s) => {
            let direct = match lookup(s.field_seq(), field) {
                Some(f) => direct_match(p, f, mode),
                None => None,
            };
            match direct {
                Some(answer) => answer,
                None => if depth == 0 {
                    None
                } else {
                    nested(p, s.field_seq(), 0, field, mode, (depth - 1) as nat)
                },
            }
        },
    }
}

/// The first success of the search through members `i..` of a struct.
pub open spec fn nested(
    p: Profile,
    fields: Seq<(Seq<char>, crate::types::Field)>,
    i: nat,
    field: Seq<char>,
    mode: SearchMode,
    depth: nat,
) -> Option<FieldDescriptor>
    decreases depth, 1nat, fields.len() - i,
{
    if i >= fields.len() {
        None
    } else {
        let rest = nested(p, fields, i + 1, field, mode, depth);
        match fields[i as int].1.type_ {
            Type::Struct(r) => match resolve(p, r.name@, field, mode, depth) {
                Some(d) => match shifted(d, fields[i as int].1.offset) {
                    Some(x) => Some(x),
                    None => rest,
                },
                None => rest,
            },
            _ => rest,
        }
    }
}

/// Resolution with a depth bound equal to the number of structs: a chain
/// of embedded structs that is not circular is never deeper than that.
pub open spec fn resolve_field(p: Profile, name: Seq<char>, field: Seq<char>, mode: SearchMode) -> Option<
    FieldDescriptor,
> {
    resolve(p, name, field, mode, p.struct_seq().len())
}

fn shift_descriptor(d: FieldDescriptor, base: u64) -> (r: Option<FieldDescriptor>)
    ensures
        r == shifted(d, base),
{
    match d {
        FieldDescriptor::Field(f) => match base.checked_add(f.offset) {
            Some(offset) => Some(FieldDescriptor::Field(Field { offset, size: f.size })),
            None => None,
        },
        FieldDescriptor::Bitfield(b) => match base.checked_add(b.offset) {
            Some(offset) => Some(
                FieldDescriptor::Bitfield(
                    Bitfield {
                        offset,
                        size: b.size,
                        bit_position: b.bit_position,
                        bit_length: b.bit_length,
                    },
                ),
            ),
            None => None,
        },
    }
}

impl Profile {
    fn direct_field(&self, f: &crate::types::Field, mode: SearchMode) -> (r: Option<
        Option<FieldDescriptor>,
    >)
        ensures
            r == direct_match(*self, *f, mode),
    {
        match &f.type_ {
            Type::Bitfield(b) => {
                if mode == SearchMode::Plain {
                    Some(
                        match self.type_size(&f.type_) {
                            Some(size) => Some(FieldDescriptor::Field(Field { offset: f.offset, size })),
                            None => None,
                        },
                    )
                } else {
                    Some(
                        match self.type_size(&f.type_) {
                            Some(size) => Some(
                                FieldDescriptor::Bitfield(
                                    Bitfield {
                                        offset: f.offset,
                                        size,
                                        bit_position: b.bit_position,
                                        bit_length: b.bit_length,
                                    },
                                ),
                            ),
                            None => None,
                        },
                    )
                }
            },
            _ => {
                if mode == SearchMode::BitfieldOnly {
                    None
                } else {
                    Some(
                        match self.type_size(&f.type_) {
                            Some(size) => Some(FieldDescriptor::Field(Field { offset: f.offset, size })),
                            None => None,
                        },
                    )
                }
            },
        }
    }

    fn resolve_in(&self, name: &str, field_name: &str, mode: SearchMode, depth: usize) -> (r:
        Option<FieldDescriptor>)
        ensures
            r == resolve(*self, name@, field_name@, mode, depth as nat),
        decreases depth,
    {
        let udt: &Struct = match self.find_struct(name) {
            Some(udt) => udt,
            None => return None,
        };
        match fields_get(&udt.fields, field_name) {
            Some(f) => match self.direct_field(f, mode) {
                Some(answer) => return answer,
                None => {},
            },
            None => {},
        }
        if depth == 0 {
            return None;
        }
        let ghost fs = udt.field_seq();
        let n = fields_len(&udt.fields);
        let mut i: usize = 0;
        while i < n
            invariant
                n == fs.len(),
                fs == udt.field_seq(),
                i <= n,
                depth > 0,
                resolve(*self, name@, field_name@, mode, depth as nat) == nested(
                    *self,
                    fs,
                    i as nat,
                    field_name@,
                    mode,
                    (depth - 1) as nat,
                ),
            decreases n - i,
        {
            let (_, member) = fields_get_index(&udt.fields, i);
            match &member.type_ {
                Type::Struct(r) => {
                    match self.resolve_in(r.name.as_str(), field_name, mode, depth - 1) {
                        Some(child) => match shift_descriptor(child, member.offset) {
                            Some(x) => return Some(x),
                            None => {},
                        },
                        None => {},
                    }
                },
                _ => {},
            }
            i = i + 1;
        }
        None
    }

    fn struct_count(&self) -> (r: usize)
        ensures
            r == self.struct_seq().len(),
    {
        crate::maps::structs_len(&self.types().structs)
    }

    /// Descriptor of field `field_name` of struct `struct_name`: a direct
    /// member, or the first match in an embedded struct, found depth-first in
    /// declaration order, with the offsets of the enclosing members added.
    pub fn find_field_descriptor(&self, struct_name: &str, field_name: &str) -> (r: Result<
        FieldDescriptor,
        Error,
    >)
        ensures
            lookup(self.struct_seq(), struct_name@) is None ==> (r matches Err(
                Error::TypeNotFound(n),
            ) && n@ == struct_name@),
            lookup(self.struct_seq(), struct_name@) is Some ==> match resolve_field(
                *self,
                struct_name@,
                field_name@,
                SearchMode::Descriptor,
            ) {
                Some(d) => r == Ok::<FieldDescriptor, Error>(d),
                None => r matches Err(Error::FieldNotFound { struct_name: s, field_name: f })
                    && s@ == struct_name@ && f@ == field_name@,
            },
    {
        if self.find_struct(struct_name).is_none() {
            return Err(Error::type_not_found(struct_name.to_owned()));
        }
        match self.resolve_in(struct_name, field_name, SearchMode::Descriptor, self.struct_count()) {
            Some(d) => Ok(d),
            None => Err(Error::field_not_found(struct_name.to_owned(), field_name.to_owned())),
        }
    }

    /// Offset and size of field `field_name` of struct `struct_name`, with the
    /// same search; a bit-field is described by its storage alone.
    pub fn find_field(&self, struct_name: &str, field_name: &str) -> (r: Option<Field>)
        ensures
            r == (match resolve_field(*self, struct_name@, field_name@, SearchMode::Plain) {
                Some(FieldDescriptor::Field(f)) => Some(f),
                _ => None,
            }),
    {
        match self.resolve_in(struct_name, field_name, SearchMode::Plain, self.struct_count()) {
            Some(FieldDescriptor::Field(f)) => Some(f),
            _ => None,
        }
    }

    /// Bit-field `field_name` of struct `struct_name`, with the same search;
    /// plain fields of that name are passed over.
    pub fn find_bitfield(&self, struct_name: &str, field_name: &str) -> (r: Option<Bitfield>)
        ensures
            r == (match resolve_field(*self, struct_name@, field_name@, SearchMode::BitfieldOnly) {
                Some(FieldDescriptor::Bitfield(b)) => Some(b),
                _ => None,
            }),
    {
        match self.resolve_in(struct_name, field_name, SearchMode::BitfieldOnly, self.struct_count()) {
            Some(FieldDescriptor::Bitfield(b)) => Some(b),
            _ => None,
        }
    }

    /// Descriptor of symbol `symbol_name`.
    pub fn find_symbol_descriptor(&self, symbol_name: &str) -> (r: Result<SymbolDescriptor, Error>)
        ensures
            lookup(self.symbol_seq(), symbol_name@) matches Some(a) ==> r == Ok::<
                SymbolDescriptor,
                Error,
            >(SymbolDescriptor { offset: a }),
            lookup(self.symbol_seq(), symbol_name@) is None ==> (r matches Err(
                Error::SymbolNotFound(n),
            ) && n@ == symbol_name@),
    {
        match self.find_symbol(symbol_name) {
            Some(offset) => Ok(SymbolDescriptor { offset }),
            None => Err(Error::symbol_not_found(symbol_name.to_owned())),
        }
    }
}

} // verus!
