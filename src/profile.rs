//! The profile: architecture, symbol table and type collections, with the
//! size and lookup queries of the resolution engine.
use crate::maps::{
    enum_entries, enums_get, enums_len, enums_new, lookup, struct_entries, structs_get,
    structs_new, u64_entries, u64map_get, u64map_new,
};
use crate::types::{BaseRef, Enum, Struct, Type};
use indexmap::IndexMap;
use vstd::prelude::*;

verus! {

/// Symbol table: symbol name to address, in ingestion order.
#[derive(Debug)]
pub struct Symbols(pub IndexMap<String, u64>);

impl Symbols {
    /// The entries of the table, in ingestion order.
    pub open spec fn entries(&self) -> Seq<(Seq<char>, u64)> {
        u64_entries(self.0)
    }

    /// An empty symbol table.
    pub fn new() -> (r: Symbols)
        ensures
            r.entries() == Seq::<(Seq<char>, u64)>::empty(),
    {
        Symbols(u64map_new())
    }
}

/// The two name-keyed type collections; enum names and struct names are
/// separate namespaces.
#[derive(Debug)]
pub struct Types {
    pub enums: IndexMap<String, Enum>,
    pub structs: IndexMap<String, Struct>,
}

impl Types {
    pub open spec fn enum_seq(&self) -> Seq<(Seq<char>, Enum)> {
        enum_entries(self.enums)
    }

    pub open spec fn struct_seq(&self) -> Seq<(Seq<char>, Struct)> {
        struct_entries(self.structs)
    }

    /// Empty collections.
    pub fn new() -> (r: Types)
        ensures
            r.enum_seq() == Seq::<(Seq<char>, Enum)>::empty(),
            r.struct_seq() == Seq::<(Seq<char>, Struct)>::empty(),
    {
        Types { enums: enums_new(), structs: structs_new() }
    }
}

/// Pointer size in bytes for an architecture name, if it is supported.
pub open spec fn arch_pointer_size(a: Seq<char>) -> Option<u64> {
    if a == "X86"@ || a == "Arm"@ {
        Some(4)
    } else if a == "Amd64"@ || a == "Arm64"@ {
        Some(8)
    } else {
        None
    }
}

/// Size in bytes of a base type.
pub open spec fn base_size_of(b: BaseRef) -> u64 {
    match b {
        BaseRef::Void => 0,
        BaseRef::Bool | BaseRef::Char | BaseRef::I8 | BaseRef::U8 | BaseRef::F8 => 1,
        BaseRef::Wchar | BaseRef::I16 | BaseRef::U16 | BaseRef::F16 => 2,
        BaseRef::I32 | BaseRef::U32 | BaseRef::F32 => 4,
        BaseRef::I64 | BaseRef::U64 | BaseRef::F64 => 8,
        BaseRef::I128 | BaseRef::U128 | BaseRef::F128 => 16,
    }
}

/// Error building a profile.
#[derive(Debug, Clone, Copy, PartialEq, Eq, Structural)]
pub enum ProfileError {
    /// The architecture is none of `X86`, `Arm`, `Amd64`, `Arm64`.
    UnsupportedArchitecture,
}

/// A built profile. Its architecture is always a supported one.
#[derive(Debug)]
pub struct Profile {
    architecture: String,
    symbols: Symbols,
    types: Types,
}

impl Profile {
    #[verifier::type_invariant]
    spec fn supported(&self) -> bool {
        arch_pointer_size(self.architecture@) is Some
    }

    pub closed spec fn arch(&self) -> Seq<char> {
        self.architecture@
    }

    pub closed spec fn symbol_seq(&self) -> Seq<(Seq<char>, u64)> {
        self.symbols.entries()
    }

    pub closed spec fn enum_seq(&self) -> Seq<(Seq<char>, Enum)> {
        self.types.enum_seq()
    }

    pub closed spec fn struct_seq(&self) -> Seq<(Seq<char>, Struct)> {
        self.types.struct_seq()
    }

    /// Pointer size of the profile's architecture.
    pub open spec fn ptr_size(&self) -> u64 {
        arch_pointer_size(self.arch())->0
    }

    /// Size of a type, following at most `fuel` enum references.
    pub open spec fn size_with(&self, t: Type, fuel: nat) -> Option<u64>
        decreases fuel, t,
    {
        match t {
            Type::Base(b) => Some(base_size_of(b)),
            Type::Enum(r) => if fuel == 0 {
                None
            } else {
                match lookup(self.enum_seq(), r.name@) {
                    Some(e) => self.size_with(e.subtype, (fuel - 1) as nat),
                    None => None,
                }
            },
            Type::Struct(r) => match lookup(self.struct_seq(), r.name@) {
                Some(s) => Some(s.size),
                None => None,
            },
            Type::Array(r) => self.size_with(*r.subtype, fuel),
            Type::Pointer(_) => Some(self.ptr_size()),
            Type::Bitfield(r) => self.size_with(*r.subtype, fuel),
            Type::Function => Some(self.ptr_size()),
        }
    }

    /// Size of a type. An enum's size is that of its underlying type; a chain
    /// of enums can be no longer than the number of enums unless it is
    /// circular, which gives no size.
    pub open spec fn size_of(&self, t: Type) -> Option<u64> {
        self.size_with(t, self.enum_seq().len())
    }

    /// Builds a profile; the architecture must be one of `X86`, `Arm`,
    /// `Amd64` or `Arm64`.
    pub fn new(architecture: String, symbols: Symbols, types: Types) -> (r: Result<
        Profile,
        ProfileError,
    >)
        ensures
            arch_pointer_size(architecture@) is Some <==> r is Ok,
            r matches Ok(p) ==> p.arch() == architecture@ && p.symbol_seq() == symbols.entries()
                && p.enum_seq() == types.enum_seq() && p.struct_seq() == types.struct_seq(),
            r matches Err(e) ==> e == ProfileError::UnsupportedArchitecture,
    {
        if pointer_size_of(&architecture).is_some() {
            Ok(Profile { architecture, symbols, types })
        } else {
            Err(ProfileError::UnsupportedArchitecture)
        }
    }

    /// Name of the target architecture.
    pub fn architecture(&self) -> (r: &String)
        ensures
            r@ == self.arch(),
    {
        &self.architecture
    }

    /// The symbol table.
    pub fn symbols(&self) -> (r: &Symbols)
        ensures
            r.entries() == self.symbol_seq(),
    {
        &self.symbols
    }

    /// The type collections.
    pub fn types(&self) -> (r: &Types)
        ensures
            r.enum_seq() == self.enum_seq(),
            r.struct_seq() == self.struct_seq(),
    {
        &self.types
    }

    /// Size of a pointer in bytes: 4 on `X86` and `Arm`, 8 on `Amd64` and
    /// `Arm64`.
    pub fn pointer_size(&self) -> (r: u64)
        ensures
            Some(r) == arch_pointer_size(self.arch()),
            r == self.ptr_size(),
    {
        proof {
            use_type_invariant(self);
        }
        match pointer_size_of(&self.architecture) {
            Some(n) => n,
            None => 0,
        }
    }

    /// Size of a base type in bytes.
    pub fn base_size(&self, base: &BaseRef) -> (r: u64)
        ensures
            r == base_size_of(*base),
    {
        match base {
            BaseRef::Void => 0,
            BaseRef::Bool | BaseRef::Char | BaseRef::I8 | BaseRef::U8 | BaseRef::F8 => 1,
            BaseRef::Wchar | BaseRef::I16 | BaseRef::U16 | BaseRef::F16 => 2,
            BaseRef::I32 | BaseRef::U32 | BaseRef::F32 => 4,
            BaseRef::I64 | BaseRef::U64 | BaseRef::F64 => 8,
            BaseRef::I128 | BaseRef::U128 | BaseRef::F128 => 16,
        }
    }

    fn type_size_with(&self, type_: &Type, fuel: usize) -> (r: Option<u64>)
        ensures
            r == self.size_with(*type_, fuel as nat),
        decreases fuel, type_,
    {
        match type_ {
            Type::Base(b) => Some(self.base_size(b)),
            Type::Enum(r) => {
                if fuel == 0 {
                    None
                } else {
                    match enums_get(&self.types.enums, r.name.as_str()) {
                        Some(e) => self.type_size_with(&e.subtype, fuel - 1),
                        None => None,
                    }
                }
            },
            Type::Struct(r) => self.struct_size(r.name.as_str()),
            Type::Array(r) => self.type_size_with(&r.subtype, fuel),
            Type::Pointer(_) => Some(self.pointer_size()),
            Type::Bitfield(r) => self.type_size_with(&r.subtype, fuel),
            Type::Function => Some(self.pointer_size()),
        }
    }

    /// Size of a type in bytes; `None` where a referenced enum or struct is
    /// absent. An array's size is its element's size.
    pub fn type_size(&self, type_: &Type) -> (r: Option<u64>)
        ensures
            r == self.size_of(*type_),
    {
        self.type_size_with(type_, enums_len(&self.types.enums))
    }

    /// Size of an enum: the size of its underlying type.
    pub fn enum_size(&self, name: &str) -> (r: Option<u64>)
        ensures
            r == (match lookup(self.enum_seq(), name@) {
                Some(e) => self.size_of(e.subtype),
                None => None,
            }),
    {
        match enums_get(&self.types.enums, name) {
            Some(e) => self.type_size(&e.subtype),
            None => None,
        }
    }

    /// Declared size of a struct.
    pub fn struct_size(&self, name: &str) -> (r: Option<u64>)
        ensures
            r == (match lookup(self.struct_seq(), name@) {
                Some(s) => Some(s.size),
                None => None,
            }),
    {
        match structs_get(&self.types.structs, name) {
            Some(s) => Some(s.size),
            None => None,
        }
    }

    /// Address of a symbol.
    pub fn find_symbol(&self, symbol_name: &str) -> (r: Option<u64>)
        ensures
            r == lookup(self.symbol_seq(), symbol_name@),
    {
        u64map_get(&self.symbols.0, symbol_name)
    }

    /// An enum by name.
    pub fn find_enum(&self, enum_name: &str) -> (r: Option<&Enum>)
        ensures
            r is Some <==> lookup(self.enum_seq(), enum_name@) is Some,
            r is Some ==> *r->0 == lookup(self.enum_seq(), enum_name@)->0,
    {
        enums_get(&self.types.enums, enum_name)
    }

    /// A struct by name.
    pub fn find_struct(&self, struct_name: &str) -> (r: Option<&Struct>)
        ensures
            r is Some <==> lookup(self.struct_seq(), struct_name@) is Some,
            r is Some ==> *r->0 == lookup(self.struct_seq(), struct_name@)->0,
    {
        structs_get(&self.types.structs, struct_name)
    }
}

/// Pointer size for an architecture name.
pub fn pointer_size_of(architecture: &String) -> (r: Option<u64>)
    ensures
        r == arch_pointer_size(architecture@),
{
    let x86 = "X86".to_owned();
    let arm = "Arm".to_owned();
    let amd64 = "Amd64".to_owned();
    let arm64 = "Arm64".to_owned();
    if architecture.eq(&x86) || architecture.eq(&arm) {
        Some(4)
    } else if architecture.eq(&amd64) || architecture.eq(&arm64) {
        Some(8)
    } else {
        None
    }
}

} // verus!
