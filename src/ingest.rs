//! Building a whole profile from either kind of debug information.
use crate::dwarf::{add_unit, ingest, state_of, DwarfUnit, IngestState};
use crate::maps::map_vals;
use crate::merge::DeclCache;
use crate::pdb::{parse_symbols, parse_types, pdb_symbol_entries, pdb_types, PdbPublicSymbol, PdbTypeTable};
use crate::profile::{arch_pointer_size, Profile, ProfileError, Types};
use crate::systemmap::{parse_system_map, system_map_entries};
use crate::types::{enum_view, struct_view, Enum, Struct};
use vstd::prelude::*;

verus! {

/// The collections of a profile as views.
pub open spec fn profile_structs(p: Profile) -> Seq<(Seq<char>, crate::types::StructView)> {
    map_vals(p.struct_seq(), |s: Struct| struct_view(s))
}

pub open spec fn profile_enums(p: Profile) -> Seq<(Seq<char>, crate::types::EnumView)> {
    map_vals(p.enum_seq(), |e: Enum| enum_view(e))
}

/// Units `us` in order, sharing one record of declaration sites; none when
/// a unit refers outside itself.
pub open spec fn ingest_units(us: Seq<DwarfUnit>, st: IngestState) -> Option<IngestState>
    decreases us.len(),
{
    if us.len() == 0 {
        Some(st)
    } else {
        match ingest_units(us.drop_last(), st) {
            None => None,
            Some(s) => if us.last().wf() {
                Some(ingest(us.last(), us.last().top@, s))
            } else {
                None
            },
        }
    }
}

/// Why a DWARF profile could not be built.
#[derive(Debug, Clone, Copy, PartialEq, Eq, Structural)]
pub enum DwarfProfileError {
    /// A compilation unit refers outside itself.
    InvalidReference,
    /// The system map is malformed.
    InvalidSystemMap,
}

proof fn lemma_units_none(us: Seq<DwarfUnit>, st: IngestState, k: int)
    requires
        0 <= k <= us.len(),
        ingest_units(us.subrange(0, k), st) is None,
    ensures
        ingest_units(us, st) is None,
    decreases us.len(),
{
    if k == us.len() {
        assert(us.subrange(0, k) == us);
    } else {
        assert(us.drop_last().subrange(0, k) == us.subrange(0, k));
        lemma_units_none(us.drop_last(), st, k);
    }
}

/// Builds an `Amd64` profile from the compilation units of a kernel image
/// and its system map.
pub fn create_dwarf_profile(units: &Vec<DwarfUnit>, systemmap: &str) -> (r: Result<
    Profile,
    DwarfProfileError,
>)
    ensures
        ({
            let empty = IngestState {
                structs: Seq::empty(),
                enums: Seq::empty(),
                seen: Set::empty(),
            };
            match ingest_units(units@, empty) {
                None => r == Err::<Profile, DwarfProfileError>(DwarfProfileError::InvalidReference),
                Some(st) => match system_map_entries(systemmap@) {
                    None => r == Err::<Profile, DwarfProfileError>(
                        DwarfProfileError::InvalidSystemMap,
                    ),
                    Some(syms) => r matches Ok(p) && p.arch() == "Amd64"@ && p.symbol_seq()
                        == syms && profile_structs(p) == st.structs && profile_enums(p)
                        == st.enums,
                },
            }
        }),
{
    let mut types = Types::new();
    let mut cache = DeclCache::new();
    let ghost empty = IngestState { structs: Seq::empty(), enums: Seq::empty(), seen: Set::empty() };
    proof {
        assert(crate::merge::struct_views(types.structs) =~= Seq::<(Seq<char>, crate::types::StructView)>::empty());
        assert(crate::merge::enum_views(types.enums) =~= Seq::<(Seq<char>, crate::types::EnumView)>::empty());
        assert(state_of(types, cache) == empty);
    }
    let mut i: usize = 0;
    while i < units.len()
        invariant
            i <= units@.len(),
            cache.wf(),
            empty == (IngestState { structs: Seq::empty(), enums: Seq::empty(), seen: Set::empty() }),
            ingest_units(units@.subrange(0, i as int), empty) == Some(state_of(types, cache)),
        decreases units@.len() - i,
    {
        proof {
            assert(units@.subrange(0, i + 1).drop_last() == units@.subrange(0, i as int));
            assert(units@.subrange(0, i + 1).last() == units@[i as int]);
        }
        match add_unit(&mut types, &units[i], &mut cache) {
            Ok(()) => {},
            Err(_) => {
                proof {
                    assert(!units@[i as int].wf());
                    assert(ingest_units(units@.subrange(0, i + 1), empty) is None);
                    lemma_units_none(units@, empty, i + 1);
                }
                return Err(DwarfProfileError::InvalidReference);
            },
        }
        i = i + 1;
    }
    proof {
        assert(units@.subrange(0, units@.len() as int) == units@);
    }
    let symbols = match parse_system_map(systemmap) {
        Ok(s) => s,
        Err(_) => return Err(DwarfProfileError::InvalidSystemMap),
    };
    let arch = "Amd64".to_owned();
    match Profile::new(arch, symbols, types) {
        Ok(p) => Ok(p),
        Err(_) => {
            assert(arch_pointer_size("Amd64"@) is Some);
            Err(DwarfProfileError::InvalidReference)
        },
    }
}

/// Why a PDB profile could not be built.
#[derive(Debug, Clone, Copy, PartialEq, Eq, Structural)]
pub enum PdbProfileError {
    /// The type stream cannot be read.
    InvalidTypeStream,
    /// The machine type is not a supported architecture.
    UnsupportedArchitecture,
}

/// Builds a profile from the machine type, public symbols and type stream
/// of a PDB file.
pub fn create_pdb_profile(
    architecture: String,
    symbols: &Vec<PdbPublicSymbol>,
    types: &PdbTypeTable,
) -> (r: Result<Profile, PdbProfileError>)
    ensures
        match pdb_types(*types) {
            None => r == Err::<Profile, PdbProfileError>(PdbProfileError::InvalidTypeStream),
            Some(st) => if arch_pointer_size(architecture@) is None {
                r == Err::<Profile, PdbProfileError>(PdbProfileError::UnsupportedArchitecture)
            } else {
                r matches Ok(p) && p.arch() == architecture@ && p.symbol_seq()
                    == pdb_symbol_entries(symbols@) && profile_structs(p) == st.structs
                    && profile_enums(p) == st.enums
            },
        },
{
    let symbols = parse_symbols(symbols);
    let types = match parse_types(types) {
        Ok(t) => t,
        Err(_) => return Err(PdbProfileError::InvalidTypeStream),
    };
    match Profile::new(architecture, symbols, types) {
        Ok(p) => Ok(p),
        Err(ProfileError::UnsupportedArchitecture) => Err(PdbProfileError::UnsupportedArchitecture),
    }
}

} // verus!
