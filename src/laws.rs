//! Properties that hold of every profile and of every ingestion.
use crate::dwarf::{
    entry_name, ingest, ingest_entry, define, decl_site, is_type_tag, member_offset,
    member_type, struct_fields, DwarfEntry, DwarfUnit, IngestState, DW_TAG_MEMBER,
};
use crate::maps::{key_pos, lemma_key_pos_bounds, lookup, put};
use crate::merge::merge_def;
use crate::offsets::{nested, resolve, resolve_field, SearchMode};
use crate::profile::{arch_pointer_size, base_size_of, Profile};
use crate::text::{hex_digit, hex_of};
use crate::types::{BaseRef, Type};
use vstd::prelude::*;

verus! {

/// A base type's size is fixed by its kind alone, whatever profile asks:
/// `void` is 0 bytes, `bool`, `char` and 8-bit types 1, wide characters and
/// 16-bit types 2, then 4, 8 and 16 for the 32-, 64- and 128-bit types.
pub proof fn lemma_base_type_size(p: Profile, q: Profile, b: BaseRef)
    ensures
        p.size_of(Type::Base(b)) == Some(base_size_of(b)),
        p.size_of(Type::Base(b)) == q.size_of(Type::Base(b)),
        base_size_of(BaseRef::Void) == 0,
        base_size_of(BaseRef::Bool) == 1 && base_size_of(BaseRef::Char) == 1,
        base_size_of(BaseRef::I8) == 1 && base_size_of(BaseRef::U8) == 1,
        base_size_of(BaseRef::Wchar) == 2,
        base_size_of(BaseRef::I16) == 2 && base_size_of(BaseRef::U16) == 2,
        base_size_of(BaseRef::I32) == 4 && base_size_of(BaseRef::U32) == 4,
        base_size_of(BaseRef::I64) == 8 && base_size_of(BaseRef::U64) == 8,
        base_size_of(BaseRef::I128) == 16 && base_size_of(BaseRef::U128) == 16,
        base_size_of(BaseRef::F32) == 4 && base_size_of(BaseRef::F64) == 8,
{
}

/// Pointers are 4 bytes on `X86` and `Arm` and 8 bytes on `Amd64` and
/// `Arm64`; every other architecture name is refused when a profile is
/// built.
pub proof fn lemma_pointer_size_by_architecture(a: Seq<char>)
    ensures
        (a == "X86"@ || a == "Arm"@) ==> arch_pointer_size(a) == Some(4u64),
        (a == "Amd64"@ || a == "Arm64"@) ==> arch_pointer_size(a) == Some(8u64),
        !(a == "X86"@ || a == "Arm"@ || a == "Amd64"@ || a == "Arm64"@) ==> arch_pointer_size(a) is None,
{
    reveal_strlit("X86");
    reveal_strlit("Arm");
    reveal_strlit("Amd64");
    reveal_strlit("Arm64");
    if a == "Amd64"@ || a == "Arm64"@ {
        assert(a.len() == 5);
        assert("X86"@.len() == 3 && "Arm"@.len() == 3);
    }
}

/// Every struct of the profile, by position.
pub open spec fn no_struct_has_field(p: Profile, field: Seq<char>) -> bool {
    forall|j: int|
        0 <= j < p.struct_seq().len() ==> lookup(#[trigger] p.struct_seq()[j].1.field_seq(), field)
            is None
}

proof fn lemma_unknown_field_resolve(
    p: Profile,
    name: Seq<char>,
    field: Seq<char>,
    mode: SearchMode,
    depth: nat,
)
    requires
        no_struct_has_field(p, field),
    ensures
        resolve(p, name, field, mode, depth) is None,
    decreases depth, 0nat, 0nat,
{
    lemma_key_pos_bounds(p.struct_seq(), name);
    if let Some(k) = key_pos(p.struct_seq(), name) {
        let s = p.struct_seq()[k].1;
        assert(lookup(s.field_seq(), field) is None);
        if depth > 0 {
            lemma_unknown_field_nested(p, s.field_seq(), 0, field, mode, (depth - 1) as nat);
        }
    }
}

proof fn lemma_unknown_field_nested(
    p: Profile,
    fields: Seq<(Seq<char>, crate::types::Field)>,
    i: nat,
    field: Seq<char>,
    mode: SearchMode,
    depth: nat,
)
    requires
        no_struct_has_field(p, field),
    ensures
        nested(p, fields, i, field, mode, depth) is None,
    decreases depth, 1nat, fields.len() - i,
{
    if i < fields.len() {
        lemma_unknown_field_nested(p, fields, i + 1, field, mode, depth);
        if let Type::Struct(r) = fields[i as int].1.type_ {
            lemma_unknown_field_resolve(p, r.name@, field, mode, depth);
        }
    }
}

/// Unknown names are never resolved: a struct that the profile lacks, or a
/// field name that no struct of the profile declares, gives no field
/// whatever the search.
pub proof fn lemma_unknown_names_not_found(p: Profile, name: Seq<char>, field: Seq<char>, mode: SearchMode)
    ensures
        lookup(p.struct_seq(), name) is None ==> resolve_field(p, name, field, mode) is None,
        no_struct_has_field(p, field) ==> resolve_field(p, name, field, mode) is None,
{
    if no_struct_has_field(p, field) {
        lemma_unknown_field_resolve(p, name, field, mode, p.struct_seq().len());
    }
}

/// Two definitions under one name with different member counts give the
/// same collection in either order of ingestion: the one with more members.
pub proof fn lemma_more_members_win<V>(
    s: Seq<(Seq<char>, V)>,
    name: Seq<char>,
    a: V,
    b: V,
    count: spec_fn(V) -> nat,
)
    requires
        count(a) != count(b),
    ensures
        merge_def(merge_def(s, name, a, count), name, b, count) == merge_def(
            merge_def(s, name, b, count),
            name,
            a,
            count,
        ),
        lookup(merge_def(merge_def(s, name, a, count), name, b, count), name) is Some,
        lookup(s, name) is None ==> lookup(
            merge_def(merge_def(s, name, a, count), name, b, count),
            name,
        ) == Some(if count(a) > count(b) { a } else { b }),
{
    crate::maps::lemma_put_put(s, name, a, b);
    crate::maps::lemma_put_put(s, name, b, a);
    crate::maps::lemma_put_put(s, name, a, a);
    crate::maps::lemma_put_put(s, name, b, b);
}

/// The member children among `cs`, in order, each as its name, offset and
/// type; other children are passed over.
pub open spec fn member_pairs(u: DwarfUnit, cs: Seq<usize>, fuel: nat) -> Seq<
    (Seq<char>, (u64, crate::types::TypeView)),
>
    decreases cs.len(),
{
    if cs.len() == 0 {
        Seq::empty()
    } else {
        let rest = member_pairs(u, cs.drop_last(), fuel);
        let c = cs.last() as int;
        if 0 <= c < u.entries@.len() && u.entries@[c].tag == DW_TAG_MEMBER {
            let e = u.entries@[c];
            rest.push((e.name->0@, (member_offset(e), member_type(u, c, fuel))))
        } else {
            rest
        }
    }
}

/// Every member child has a name of its own.
pub open spec fn members_named(u: DwarfUnit, cs: Seq<usize>) -> bool {
    forall|k: int|
        0 <= k < cs.len() && 0 <= #[trigger] cs[k] < u.entries@.len() && u.entries@[cs[k] as int].tag
            == DW_TAG_MEMBER ==> u.entries@[cs[k] as int].name is Some
}

proof fn lemma_struct_fields_named(u: DwarfUnit, cs: Seq<usize>, fuel: nat)
    requires
        members_named(u, cs),
    ensures
        struct_fields(u, cs, fuel) == crate::maps::put_all(member_pairs(u, cs, fuel)),
    decreases cs.len(),
{
    if cs.len() > 0 {
        let d = cs.drop_last();
        assert forall|k: int|
            0 <= k < d.len() && 0 <= #[trigger] d[k] < u.entries@.len() && u.entries@[d[k] as int].tag
                == DW_TAG_MEMBER implies u.entries@[d[k] as int].name is Some by {
            assert(d[k] == cs[k]);
        }
        lemma_struct_fields_named(u, d, fuel);
        assert(cs[cs.len() - 1] == cs.last());
        let rest = member_pairs(u, d, fuel);
        let c = cs.last() as int;
        if 0 <= c < u.entries@.len() && u.entries@[c].tag == DW_TAG_MEMBER {
            let x = (u.entries@[c].name->0@, (member_offset(u.entries@[c]), member_type(u, c, fuel)));
            assert(rest.push(x).drop_last() == rest);
        }
    }
}

/// Normalizing a struct keeps its members: when its member children have
/// distinct names there is exactly one entry per member, in declaration
/// order, and other children add none; a name declared more than once holds
/// its last declaration.
pub proof fn lemma_struct_round_trip(u: DwarfUnit, i: int, kind: crate::types::StructKind)
    requires
        0 <= i < u.entries@.len(),
        members_named(u, u.entries@[i].children@),
    ensures
        ({
            let cs = u.entries@[i].children@;
            let pairs = member_pairs(u, cs, crate::dwarf::unit_fuel(u));
            let fields = crate::dwarf::struct_def(u, i, kind).fields;
            &&& (forall|a: int, b: int| 0 <= a < b < pairs.len() ==> pairs[a].0 != pairs[b].0)
                ==> fields == pairs
            &&& forall|j: int|
                0 <= j < pairs.len() && (forall|m: int| j < m < pairs.len() ==> pairs[m].0 != pairs[j].0)
                    ==> lookup(fields, #[trigger] pairs[j].0) == Some(pairs[j].1)
        }),
{
    let cs = u.entries@[i].children@;
    let pairs = member_pairs(u, cs, crate::dwarf::unit_fuel(u));
    lemma_struct_fields_named(u, cs, crate::dwarf::unit_fuel(u));
    if forall|a: int, b: int| 0 <= a < b < pairs.len() ==> pairs[a].0 != pairs[b].0 {
        crate::maps::lemma_put_all_distinct(pairs);
    }
    assert forall|j: int|
        0 <= j < pairs.len() && (forall|m: int| j < m < pairs.len() ==> pairs[m].0 != pairs[j].0)
            implies lookup(crate::dwarf::struct_def(u, i, kind).fields, #[trigger] pairs[j].0) == Some(pairs[j].1) by {
        crate::maps::lemma_put_all_last(Seq::empty(), pairs, j);
    }
}

/// A member declared under a name already present replaces the earlier
/// declaration in its place and leaves the other members alone; a new name
/// goes last.
pub proof fn lemma_member_redeclared<V>(fields: Seq<(Seq<char>, V)>, name: Seq<char>, member: V)
    ensures
        key_pos(fields, name) matches Some(i) ==> put(fields, name, member).len() == fields.len()
            && put(fields, name, member)[i] == (name, member) && forall|j: int|
            0 <= j < fields.len() && j != i ==> #[trigger] put(fields, name, member)[j] == fields[j],
        key_pos(fields, name) is None ==> put(fields, name, member) == fields.push((name, member)),
{
    crate::maps::lemma_put_in_place(fields, name, member);
}

proof fn lemma_merge_grows<V>(s: Seq<(Seq<char>, V)>, n: Seq<char>, d: V, cnt: spec_fn(V) -> nat, q: Seq<char>)
    ensures
        lookup(s, q) is Some ==> lookup(merge_def(s, n, d, cnt), q) is Some && cnt(
            lookup(merge_def(s, n, d, cnt), q)->0,
        ) >= cnt(lookup(s, q)->0),
        lookup(merge_def(s, n, d, cnt), n) is Some,
        cnt(lookup(merge_def(s, n, d, cnt), n)->0) >= cnt(d),
{
    crate::maps::lemma_put_put(s, n, d, d);
    if q != n {
        crate::maps::lemma_lookup_put_other(s, n, d, q);
    }
}

/// Nothing known is lost: sites stay recorded, and every name stays defined
/// with at least as many members.
pub open spec fn grows(a: IngestState, b: IngestState) -> bool {
    &&& a.seen.subset_of(b.seen)
    &&& forall|q: Seq<char>|
        #![trigger lookup(b.structs, q)]
        lookup(a.structs, q) is Some ==> lookup(b.structs, q) is Some && lookup(b.structs, q)->0.fields.len()
            >= lookup(a.structs, q)->0.fields.len()
    &&& forall|q: Seq<char>|
        #![trigger lookup(b.enums, q)]
        lookup(a.enums, q) is Some ==> lookup(b.enums, q) is Some && lookup(b.enums, q)->0.variants.len()
            >= lookup(a.enums, q)->0.variants.len()
}

pub open spec fn struct_kind_of(e: DwarfEntry) -> crate::types::StructKind {
    if e.tag == crate::dwarf::DW_TAG_UNION_TYPE {
        crate::types::StructKind::Union
    } else {
        crate::types::StructKind::Struct
    }
}

/// The entry at `c` has nothing more to add to `st`.
pub open spec fn covered(u: DwarfUnit, c: int, st: IngestState) -> bool {
    let e = u.entries@[c];
    if !is_type_tag(e.tag) || e.declaration {
        true
    } else {
        match decl_site(e) {
            Some(site) => st.seen.contains(site),
            None => if e.tag == crate::dwarf::DW_TAG_ENUMERATION_TYPE {
                match crate::dwarf::enum_def(u, c) {
                    None => true,
                    Some(d) => lookup(st.enums, entry_name(e)) is Some && lookup(
                        st.enums,
                        entry_name(e),
                    )->0.variants.len() >= d.variants.len(),
                }
            } else {
                lookup(st.structs, entry_name(e)) is Some && lookup(st.structs, entry_name(e))->0.fields.len()
                    >= crate::dwarf::struct_def(u, c, struct_kind_of(e)).fields.len()
            },
        }
    }
}

proof fn lemma_define_grows(u: DwarfUnit, c: int, st: IngestState)
    ensures
        grows(st, define(u, c, st)),
        define(u, c, st).seen == st.seen,
{
    let e = u.entries@[c];
    let r = define(u, c, st);
    assert forall|q: Seq<char>| lookup(st.structs, q) is Some implies lookup(r.structs, q) is Some
        && lookup(r.structs, q)->0.fields.len() >= lookup(st.structs, q)->0.fields.len() by {
        if e.tag != crate::dwarf::DW_TAG_ENUMERATION_TYPE {
            lemma_merge_grows(
                st.structs,
                entry_name(e),
                crate::dwarf::struct_def(u, c, struct_kind_of(e)),
                |v: crate::types::StructView| crate::merge::struct_members(v),
                q,
            );
        }
    }
    assert forall|q: Seq<char>| lookup(st.enums, q) is Some implies lookup(r.enums, q) is Some
        && lookup(r.enums, q)->0.variants.len() >= lookup(st.enums, q)->0.variants.len() by {
        if e.tag == crate::dwarf::DW_TAG_ENUMERATION_TYPE {
            if let Some(d) = crate::dwarf::enum_def(u, c) {
                lemma_merge_grows(
                    st.enums,
                    entry_name(e),
                    d,
                    |v: crate::types::EnumView| crate::merge::enum_members(v),
                    q,
                );
            }
        }
    }
}

proof fn lemma_step(u: DwarfUnit, c: int, st: IngestState)
    ensures
        grows(st, ingest_entry(u, c, st)),
        covered(u, c, ingest_entry(u, c, st)),
{
    let e = u.entries@[c];
    if is_type_tag(e.tag) && !e.declaration {
        let base = match decl_site(e) {
            Some(site) => IngestState { seen: st.seen.insert(site), ..st },
            None => st,
        };
        lemma_define_grows(u, c, base);
        let r = define(u, c, base);
        if e.tag == crate::dwarf::DW_TAG_ENUMERATION_TYPE {
            if let Some(d) = crate::dwarf::enum_def(u, c) {
                lemma_merge_grows(
                    base.enums,
                    entry_name(e),
                    d,
                    |v: crate::types::EnumView| crate::merge::enum_members(v),
                    entry_name(e),
                );
            }
        } else {
            lemma_merge_grows(
                base.structs,
                entry_name(e),
                crate::dwarf::struct_def(u, c, struct_kind_of(e)),
                |v: crate::types::StructView| crate::merge::struct_members(v),
                entry_name(e),
            );
        }
        if let Some(site) = decl_site(e) {
            if !st.seen.contains(site) {
                assert(grows(st, base));
            }
        }
    }
}

proof fn lemma_covered_mono(u: DwarfUnit, c: int, a: IngestState, b: IngestState)
    requires
        covered(u, c, a),
        grows(a, b),
    ensures
        covered(u, c, b),
{
    let e = u.entries@[c];
    assert(lookup(b.structs, entry_name(e)) == lookup(b.structs, entry_name(e)));
    assert(lookup(b.enums, entry_name(e)) == lookup(b.enums, entry_name(e)));
}

proof fn lemma_grows_trans(a: IngestState, b: IngestState, c: IngestState)
    requires
        grows(a, b),
        grows(b, c),
    ensures
        grows(a, c),
{
    assert forall|q: Seq<char>| lookup(a.structs, q) is Some implies lookup(c.structs, q) is Some
        && lookup(c.structs, q)->0.fields.len() >= lookup(a.structs, q)->0.fields.len() by {
        assert(lookup(b.structs, q) is Some);
    }
    assert forall|q: Seq<char>| lookup(a.enums, q) is Some implies lookup(c.enums, q) is Some
        && lookup(c.enums, q)->0.variants.len() >= lookup(a.enums, q)->0.variants.len() by {
        assert(lookup(b.enums, q) is Some);
    }
}

proof fn lemma_covered_absorbed(u: DwarfUnit, c: int, st: IngestState)
    requires
        covered(u, c, st),
    ensures
        ingest_entry(u, c, st) == st,
{
}

proof fn lemma_first_pass(u: DwarfUnit, cs: Seq<usize>, st: IngestState)
    ensures
        grows(st, ingest(u, cs, st)),
        forall|k: int| 0 <= k < cs.len() ==> covered(u, #[trigger] cs[k] as int, ingest(u, cs, st)),
    decreases cs.len(),
{
    if cs.len() > 0 {
        let d = cs.drop_last();
        let mid = ingest(u, d, st);
        lemma_first_pass(u, d, st);
        lemma_step(u, cs.last() as int, mid);
        lemma_grows_trans(st, mid, ingest(u, cs, st));
        assert forall|k: int| 0 <= k < cs.len() implies covered(u, #[trigger] cs[k] as int, ingest(u, cs, st)) by {
            if k < cs.len() - 1 {
                assert(cs[k] == d[k]);
                lemma_covered_mono(u, cs[k] as int, mid, ingest(u, cs, st));
            }
        }
    } else {
        assert(st.seen.subset_of(st.seen));
    }
}

proof fn lemma_second_pass(u: DwarfUnit, cs: Seq<usize>, st: IngestState)
    requires
        forall|k: int| 0 <= k < cs.len() ==> covered(u, #[trigger] cs[k] as int, st),
    ensures
        ingest(u, cs, st) == st,
    decreases cs.len(),
{
    if cs.len() > 0 {
        let d = cs.drop_last();
        assert forall|k: int| 0 <= k < d.len() implies covered(u, #[trigger] d[k] as int, st) by {
            assert(d[k] == cs[k]);
        }
        lemma_second_pass(u, d, st);
        lemma_covered_absorbed(u, cs.last() as int, st);
    }
}

/// Ingesting a compilation unit a second time changes nothing: entries
/// with a declaration site are skipped, and the others offer definitions
/// no larger than those already kept.
pub proof fn lemma_reingest_unit(u: DwarfUnit, st: IngestState)
    ensures
        ingest(u, u.top@, ingest(u, u.top@, st)) == ingest(u, u.top@, st),
{
    lemma_first_pass(u, u.top@, st);
    lemma_second_pass(u, u.top@, ingest(u, u.top@, st));
}

proof fn lemma_hex_digit_injective(a: nat, b: nat)
    requires
        a < 16,
        b < 16,
        hex_digit(a) == hex_digit(b),
    ensures
        a == b,
{
    assert(hex_digit(a) as u32 == if a < 10 { a + 48 } else { a + 87 });
    assert(hex_digit(b) as u32 == if b < 10 { b + 48 } else { b + 87 });
}

proof fn lemma_hex_len(n: nat)
    ensures
        hex_of(n).len() >= 1,
        n >= 16 ==> hex_of(n).len() >= 2,
    decreases n,
{
    if n >= 16 {
        lemma_hex_len(n / 16);
    }
}

proof fn lemma_hex_injective(a: nat, b: nat)
    requires
        hex_of(a) == hex_of(b),
    ensures
        a == b,
    decreases a,
{
    lemma_hex_len(a);
    lemma_hex_len(b);
    if a < 16 && b < 16 {
        assert(hex_of(a)[0] == hex_digit(a));
        assert(hex_of(b)[0] == hex_digit(b));
        lemma_hex_digit_injective(a, b);
    } else if a >= 16 && b >= 16 {
        let ha = hex_of(a);
        assert(ha.last() == hex_digit(a % 16));
        assert(hex_of(b).last() == hex_digit(b % 16));
        lemma_hex_digit_injective(a % 16, b % 16);
        assert(ha.drop_last() == hex_of(a / 16));
        assert(hex_of(b).drop_last() == hex_of(b / 16));
        lemma_hex_injective(a / 16, b / 16);
    } else {
        lemma_hex_len(a / 16);
        lemma_hex_len(b / 16);
    }
}

/// Two anonymous types at different offsets of the debugging information
/// get different names.
pub proof fn lemma_anonymous_names_distinct(e1: DwarfEntry, e2: DwarfEntry)
    requires
        e1.name is None,
        e2.name is None,
        e1.offset != e2.offset,
    ensures
        entry_name(e1) != entry_name(e2),
{
    let p = "__unnamed_"@;
    if entry_name(e1) == entry_name(e2) {
        assert((p + hex_of(e1.offset as nat)).subrange(p.len() as int, entry_name(e1).len() as int)
            == hex_of(e1.offset as nat));
        assert((p + hex_of(e2.offset as nat)).subrange(p.len() as int, entry_name(e2).len() as int)
            == hex_of(e2.offset as nat));
        lemma_hex_injective(e1.offset as nat, e2.offset as nat);
    }
}

/// The members among `fs` of field list `list`, in order, each as its name,
/// offset and type.
pub open spec fn list_member_pairs(
    t: crate::pdb::PdbTypeTable,
    list: u32,
    fs: Seq<crate::pdb::PdbField>,
    limit: u32,
) -> Seq<(Seq<char>, (u64, crate::types::TypeView))>
    decreases fs.len(),
{
    if fs.len() == 0 {
        Seq::empty()
    } else {
        let rest = list_member_pairs(t, list, fs.drop_last(), limit);
        match fs.last() {
            crate::pdb::PdbField::Member { name, offset, field_type } => rest.push(
                (
                    crate::pdb::pdb_type_name(name@, list),
                    (offset, crate::pdb::pdb_type(t, field_type, limit, crate::pdb::table_fuel(t))->0),
                ),
            ),
            _ => rest,
        }
    }
}

/// Every member among `fs` has a type that can be read.
pub open spec fn members_readable(
    t: crate::pdb::PdbTypeTable,
    fs: Seq<crate::pdb::PdbField>,
    limit: u32,
) -> bool {
    forall|k: int|
        0 <= k < fs.len() ==> match #[trigger] fs[k] {
            crate::pdb::PdbField::Member { field_type, .. } => crate::pdb::pdb_type(
                t,
                field_type,
                limit,
                crate::pdb::table_fuel(t),
            ) is Some,
            _ => true,
        }
}

/// The members of the field-list chain that starts at `list`, in order;
/// none when a list of the chain cannot be read.
pub open spec fn chain_pairs(t: crate::pdb::PdbTypeTable, list: u32, limit: u32, fuel: nat) -> Option<
    Seq<(Seq<char>, (u64, crate::types::TypeView))>,
>
    decreases fuel,
{
    match crate::pdb::record_at(t, list, limit) {
        None => None,
        Some(crate::pdb::PdbRecord::FieldList { fields, continuation }) => {
            let p = list_member_pairs(t, list, fields@, limit);
            match continuation {
                None => Some(p),
                Some(c) => if fuel == 0 {
                    Some(p)
                } else {
                    match chain_pairs(t, c, limit, (fuel - 1) as nat) {
                        Some(q) => Some(p + q),
                        None => None,
                    }
                },
            }
        },
        Some(_) => Some(Seq::empty()),
    }
}

/// Every member of the chain has a type that can be read.
pub open spec fn chain_readable(t: crate::pdb::PdbTypeTable, list: u32, limit: u32, fuel: nat) -> bool
    decreases fuel,
{
    match crate::pdb::record_at(t, list, limit) {
        Some(crate::pdb::PdbRecord::FieldList { fields, continuation }) => members_readable(
            t,
            fields@,
            limit,
        ) && match continuation {
            Some(c) => fuel == 0 || chain_readable(t, c, limit, (fuel - 1) as nat),
            None => true,
        },
        _ => true,
    }
}

proof fn lemma_member_fold_pairs(
    t: crate::pdb::PdbTypeTable,
    list: u32,
    fs: Seq<crate::pdb::PdbField>,
    limit: u32,
    acc: Seq<(Seq<char>, (u64, crate::types::TypeView))>,
)
    requires
        members_readable(t, fs, limit),
    ensures
        crate::pdb::member_fold(t, list, fs, limit, acc) == Some(
            crate::maps::put_all_onto(acc, list_member_pairs(t, list, fs, limit)),
        ),
    decreases fs.len(),
{
    if fs.len() > 0 {
        let d = fs.drop_last();
        assert forall|k: int| 0 <= k < d.len() implies match #[trigger] d[k] {
            crate::pdb::PdbField::Member { field_type, .. } => crate::pdb::pdb_type(
                t,
                field_type,
                limit,
                crate::pdb::table_fuel(t),
            ) is Some,
            _ => true,
        } by {
            assert(d[k] == fs[k]);
        }
        lemma_member_fold_pairs(t, list, d, limit, acc);
        assert(fs[fs.len() - 1] == fs.last());
        let rest = list_member_pairs(t, list, d, limit);
        if let crate::pdb::PdbField::Member { name, offset, field_type } = fs.last() {
            let x = (
                crate::pdb::pdb_type_name(name@, list),
                (offset, crate::pdb::pdb_type(t, field_type, limit, crate::pdb::table_fuel(t))->0),
            );
            assert(rest.push(x).drop_last() == rest);
        }
    }
}

proof fn lemma_chain(
    t: crate::pdb::PdbTypeTable,
    list: u32,
    limit: u32,
    fuel: nat,
    acc: Seq<(Seq<char>, (u64, crate::types::TypeView))>,
)
    requires
        chain_readable(t, list, limit, fuel),
    ensures
        match chain_pairs(t, list, limit, fuel) {
            Some(p) => crate::pdb::struct_members_of(t, list, limit, fuel, acc) == Some(
                crate::maps::put_all_onto(acc, p),
            ),
            None => crate::pdb::struct_members_of(t, list, limit, fuel, acc) is None,
        },
    decreases fuel,
{
    match crate::pdb::record_at(t, list, limit) {
        Some(crate::pdb::PdbRecord::FieldList { fields, continuation }) => {
            lemma_member_fold_pairs(t, list, fields@, limit, acc);
            let p = list_member_pairs(t, list, fields@, limit);
            let a = crate::maps::put_all_onto(acc, p);
            if let Some(c) = continuation {
                if fuel > 0 {
                    lemma_chain(t, c, limit, (fuel - 1) as nat, a);
                    if let Some(q) = chain_pairs(t, c, limit, (fuel - 1) as nat) {
                        crate::maps::lemma_put_all_concat(acc, p, q);
                    }
                }
            }
        },
        _ => {},
    }
}

/// Normalizing a PDB struct keeps its members: over its field list and the
/// lists it continues into, when the members have distinct names there is
/// exactly one entry per member, in declaration order, and other entries
/// add none; a name declared more than once holds its last declaration.
pub proof fn lemma_pdb_struct_round_trip(t: crate::pdb::PdbTypeTable, list: u32, limit: u32, fuel: nat)
    requires
        chain_readable(t, list, limit, fuel),
        chain_pairs(t, list, limit, fuel) is Some,
    ensures
        ({
            let pairs = chain_pairs(t, list, limit, fuel)->0;
            let r = crate::pdb::struct_members_of(t, list, limit, fuel, Seq::empty());
            &&& r is Some
            &&& (forall|a: int, b: int| 0 <= a < b < pairs.len() ==> pairs[a].0 != pairs[b].0)
                ==> r->0 == pairs
            &&& forall|j: int|
                0 <= j < pairs.len() && (forall|m: int| j < m < pairs.len() ==> pairs[m].0 != pairs[j].0)
                    ==> lookup(r->0, #[trigger] pairs[j].0) == Some(pairs[j].1)
        }),
{
    let pairs = chain_pairs(t, list, limit, fuel)->0;
    lemma_chain(t, list, limit, fuel, Seq::empty());
    if forall|a: int, b: int| 0 <= a < b < pairs.len() ==> pairs[a].0 != pairs[b].0 {
        crate::maps::lemma_put_all_distinct(pairs);
    }
    assert forall|j: int|
        0 <= j < pairs.len() && (forall|m: int| j < m < pairs.len() ==> pairs[m].0 != pairs[j].0)
            implies lookup(
            crate::pdb::struct_members_of(t, list, limit, fuel, Seq::empty())->0,
            #[trigger] pairs[j].0,
        ) == Some(pairs[j].1) by {
        crate::maps::lemma_put_all_last(Seq::empty(), pairs, j);
    }
}

/// Offering a definition under `name`: the name then holds the new
/// definition when it was absent or had fewer members, and keeps the old one
/// otherwise; every other name keeps its definition.
pub proof fn lemma_merge_step<V>(s: Seq<(Seq<char>, V)>, name: Seq<char>, d: V, count: spec_fn(V) -> nat)
    ensures
        lookup(merge_def(s, name, d, count), name) == (match lookup(s, name) {
            Some(prev) => if count(d) > count(prev) {
                Some(d)
            } else {
                Some(prev)
            },
            None => Some(d),
        }),
        forall|q: Seq<char>|
            q != name ==> #[trigger] lookup(merge_def(s, name, d, count), q) == lookup(s, q),
{
    crate::maps::lemma_put_put(s, name, d, d);
    assert forall|q: Seq<char>| q != name implies #[trigger] lookup(merge_def(s, name, d, count), q)
        == lookup(s, q) by {
        crate::maps::lemma_lookup_put_other(s, name, d, q);
    }
}

/// The complete declaration sites of the type definitions among `cs`.
pub open spec fn sites_of(u: DwarfUnit, cs: Seq<usize>) -> Set<(Seq<char>, u64, u64)>
    decreases cs.len(),
{
    if cs.len() == 0 {
        Set::empty()
    } else {
        let rest = sites_of(u, cs.drop_last());
        let e = u.entries@[cs.last() as int];
        if is_type_tag(e.tag) && !e.declaration && decl_site(e) is Some {
            rest.insert(decl_site(e)->0)
        } else {
            rest
        }
    }
}

/// A type definition with a complete declaration site adds nothing when the
/// site was seen before; otherwise the site is recorded and the definition
/// offered under the more-members rule.
pub proof fn lemma_entry_with_site(u: DwarfUnit, c: int, st: IngestState)
    requires
        is_type_tag(u.entries@[c].tag),
        !u.entries@[c].declaration,
        decl_site(u.entries@[c]) is Some,
    ensures
        ({
            let site = decl_site(u.entries@[c])->0;
            &&& st.seen.contains(site) ==> ingest_entry(u, c, st) == st
            &&& !st.seen.contains(site) ==> ingest_entry(u, c, st) == define(
                u,
                c,
                IngestState { seen: st.seen.insert(site), ..st },
            ) && ingest_entry(u, c, st).seen == st.seen.insert(site)
        }),
{
    let site = decl_site(u.entries@[c])->0;
    lemma_define_grows(u, c, IngestState { seen: st.seen.insert(site), ..st });
}

/// After ingesting the entries `cs`, the recorded sites are those recorded
/// before together with the complete sites of the type definitions among
/// them.
pub proof fn lemma_ingest_sites(u: DwarfUnit, cs: Seq<usize>, st: IngestState)
    ensures
        ingest(u, cs, st).seen == st.seen.union(sites_of(u, cs)),
    decreases cs.len(),
{
    if cs.len() == 0 {
        assert(st.seen.union(Set::empty()) =~= st.seen);
    } else {
        let d = cs.drop_last();
        lemma_ingest_sites(u, d, st);
        let mid = ingest(u, d, st);
        let c = cs.last() as int;
        let e = u.entries@[c];
        if is_type_tag(e.tag) && !e.declaration {
            match decl_site(e) {
                Some(site) => {
                    lemma_define_grows(u, c, IngestState { seen: mid.seen.insert(site), ..mid });
                    assert(ingest(u, cs, st).seen =~= st.seen.union(sites_of(u, cs)));
                },
                None => {
                    lemma_define_grows(u, c, mid);
                },
            }
        }
    }
}

/// The struct named `n` embeds a present struct named `c` through one of
/// its members.
pub open spec fn embeds(p: Profile, n: Seq<char>, c: Seq<char>) -> bool {
    match lookup(p.struct_seq(), n) {
        Some(s) => exists|j: int|
            0 <= j < s.field_seq().len() && ((#[trigger] s.field_seq()[j]).1.type_ matches Type::Struct(r)
                && r.name@ == c) && lookup(p.struct_seq(), c) is Some,
        None => false,
    }
}

/// `rank` orders the structs so that a struct ranks above every struct it
/// embeds, and below the number of structs: the embeddings form no cycle.
pub open spec fn ranked(p: Profile, rank: spec_fn(Seq<char>) -> nat) -> bool {
    &&& forall|n: Seq<char>|
        #![trigger lookup(p.struct_seq(), n)]
        lookup(p.struct_seq(), n) is Some ==> rank(n) < p.struct_seq().len()
    &&& forall|n: Seq<char>, c: Seq<char>| #[trigger] embeds(p, n, c) ==> rank(c) < rank(n)
}

proof fn lemma_nested_stable(
    p: Profile,
    rank: spec_fn(Seq<char>) -> nat,
    n: Seq<char>,
    i: nat,
    f: Seq<char>,
    m: SearchMode,
    e1: nat,
    e2: nat,
)
    requires
        ranked(p, rank),
        lookup(p.struct_seq(), n) is Some,
        rank(n) <= e1 + 1,
        rank(n) <= e2 + 1,
    ensures
        nested(p, lookup(p.struct_seq(), n)->0.field_seq(), i, f, m, e1) == nested(
            p,
            lookup(p.struct_seq(), n)->0.field_seq(),
            i,
            f,
            m,
            e2,
        ),
    decreases rank(n), 0nat, lookup(p.struct_seq(), n)->0.field_seq().len() - i,
{
    let fields = lookup(p.struct_seq(), n)->0.field_seq();
    if i < fields.len() {
        lemma_nested_stable(p, rank, n, i + 1, f, m, e1, e2);
        if let Type::Struct(r) = fields[i as int].1.type_ {
            let c = r.name@;
            if lookup(p.struct_seq(), c) is Some {
                assert(embeds(p, n, c));
                lemma_resolve_stable(p, rank, c, f, m, e1, e2);
            }
        }
    }
}

proof fn lemma_resolve_stable(
    p: Profile,
    rank: spec_fn(Seq<char>) -> nat,
    n: Seq<char>,
    f: Seq<char>,
    m: SearchMode,
    d1: nat,
    d2: nat,
)
    requires
        ranked(p, rank),
        rank(n) <= d1,
        rank(n) <= d2,
    ensures
        resolve(p, n, f, m, d1) == resolve(p, n, f, m, d2),
    decreases rank(n), 1nat, 0nat,
{
    if let Some(s) = lookup(p.struct_seq(), n) {
        if d1 > 0 && d2 > 0 {
            lemma_nested_stable(p, rank, n, 0, f, m, (d1 - 1) as nat, (d2 - 1) as nat);
        } else if d1 != d2 {
            let e = if d1 > 0 { (d1 - 1) as nat } else { (d2 - 1) as nat };
            lemma_nested_absent(p, rank, n, 0, f, m, e);
        }
    }
}

proof fn lemma_nested_absent(
    p: Profile,
    rank: spec_fn(Seq<char>) -> nat,
    n: Seq<char>,
    i: nat,
    f: Seq<char>,
    m: SearchMode,
    e: nat,
)
    requires
        ranked(p, rank),
        lookup(p.struct_seq(), n) is Some,
        rank(n) == 0,
    ensures
        nested(p, lookup(p.struct_seq(), n)->0.field_seq(), i, f, m, e) is None,
    decreases lookup(p.struct_seq(), n)->0.field_seq().len() - i,
{
    let fields = lookup(p.struct_seq(), n)->0.field_seq();
    if i < fields.len() {
        lemma_nested_absent(p, rank, n, i + 1, f, m, e);
        if let Type::Struct(r) = fields[i as int].1.type_ {
            if lookup(p.struct_seq(), r.name@) is Some {
                assert(embeds(p, n, r.name@));
                assert(rank(r.name@) < rank(n));
            } else {
                assert(resolve(p, r.name@, f, m, e) is None);
            }
        }
    }
}

/// The search through members `i..`, each embedded struct resolved as a
/// query of its own.
pub open spec fn first_embedded(
    p: Profile,
    fields: Seq<(Seq<char>, crate::types::Field)>,
    i: nat,
    f: Seq<char>,
    m: SearchMode,
) -> Option<crate::offsets::FieldDescriptor>
    decreases fields.len() - i,
{
    if i >= fields.len() {
        None
    } else {
        let rest = first_embedded(p, fields, i + 1, f, m);
        match fields[i as int].1.type_ {
            Type::Struct(r) => match resolve_field(p, r.name@, f, m) {
                Some(d) => match crate::offsets::shifted(d, fields[i as int].1.offset) {
                    Some(x) => Some(x),
                    None => rest,
                },
                None => rest,
            },
            _ => rest,
        }
    }
}

proof fn lemma_first_embedded(
    p: Profile,
    rank: spec_fn(Seq<char>) -> nat,
    n: Seq<char>,
    i: nat,
    f: Seq<char>,
    m: SearchMode,
)
    requires
        ranked(p, rank),
        lookup(p.struct_seq(), n) is Some,
    ensures
        nested(p, lookup(p.struct_seq(), n)->0.field_seq(), i, f, m, (p.struct_seq().len() - 1) as nat)
            == first_embedded(p, lookup(p.struct_seq(), n)->0.field_seq(), i, f, m),
    decreases lookup(p.struct_seq(), n)->0.field_seq().len() - i,
{
    let fields = lookup(p.struct_seq(), n)->0.field_seq();
    let d = p.struct_seq().len();
    if i < fields.len() {
        lemma_first_embedded(p, rank, n, i + 1, f, m);
        if let Type::Struct(r) = fields[i as int].1.type_ {
            let c = r.name@;
            if lookup(p.struct_seq(), c) is Some {
                assert(embeds(p, n, c));
                lemma_resolve_stable(p, rank, c, f, m, (d - 1) as nat, d);
            }
        }
    }
}

/// Where the embeddings form no cycle, a field that a struct does not own
/// is found as in the first embedded struct, in declaration order, that
/// resolves it on its own, moved by the embedding member's offset.
pub proof fn lemma_nested_field_resolution(
    p: Profile,
    rank: spec_fn(Seq<char>) -> nat,
    n: Seq<char>,
    f: Seq<char>,
    m: SearchMode,
)
    requires
        ranked(p, rank),
        lookup(p.struct_seq(), n) is Some,
        lookup(lookup(p.struct_seq(), n)->0.field_seq(), f) is None,
    ensures
        resolve_field(p, n, f, m) == first_embedded(
            p,
            lookup(p.struct_seq(), n)->0.field_seq(),
            0,
            f,
            m,
        ),
{
    lemma_first_embedded(p, rank, n, 0, f, m);
}

} // verus!