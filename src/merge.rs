//! The ingestion policy shared by both normalizers: a record of the
//! declaration sites already processed, and the rule that settles two
//! definitions under one name.
use crate::maps::{
    enum_entries, enums_get, enums_insert, fields_len, key_pos, lemma_key_pos_bounds,
    lemma_key_pos_push, lookup, put,
    struct_entries, structs_get, structs_insert, u64_entries, u64map_get, u64map_insert,
    u64map_len, u64map_new, variants_len,
};
use crate::maps::{lemma_put_map, map_vals};
use crate::types::{enum_view, struct_view, Enum, EnumView, Struct, StructView};
use indexmap::IndexMap;
use vstd::prelude::*;

verus! {

fn contains_site(list: &Vec<(u64, u64)>, line: u64, column: u64) -> (r: bool)
    ensures
        r == list@.contains((line, column)),
{
    let mut i: usize = 0;
    while i < list.len()
        invariant
            i <= list.len(),
            forall|j: int| 0 <= j < i ==> list@[j] != (line, column),
        decreases list.len() - i,
    {
        if list[i].0 == line && list[i].1 == column {
            assert(list@[i as int] == (line, column));
            return true;
        }
        i = i + 1;
    }
    false
}

/// Entries after offering definition `new` under `name`: it is kept when
/// the name is new, or when it has more members (by `count`) than the
/// definition already present.
pub open spec fn merge_def<V>(s: Seq<(Seq<char>, V)>, name: Seq<char>, new: V, count: spec_fn(V) -> nat) -> Seq<
    (Seq<char>, V),
> {
    match lookup(s, name) {
        Some(prev) => if count(new) > count(prev) {
            put(s, name, new)
        } else {
            s
        },
        None => put(s, name, new),
    }
}

pub open spec fn struct_members(v: StructView) -> nat {
    v.fields.len()
}

pub open spec fn enum_members(v: EnumView) -> nat {
    v.variants.len()
}

/// Struct collection as views.
pub open spec fn struct_views(m: IndexMap<String, Struct>) -> Seq<(Seq<char>, StructView)> {
    map_vals(struct_entries(m), |s: Struct| struct_view(s))
}

/// Enum collection as views.
pub open spec fn enum_views(m: IndexMap<String, Enum>) -> Seq<(Seq<char>, EnumView)> {
    map_vals(enum_entries(m), |e: Enum| enum_view(e))
}

/// Offers a struct definition under `name` (see [`merge_def`]).
pub fn merge_struct(structs: &mut IndexMap<String, Struct>, name: String, new: Struct)
    ensures
        struct_views(*final(structs)) == merge_def(
            struct_views(*old(structs)),
            name@,
            new@,
            |v: StructView| struct_members(v),
        ),
{
    let ghost g = |s: Struct| struct_view(s);
    proof {
        lemma_put_map(struct_entries(*structs), g, name@, new);
    }
    let replace = match structs_get(structs, name.as_str()) {
        Some(prev) => fields_len(&new.fields) > fields_len(&prev.fields),
        None => true,
    };
    if replace {
        structs_insert(structs, name, new);
    }
}

/// Offers an enum definition under `name` (see [`merge_def`]).
pub fn merge_enum(enums: &mut IndexMap<String, Enum>, name: String, new: Enum)
    ensures
        enum_views(*final(enums)) == merge_def(
            enum_views(*old(enums)),
            name@,
            new@,
            |v: EnumView| enum_members(v),
        ),
{
    let ghost g = |e: Enum| enum_view(e);
    proof {
        lemma_put_map(enum_entries(*enums), g, name@, new);
    }
    let replace = match enums_get(enums, name.as_str()) {
        Some(prev) => variants_len(&new.fields) > variants_len(&prev.fields),
        None => true,
    };
    if replace {
        enums_insert(enums, name, new);
    }
}

/// Declaration sites (file, line, column) already processed.
pub struct DeclCache {
    files: IndexMap<String, u64>,
    sites: Vec<Vec<(u64, u64)>>,
}

impl DeclCache {
    /// Each file's number is its position, and each has a list of sites.
    pub closed spec fn wf(&self) -> bool {
        &&& self.sites.len() == u64_entries(self.files).len()
        &&& forall|j: int|
            0 <= j < u64_entries(self.files).len() ==> #[trigger] u64_entries(self.files)[j].1
                == j
    }

    /// Whether the site was recorded.
    pub closed spec fn has(&self, file: Seq<char>, line: u64, column: u64) -> bool {
        match lookup(u64_entries(self.files), file) {
            Some(id) => 0 <= id < self.sites.len() && self.sites[id as int]@.contains(
                (line, column),
            ),
            None => false,
        }
    }

    /// The recorded sites.
    pub open spec fn seen(&self) -> Set<(Seq<char>, u64, u64)> {
        Set::new(|t: (Seq<char>, u64, u64)| self.has(t.0, t.1, t.2))
    }

    /// An empty record.
    pub fn new() -> (r: DeclCache)
        ensures
            r.wf(),
            forall|f: Seq<char>, l: u64, c: u64| !r.has(f, l, c),
            r.seen() == Set::<(Seq<char>, u64, u64)>::empty(),
    {
        let r = DeclCache { files: u64map_new(), sites: Vec::new() };
        assert(r.seen() =~= Set::<(Seq<char>, u64, u64)>::empty());
        r
    }

    /// Records a site; `true` when it had not been recorded before.
    pub fn insert(&mut self, file: String, line: u64, column: u64) -> (r: bool)
        requires
            old(self).wf(),
        ensures
            final(self).wf(),
            r == !old(self).has(file@, line, column),
            r == !old(self).seen().contains((file@, line, column)),
            final(self).seen() == old(self).seen().insert((file@, line, column)),
            forall|f: Seq<char>, l: u64, c: u64|
                #[trigger] final(self).has(f, l, c) == (old(self).has(f, l, c) || (f == file@
                    && l == line && c == column)),
    {
        let ghost old_self = *self;
        let ghost old_entries = u64_entries(self.files);
        proof {
            lemma_key_pos_bounds(old_entries, file@);
        }
        let id: usize = match u64map_get(&self.files, file.as_str()) {
            Some(id) => id as usize,
            None => {
                let n = u64map_len(&self.files);
                u64map_insert(&mut self.files, file.clone(), n as u64);
                self.sites.push(Vec::new());
                proof {
                    assert forall|q: Seq<char>| #[trigger]
                        key_pos(u64_entries(self.files), q) == (if q == file@ {
                            Some(n as int)
                        } else {
                            key_pos(old_entries, q)
                        }) by {
                        lemma_key_pos_push(old_entries, file@, n as u64, q);
                    }
                    assert forall|j: int| 0 <= j < u64_entries(self.files).len() implies #[trigger]
                        u64_entries(self.files)[j].1 == j by {
                        if j < n {
                            assert(u64_entries(self.files)[j] == old_entries[j]);
                        }
                    }
                    assert forall|f: Seq<char>, l: u64, c: u64| #[trigger]
                        self.has(f, l, c) == old_self.has(f, l, c) by {
                        lemma_key_pos_bounds(old_entries, f);
                        if f != file@ {
                            if let Some(k) = key_pos(old_entries, f) {
                                assert(old_entries[k].1 == k);
                                assert(self.sites[k] == old_self.sites[k]);
                            }
                        }
                    }
                }
                n
            },
        };
        proof {
            lemma_key_pos_bounds(u64_entries(self.files), file@);
        }
        assert(lookup(u64_entries(self.files), file@) == Some(id as u64));
        assert(id < self.sites.len());
        let ghost mid = *self;
        assert(old_self.has(file@, line, column) == self.sites[id as int]@.contains((line, column)));
        if contains_site(&self.sites[id], line, column) {
            assert(self.seen() =~= old_self.seen().insert((file@, line, column)));
            return false;
        }
        self.sites[id].push((line, column));
        proof {
            assert(self.sites[id as int]@ == mid.sites[id as int]@.push((line, column)));
            assert forall|f: Seq<char>, l: u64, c: u64| #[trigger]
                self.has(f, l, c) == (old_self.has(f, l, c) || (f == file@ && l == line && c
                    == column)) by {
                lemma_key_pos_bounds(u64_entries(self.files), f);
                if let Some(k) = key_pos(u64_entries(self.files), f) {
                    assert(u64_entries(self.files)[k].1 == k);
                    if k != id {
                        assert(self.sites[k] == mid.sites[k]);
                    } else {
                        assert(f == file@);
                        if !(l == line && c == column) {
                            assert(self.sites[k]@.contains((l, c)) ==> mid.sites[k]@.contains((l, c)));
                            assert(mid.sites[k]@.contains((l, c)) ==> self.sites[k]@.contains((l, c))) by {
                                if mid.sites[k]@.contains((l, c)) {
                                    let w = choose|w: int| 0 <= w < mid.sites[k]@.len() && mid.sites[k]@[w] == (l, c);
                                    assert(self.sites[k]@[w] == (l, c));
                                }
                            }
                        } else {
                            assert(self.sites[k]@[self.sites[k]@.len() - 1] == (l, c));
                        }
                    }
                }
            }
            assert(self.seen() =~= old_self.seen().insert((file@, line, column)));
        }
        true
    }
}

} // verus!
