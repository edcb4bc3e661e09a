//! Ordered, name-keyed collections of the model.
//!
//! Every collection is an `indexmap::IndexMap` keyed by `String`. Its
//! contents are described as the sequence of its entries in insertion order;
//! the helpers below give lookup and insertion on such a sequence.
use crate::types::{Enum, Field, Struct, Variant};
use indexmap::IndexMap;
use vstd::prelude::*;

verus! {

/// `indexmap::IndexMap`, opaque here: its contents are read through the
/// names and wrappers below.
#[verifier::external_type_specification]
#[verifier::external_body]
#[verifier::reject_recursive_types(K)]
#[verifier::reject_recursive_types(V)]
#[verifier::reject_recursive_types(S)]
pub struct ExIndexMap<K, V, S>(IndexMap<K, V, S>);

/// Position of the first entry whose key is `k`.
pub open spec fn key_pos<V>(s: Seq<(Seq<char>, V)>, k: Seq<char>) -> Option<int>
    decreases s.len(),
{
    if s.len() == 0 {
        None
    } else if s[0].0 == k {
        Some(0)
    } else {
        match key_pos(s.drop_first(), k) {
            Some(i) => Some(i + 1),
            None => None,
        }
    }
}

/// Value stored under key `k`, if any.
pub open spec fn lookup<V>(s: Seq<(Seq<char>, V)>, k: Seq<char>) -> Option<V> {
    match key_pos(s, k) {
        Some(i) => Some(s[i].1),
        None => None,
    }
}

/// Entries after inserting `v` under `k`: an existing key keeps its place
/// and takes the new value, a new key goes last.
pub open spec fn put<V>(s: Seq<(Seq<char>, V)>, k: Seq<char>, v: V) -> Seq<(Seq<char>, V)> {
    match key_pos(s, k) {
        Some(i) => s.update(i, (k, v)),
        None => s.push((k, v)),
    }
}

pub proof fn lemma_key_pos_bounds<V>(s: Seq<(Seq<char>, V)>, k: Seq<char>)
    ensures
        key_pos(s, k) matches Some(i) ==> 0 <= i < s.len() && s[i].0 == k,
        key_pos(s, k) matches Some(i) ==> forall|j: int| 0 <= j < i ==> s[j].0 != k,
        key_pos(s, k) is None ==> forall|j: int| 0 <= j < s.len() ==> s[j].0 != k,
    decreases s.len(),
{
    if s.len() > 0 && s[0].0 != k {
        lemma_key_pos_bounds(s.drop_first(), k);
        if let Some(i) = key_pos(s, k) {
            assert forall|j: int| 0 <= j < i implies s[j].0 != k by {
                if j > 0 {
                    assert(s[j] == s.drop_first()[j - 1]);
                }
            }
        }
        assert forall|j: int| 0 <= j < s.len() && key_pos(s, k) is None implies s[j].0 != k by {
            if j > 0 {
                assert(s[j] == s.drop_first()[j - 1]);
            }
        }
    }
}

pub proof fn lemma_key_pos_push<V>(s: Seq<(Seq<char>, V)>, k: Seq<char>, v: V, q: Seq<char>)
    requires
        key_pos(s, k) is None,
    ensures
        key_pos(s.push((k, v)), q) == (if q == k {
            Some(s.len() as int)
        } else {
            key_pos(s, q)
        }),
    decreases s.len(),
{
    lemma_key_pos_bounds(s, q);
    if s.len() > 0 {
        assert(s.push((k, v))[0] == s[0]);
        assert(s[0].0 != k);
        assert(s.push((k, v)).drop_first() == s.drop_first().push((k, v)));
        assert(key_pos(s.drop_first(), k) is None);
        lemma_key_pos_push(s.drop_first(), k, v, q);
        if s[0].0 != q {
            assert(key_pos(s.push((k, v)), q) == match key_pos(s.drop_first().push((k, v)), q) {
                Some(i) => Some(i + 1),
                None => None,
            });
        }
    } else {
        assert(s.push((k, v))[0] == (k, v));
        assert(s.push((k, v)).drop_first() == Seq::<(Seq<char>, V)>::empty());
        assert(key_pos(s, q) is None);
        assert(key_pos(s.push((k, v)).drop_first(), q) is None);
        assert(s.push((k, v))[0] == (k, v));
        assert(key_pos(s.push((k, v)), q) == (if q == k {
            Some(0int)
        } else {
            None::<int>
        }));
    }
}

pub proof fn lemma_key_pos_at<V>(s: Seq<(Seq<char>, V)>, k: Seq<char>, i: int)
    requires
        0 <= i < s.len(),
        s[i].0 == k,
        forall|j: int| 0 <= j < i ==> s[j].0 != k,
    ensures
        key_pos(s, k) == Some(i),
    decreases s.len(),
{
    if i > 0 {
        assert(s[0].0 != k);
        assert forall|j: int| 0 <= j < i - 1 implies s.drop_first()[j].0 != k by {
            assert(s.drop_first()[j] == s[j + 1]);
        }
        lemma_key_pos_at(s.drop_first(), k, i - 1);
    }
}

/// After an insertion the key holds the inserted value, and a second
/// insertion under the same key overrides the first.
pub proof fn lemma_put_put<V>(s: Seq<(Seq<char>, V)>, k: Seq<char>, a: V, b: V)
    ensures
        lookup(put(s, k, a), k) == Some(a),
        put(put(s, k, a), k, b) == put(s, k, b),
{
    lemma_key_pos_bounds(s, k);
    match key_pos(s, k) {
        Some(i) => {
            let t = s.update(i, (k, a));
            assert forall|j: int| 0 <= j < i implies t[j].0 != k by {
                assert(t[j] == s[j]);
            }
            lemma_key_pos_at(t, k, i);
            assert(t.update(i, (k, b)) =~= s.update(i, (k, b)));
        },
        None => {
            lemma_key_pos_push(s, k, a, k);
            assert(s.push((k, a)).update(s.len() as int, (k, b)) =~= s.push((k, b)));
        },
    }
}

/// Insertion under one key leaves every other key's value alone.
pub proof fn lemma_lookup_put_other<V>(s: Seq<(Seq<char>, V)>, k: Seq<char>, v: V, q: Seq<char>)
    requires
        q != k,
    ensures
        lookup(put(s, k, v), q) == lookup(s, q),
{
    lemma_key_pos_bounds(s, k);
    lemma_key_pos_bounds(s, q);
    match key_pos(s, k) {
        Some(i) => {
            let t = s.update(i, (k, v));
            match key_pos(s, q) {
                Some(j) => {
                    assert forall|m: int| 0 <= m < j implies t[m].0 != q by {
                        assert(t[m].0 == s[m].0);
                    }
                    lemma_key_pos_at(t, q, j);
                },
                None => {
                    lemma_key_pos_bounds(t, q);
                    if let Some(j) = key_pos(t, q) {
                        assert(t[j].0 == s[j].0);
                    }
                },
            }
        },
        None => {
            lemma_key_pos_push(s, k, v, q);
            if let Some(j) = key_pos(s, q) {
                assert(s.push((k, v))[j] == s[j]);
            }
        },
    }
}

/// Insertions of the pairs `p`, in order, into `acc`.
pub open spec fn put_all_onto<V>(acc: Seq<(Seq<char>, V)>, p: Seq<(Seq<char>, V)>) -> Seq<
    (Seq<char>, V),
>
    decreases p.len(),
{
    if p.len() == 0 {
        acc
    } else {
        put(put_all_onto(acc, p.drop_last()), p.last().0, p.last().1)
    }
}

/// Insertions in order from an empty collection.
pub open spec fn put_all<V>(p: Seq<(Seq<char>, V)>) -> Seq<(Seq<char>, V)> {
    put_all_onto(Seq::empty(), p)
}

/// Inserting two runs of pairs is inserting their concatenation.
pub proof fn lemma_put_all_concat<V>(acc: Seq<(Seq<char>, V)>, p: Seq<(Seq<char>, V)>, q: Seq<(Seq<char>, V)>)
    ensures
        put_all_onto(put_all_onto(acc, p), q) == put_all_onto(acc, p + q),
    decreases q.len(),
{
    if q.len() == 0 {
        assert(p + q =~= p);
    } else {
        lemma_put_all_concat(acc, p, q.drop_last());
        assert((p + q).drop_last() =~= p + q.drop_last());
        assert((p + q).last() == q.last());
    }
}

/// With distinct keys nothing is replaced: every pair stays, in order.
pub proof fn lemma_put_all_distinct<V>(p: Seq<(Seq<char>, V)>)
    requires
        forall|i: int, j: int| 0 <= i < j < p.len() ==> p[i].0 != p[j].0,
    ensures
        put_all(p) == p,
    decreases p.len(),
{
    if p.len() > 0 {
        let q = p.drop_last();
        assert forall|i: int, j: int| 0 <= i < j < q.len() implies q[i].0 != q[j].0 by {
            assert(q[i] == p[i] && q[j] == p[j]);
        }
        lemma_put_all_distinct(q);
        lemma_key_pos_bounds(q, p.last().0);
        if let Some(k) = key_pos(q, p.last().0) {
            assert(q[k] == p[k]);
        }
        assert(q.push(p.last()) =~= p);
    }
}

/// A key holds the value of its last pair.
pub proof fn lemma_put_all_last<V>(acc: Seq<(Seq<char>, V)>, p: Seq<(Seq<char>, V)>, j: int)
    requires
        0 <= j < p.len(),
        forall|m: int| j < m < p.len() ==> p[m].0 != p[j].0,
    ensures
        lookup(put_all_onto(acc, p), p[j].0) == Some(p[j].1),
    decreases p.len(),
{
    let q = p.drop_last();
    if j == p.len() - 1 {
        lemma_put_put(put_all_onto(acc, q), p.last().0, p.last().1, p.last().1);
    } else {
        assert forall|m: int| j < m < q.len() implies q[m].0 != q[j].0 by {
            assert(q[m] == p[m]);
        }
        lemma_put_all_last(acc, q, j);
        assert(q[j] == p[j]);
        lemma_lookup_put_other(put_all_onto(acc, q), p.last().0, p.last().1, p[j].0);
    }
}

/// Inserting under a key already present keeps its place, changes its
/// value and leaves every other entry as it was; a new key goes last.
pub proof fn lemma_put_in_place<V>(s: Seq<(Seq<char>, V)>, k: Seq<char>, v: V)
    ensures
        key_pos(s, k) matches Some(i) ==> put(s, k, v).len() == s.len() && put(s, k, v)[i] == (k, v)
            && forall|j: int| 0 <= j < s.len() && j != i ==> #[trigger] put(s, k, v)[j] == s[j],
        key_pos(s, k) is None ==> put(s, k, v) == s.push((k, v)),
{
    lemma_key_pos_bounds(s, k);
}

/// The entries with each value mapped by `g`.
pub open spec fn map_vals<V, W>(s: Seq<(Seq<char>, V)>, g: spec_fn(V) -> W) -> Seq<(Seq<char>, W)> {
    s.map_values(|p: (Seq<char>, V)| (p.0, g(p.1)))
}

pub proof fn lemma_key_pos_map<V, W>(s: Seq<(Seq<char>, V)>, g: spec_fn(V) -> W, k: Seq<char>)
    ensures
        key_pos(map_vals(s, g), k) == key_pos(s, k),
    decreases s.len(),
{
    if s.len() > 0 {
        assert(map_vals(s, g).drop_first() == map_vals(s.drop_first(), g));
        lemma_key_pos_map(s.drop_first(), g, k);
    }
}

/// Mapping values commutes with insertion.
pub proof fn lemma_put_map<V, W>(s: Seq<(Seq<char>, V)>, g: spec_fn(V) -> W, k: Seq<char>, v: V)
    ensures
        map_vals(put(s, k, v), g) == put(map_vals(s, g), k, g(v)),
        lookup(map_vals(s, g), k) == (match lookup(s, k) {
            Some(x) => Some(g(x)),
            None => None,
        }),
{
    lemma_key_pos_map(s, g, k);
    lemma_key_pos_bounds(s, k);
    assert(map_vals(put(s, k, v), g) =~= put(map_vals(s, g), k, g(v)));
}

/// Entries of a map from names to integers (symbol addresses, file numbers),
/// in insertion order.
pub uninterp spec fn u64_entries(m: IndexMap<String, u64>) -> Seq<(Seq<char>, u64)>;

/// Relies on `IndexMap::get`: the value stored under an equal key.
#[verifier::external_body]
pub(crate) fn u64map_get(m: &IndexMap<String, u64>, k: &str) -> (r: Option<u64>)
    ensures
        r == lookup(u64_entries(*m), k@),
{
    m.get(k).copied()
}

/// Struct members, in declaration order.
pub uninterp spec fn field_entries(m: IndexMap<String, Field>) -> Seq<(Seq<char>, Field)>;

/// Enum variants, in declaration order.
pub uninterp spec fn variant_entries(m: IndexMap<String, Variant>) -> Seq<(Seq<char>, Variant)>;

/// Structs of a profile, in insertion order.
pub uninterp spec fn struct_entries(m: IndexMap<String, Struct>) -> Seq<(Seq<char>, Struct)>;

/// Enums of a profile, in insertion order.
pub uninterp spec fn enum_entries(m: IndexMap<String, Enum>) -> Seq<(Seq<char>, Enum)>;


/// Relies on `IndexMap::new`: a new map holds no entry.
#[verifier::external_body]
pub(crate) fn u64map_new() -> (r: IndexMap<String, u64>)
    ensures
        u64_entries(r) == Seq::<(Seq<char>, u64)>::empty(),
{
    IndexMap::new()
}

/// Relies on `IndexMap::insert`: an equal key keeps its place and takes the
/// new value, a new key goes last.
#[verifier::external_body]
pub(crate) fn u64map_insert(m: &mut IndexMap<String, u64>, k: String, v: u64)
    ensures
        u64_entries(*final(m)) == put(u64_entries(*old(m)), k@, v),
{
    m.insert(k, v);
}

/// Relies on `IndexMap::len`: the number of entries.
#[verifier::external_body]
pub(crate) fn u64map_len(m: &IndexMap<String, u64>) -> (r: usize)
    ensures
        r == u64_entries(*m).len(),
{
    m.len()
}

/// Relies on `IndexMap::new`: a new map holds no entry.
#[verifier::external_body]
pub(crate) fn fields_new() -> (r: IndexMap<String, Field>)
    ensures
        field_entries(r) == Seq::<(Seq<char>, Field)>::empty(),
{
    IndexMap::new()
}

/// Relies on `IndexMap::insert`: an equal key keeps its place and takes the
/// new value, a new key goes last.
#[verifier::external_body]
pub(crate) fn fields_insert(m: &mut IndexMap<String, Field>, k: String, v: Field)
    ensures
        field_entries(*final(m)) == put(field_entries(*old(m)), k@, v),
{
    m.insert(k, v);
}

/// Relies on `IndexMap::len`: the number of entries.
#[verifier::external_body]
pub(crate) fn fields_len(m: &IndexMap<String, Field>) -> (r: usize)
    ensures
        r == field_entries(*m).len(),
{
    m.len()
}

/// Relies on `IndexMap::get`: the value stored under an equal key.
#[verifier::external_body]
pub(crate) fn fields_get<'a>(m: &'a IndexMap<String, Field>, k: &str) -> (r: Option<&'a Field>)
    ensures
        r is Some <==> lookup(field_entries(*m), k@) is Some,
        r is Some ==> *r->0 == lookup(field_entries(*m), k@)->0,
{
    m.get(k)
}

/// Relies on `IndexMap::get_index`: the entry at position `i`.
#[verifier::external_body]
pub(crate) fn fields_get_index<'a>(m: &'a IndexMap<String, Field>, i: usize) -> (r: (&'a String, &'a Field))
    requires
        i < field_entries(*m).len(),
    ensures
        r.0@ == field_entries(*m)[i as int].0,
        *r.1 == field_entries(*m)[i as int].1,
{
    m.get_index(i).unwrap()
}

/// Relies on `IndexMap::new`: a new map holds no entry.
#[verifier::external_body]
pub(crate) fn variants_new() -> (r: IndexMap<String, Variant>)
    ensures
        variant_entries(r) == Seq::<(Seq<char>, Variant)>::empty(),
{
    IndexMap::new()
}

/// Relies on `IndexMap::insert`: an equal key keeps its place and takes the
/// new value, a new key goes last.
#[verifier::external_body]
pub(crate) fn variants_insert(m: &mut IndexMap<String, Variant>, k: String, v: Variant)
    ensures
        variant_entries(*final(m)) == put(variant_entries(*old(m)), k@, v),
{
    m.insert(k, v);
}

/// Relies on `IndexMap::len`: the number of entries.
#[verifier::external_body]
pub(crate) fn variants_len(m: &IndexMap<String, Variant>) -> (r: usize)
    ensures
        r == variant_entries(*m).len(),
{
    m.len()
}

/// Relies on `IndexMap::new`: a new map holds no entry.
#[verifier::external_body]
pub(crate) fn structs_new() -> (r: IndexMap<String, Struct>)
    ensures
        struct_entries(r) == Seq::<(Seq<char>, Struct)>::empty(),
{
    IndexMap::new()
}

/// Relies on `IndexMap::insert`: an equal key keeps its place and takes the
/// new value, a new key goes last.
#[verifier::external_body]
pub(crate) fn structs_insert(m: &mut IndexMap<String, Struct>, k: String, v: Struct)
    ensures
        struct_entries(*final(m)) == put(struct_entries(*old(m)), k@, v),
{
    m.insert(k, v);
}

/// Relies on `IndexMap::len`: the number of entries.
#[verifier::external_body]
pub(crate) fn structs_len(m: &IndexMap<String, Struct>) -> (r: usize)
    ensures
        r == struct_entries(*m).len(),
{
    m.len()
}

/// Relies on `IndexMap::get`: the value stored under an equal key.
#[verifier::external_body]
pub(crate) fn structs_get<'a>(m: &'a IndexMap<String, Struct>, k: &str) -> (r: Option<&'a Struct>)
    ensures
        r is Some <==> lookup(struct_entries(*m), k@) is Some,
        r is Some ==> *r->0 == lookup(struct_entries(*m), k@)->0,
{
    m.get(k)
}

/// Relies on `IndexMap::new`: a new map holds no entry.
#[verifier::external_body]
pub(crate) fn enums_new() -> (r: IndexMap<String, Enum>)
    ensures
        enum_entries(r) == Seq::<(Seq<char>, Enum)>::empty(),
{
    IndexMap::new()
}

/// Relies on `IndexMap::insert`: an equal key keeps its place and takes the
/// new value, a new key goes last.
#[verifier::external_body]
pub(crate) fn enums_insert(m: &mut IndexMap<String, Enum>, k: String, v: Enum)
    ensures
        enum_entries(*final(m)) == put(enum_entries(*old(m)), k@, v),
{
    m.insert(k, v);
}

/// Relies on `IndexMap::len`: the number of entries.
#[verifier::external_body]
pub(crate) fn enums_len(m: &IndexMap<String, Enum>) -> (r: usize)
    ensures
        r == enum_entries(*m).len(),
{
    m.len()
}

/// Relies on `IndexMap::get`: the value stored under an equal key.
#[verifier::external_body]
pub(crate) fn enums_get<'a>(m: &'a IndexMap<String, Enum>, k: &str) -> (r: Option<&'a Enum>)
    ensures
        r is Some <==> lookup(enum_entries(*m), k@) is Some,
        r is Some ==> *r->0 == lookup(enum_entries(*m), k@)->0,
{
    m.get(k)
}

} // verus!
