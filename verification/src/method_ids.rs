//! Method ids of a service interface: the methods that are not given an id
//! get the next id that is free, counting up from 1.
use vstd::prelude::*;
use vstd::set_lib::{lemma_int_range, lemma_len_subset, set_int_range};

verus! {

/// The ids and method names of a list of entries.
pub open spec fn entries_view(v: Seq<(u32, String)>) -> Seq<(u32, Seq<char>)> {
    v.map_values(|e: (u32, String)| (e.0, e.1@))
}

/// Whether some entry has the id `id`.
pub open spec fn id_used(entries: Seq<(u32, Seq<char>)>, id: int) -> bool {
    exists|i: int| 0 <= i < entries.len() && entries[i].0 == id
}

/// Whether some entry names the method `name`.
pub open spec fn name_used(entries: Seq<(u32, Seq<char>)>, name: Seq<char>) -> bool {
    exists|i: int| 0 <= i < entries.len() && entries[i].1 == name
}

/// Whether `x` is the first id at or after `start` that no entry uses.
pub open spec fn is_first_free(entries: Seq<(u32, Seq<char>)>, start: int, x: int) -> bool {
    &&& start <= x
    &&& !id_used(entries, x)
    &&& forall|y: int| start <= y < x ==> id_used(entries, y)
}

/// The first id at or after `start` that no entry uses.
pub open spec fn first_free(entries: Seq<(u32, Seq<char>)>, start: int) -> int {
    choose|x: int| is_first_free(entries, start, x)
}

/// Whether some id in `start..u32::MAX` is free, so that the search for one
/// stays within `u32`.
pub open spec fn free_id_from(entries: Seq<(u32, Seq<char>)>, start: int) -> bool {
    exists|x: int| start <= x < u32::MAX && !id_used(entries, x)
}

/// The entries after ids are given, in order, to those of `methods` that no
/// entry names yet: each gets the first free id at or after `current`, and
/// the search for the next one starts after it.
pub open spec fn with_method_ids(
    entries: Seq<(u32, Seq<char>)>,
    methods: Seq<Seq<char>>,
    current: int,
) -> Seq<(u32, Seq<char>)>
    decreases methods.len(),
{
    if methods.len() == 0 {
        entries
    } else if name_used(entries, methods[0]) {
        with_method_ids(entries, methods.drop_first(), current)
    } else {
        let a = first_free(entries, current);
        with_method_ids(entries.push((a as u32, methods[0])), methods.drop_first(), a + 1)
    }
}

/// Whether no two entries share an id.
pub open spec fn ids_distinct(entries: Seq<(u32, Seq<char>)>) -> bool {
    forall|i: int, j: int| 0 <= i < j < entries.len() ==> entries[i].0 != entries[j].0
}

/// The first free id is unique.
proof fn lemma_first_free_unique(entries: Seq<(u32, Seq<char>)>, start: int, x: int)
    requires
        is_first_free(entries, start, x),
    ensures
        first_free(entries, start) == x,
{
    let y = first_free(entries, start);
    assert(is_first_free(entries, start, y));
    if y < x {
        assert(id_used(entries, y));
    } else if y > x {
        assert(id_used(entries, x));
    }
}

/// If every id in `lo..hi` is used, there are at least `hi - lo` entries.
proof fn lemma_used_range_len(entries: Seq<(u32, Seq<char>)>, lo: int, hi: int)
    requires
        0 <= lo <= hi,
        forall|y: int| lo <= y < hi ==> id_used(entries, y),
    ensures
        hi - lo <= entries.len(),
{
    let ids = entries.map_values(|e: (u32, Seq<char>)| e.0 as int);
    let s = ids.to_set();
    let r = set_int_range(lo, hi);
    assert forall|y: int| r.contains(y) implies s.contains(y) by {
        assert(id_used(entries, y));
        let i = choose|i: int| 0 <= i < entries.len() && entries[i].0 == y;
        assert(ids[i] == y);
    }
    lemma_int_range(lo, hi);
    ids.lemma_cardinality_of_set();
    lemma_len_subset(r, s);
}

/// A search that starts where every smaller positive id is used finds a free
/// id no larger than the number of entries plus one.
proof fn lemma_free_below_len(entries: Seq<(u32, Seq<char>)>, current: int)
    requires
        1 <= current,
        forall|y: int| 1 <= y < current ==> id_used(entries, y),
    ensures
        exists|x: int| current <= x <= entries.len() + 1 && !id_used(entries, x),
{
    if forall|x: int| current <= x <= entries.len() + 1 ==> id_used(entries, x) {
        assert forall|y: int| 1 <= y < entries.len() + 2 implies id_used(entries, y) by {
            if y >= current {
            }
        }
        lemma_used_range_len(entries, 1, entries.len() + 2int);
    }
}

/// Whether an entry has the id `id`.
fn has_method_id(entries: &Vec<(u32, String)>, id: u32) -> (r: bool)
    ensures
        r == id_used(entries_view(entries@), id as int),
{
    let ghost v = entries_view(entries@);
    let mut i: usize = 0;
    while i < entries.len()
        invariant
            i <= entries@.len(),
            v == entries_view(entries@),
            forall|j: int| 0 <= j < i ==> v[j].0 != id,
        decreases entries@.len() - i,
    {
        if entries[i].0 == id {
            assert(v[i as int].0 == id);
            return true;
        }
        i = i + 1;
    }
    false
}

/// Whether an entry names the method `name`.
fn has_method_name(entries: &Vec<(u32, String)>, name: &String) -> (r: bool)
    ensures
        r == name_used(entries_view(entries@), name@),
{
    let ghost v = entries_view(entries@);
    let mut i: usize = 0;
    while i < entries.len()
        invariant
            i <= entries@.len(),
            v == entries_view(entries@),
            forall|j: int| 0 <= j < i ==> v[j].1 != name@,
        decreases entries@.len() - i,
    {
        if entries[i].1 == *name {
            assert(v[i as int].1 == name@);
            return true;
        }
        i = i + 1;
    }
    false
}

/// Gives `method_name` the first id at or after `start` that no entry uses,
/// adds that entry, and returns the id after it, where the search for the
/// next free id starts.
pub fn allocate_next_valid_method_id(entries: &mut Vec<(u32, String)>, start: u32, method_name: String) -> (next: u32)
    requires
        free_id_from(entries_view(old(entries)@), start as int),
    ensures
        is_first_free(entries_view(old(entries)@), start as int, next - 1),
        entries_view(final(entries)@) == entries_view(old(entries)@).push(((next - 1) as u32, method_name@)),
{
    let ghost v = entries_view(entries@);
    let mut id = start;
    while has_method_id(entries, id)
        invariant
            start <= id,
            v == entries_view(entries@),
            free_id_from(v, start as int),
            forall|y: int| start <= y < id ==> id_used(v, y),
        decreases u32::MAX - id,
    {
        proof {
            let w = choose|x: int| start <= x < u32::MAX && !id_used(v, x);
            if w < id {
                assert(id_used(v, w));
            }
            assert(id < w);
        }
        id = id + 1;
    }
    proof {
        let w = choose|x: int| start <= x < u32::MAX && !id_used(v, x);
        if w < id {
            assert(id_used(v, w));
        }
    }
    entries.push((id, method_name));
    assert(entries_view(entries@) =~= v.push((id, method_name@)));
    id + 1
}

/// Gives every method of `methods` that no entry names yet an id, in order:
/// the first free id at or after the one that follows the last id given,
/// starting at 1.
pub fn create_method_ids(entries: Vec<(u32, String)>, methods: &Vec<String>) -> (r: Vec<(u32, String)>)
    requires
        entries@.len() + methods@.len() < u32::MAX,
    ensures
        entries_view(r@) == with_method_ids(
            entries_view(entries@),
            methods@.map_values(|m: String| m@),
            1,
        ),
{
    let ghost ms = methods@.map_values(|m: String| m@);
    let ghost target = with_method_ids(entries_view(entries@), ms, 1);
    let ghost n0 = entries@.len();
    let mut current: u32 = 1;
    let mut out = entries;
    let mut i: usize = 0;
    assert(ms.subrange(0, ms.len() as int) =~= ms);
    while i < methods.len()
        invariant
            i <= methods@.len(),
            ms == methods@.map_values(|m: String| m@),
            n0 + methods@.len() < u32::MAX,
            out@.len() <= n0 + i,
            1 <= current,
            forall|y: int| 1 <= y < current ==> id_used(entries_view(out@), y),
            with_method_ids(entries_view(out@), ms.subrange(i as int, ms.len() as int), current as int)
                == target,
        decreases methods@.len() - i,
    {
        let ghost v = entries_view(out@);
        let ghost rest = ms.subrange(i as int, ms.len() as int);
        assert(rest[0] == methods@[i as int]@);
        assert(rest.drop_first() =~= ms.subrange(i + 1, ms.len() as int));
        let name = &methods[i];
        if !has_method_name(&out, name) {
            proof {
                lemma_free_below_len(v, current as int);
                let w = choose|x: int| current <= x <= v.len() + 1 && !id_used(v, x);
                assert(v.len() == out@.len());
                assert(current <= w < u32::MAX && !id_used(v, w));
            }
            let next = allocate_next_valid_method_id(&mut out, current, name.clone());
            proof {
                lemma_first_free_unique(v, current as int, next - 1);
                let nv = entries_view(out@);
                assert forall|y: int| 1 <= y < next implies id_used(nv, y) by {
                    if y < current || (current <= y < next - 1) {
                        assert(id_used(v, y));
                        let k = choose|k: int| 0 <= k < v.len() && v[k].0 == y;
                        assert(nv[k] == v[k]);
                    } else {
                        assert(nv[v.len() as int].0 == y);
                    }
                }
            }
            current = next;
        }
        i = i + 1;
    }
    assert(ms.subrange(i as int, ms.len() as int) =~= Seq::<Seq<char>>::empty());
    out
}

/// Giving ids keeps the entries there were, in front, and in the end every
/// method is named by an entry.
pub proof fn law_method_ids_cover_methods(
    entries: Seq<(u32, Seq<char>)>,
    methods: Seq<Seq<char>>,
    current: int,
)
    ensures
        with_method_ids(entries, methods, current).len() >= entries.len(),
        with_method_ids(entries, methods, current).subrange(0, entries.len() as int) == entries,
        forall|k: int|
            0 <= k < methods.len() ==> name_used(#[trigger] with_method_ids(entries, methods, current), methods[k]),
    decreases methods.len(),
{
    if methods.len() > 0 {
        let tail = methods.drop_first();
        let (e2, c2) = if name_used(entries, methods[0]) {
            (entries, current)
        } else {
            let a = first_free(entries, current);
            (entries.push((a as u32, methods[0])), a + 1)
        };
        law_method_ids_cover_methods(e2, tail, c2);
        let r = with_method_ids(entries, methods, current);
        assert(r == with_method_ids(e2, tail, c2));
        assert(r.subrange(0, e2.len() as int) == e2);
        assert(r.subrange(0, entries.len() as int) =~= e2.subrange(0, entries.len() as int));
        assert forall|k: int| 0 <= k < methods.len() implies name_used(r, methods[k]) by {
            if k == 0 {
                let i = if name_used(entries, methods[0]) {
                    choose|i: int| 0 <= i < entries.len() && entries[i].1 == methods[0]
                } else {
                    entries.len() as int
                };
                assert(r[i] == e2[i]);
            } else {
                assert(methods[k] == tail[k - 1]);
            }
        }
    }
}

/// When the entries' ids are distinct at the start, the ids given keep them
/// distinct: no method gets an id that another entry has.
pub proof fn law_method_ids_distinct(
    entries: Seq<(u32, Seq<char>)>,
    methods: Seq<Seq<char>>,
    current: int,
)
    requires
        ids_distinct(entries),
        entries.len() + methods.len() < u32::MAX,
        forall|y: int| 1 <= y < current ==> id_used(entries, y),
        1 <= current,
    ensures
        ids_distinct(with_method_ids(entries, methods, current)),
    decreases methods.len(),
{
    if methods.len() > 0 && !name_used(entries, methods[0]) {
        lemma_free_below_len(entries, current);
        let w = choose|x: int| current <= x <= entries.len() + 1 && !id_used(entries, x);
        let a = first_free(entries, current);
        assert(is_first_free(entries, current, a)) by {
            // the first free id at or after `current` exists: take the least
            // free id below `w`
            lemma_least_free(entries, current, w);
        }
        assert(a <= w) by {
            if a > w {
                assert(id_used(entries, w));
            }
        }
        let e2 = entries.push((a as u32, methods[0]));
        assert(ids_distinct(e2)) by {
            assert forall|i: int, j: int| 0 <= i < j < e2.len() implies e2[i].0 != e2[j].0 by {
                if j == entries.len() {
                    if e2[i].0 == e2[j].0 {
                        assert(entries[i].0 == a);
                        assert(id_used(entries, a));
                    }
                } else {
                    assert(e2[i] == entries[i] && e2[j] == entries[j]);
                }
            }
        }
        assert forall|y: int| 1 <= y < a + 1 implies id_used(e2, y) by {
            if y < a {
                assert(id_used(entries, y));
                let k = choose|k: int| 0 <= k < entries.len() && entries[k].0 == y;
                assert(e2[k] == entries[k]);
            } else {
                assert(e2[entries.len() as int].0 == y);
            }
        }
        law_method_ids_distinct(e2, methods.drop_first(), a + 1);
    } else if methods.len() > 0 {
        law_method_ids_distinct(entries, methods.drop_first(), current);
    }
}

/// Below a free id `w` at or after `start` lies a least one.
proof fn lemma_least_free(entries: Seq<(u32, Seq<char>)>, start: int, w: int)
    requires
        start <= w,
        !id_used(entries, w),
    ensures
        is_first_free(entries, start, first_free(entries, start)),
    decreases w - start,
{
    if forall|y: int| start <= y < w ==> id_used(entries, y) {
        assert(is_first_free(entries, start, w));
    } else {
        let z = choose|y: int| start <= y < w && !id_used(entries, y);
        lemma_least_free(entries, start, z);
    }
}

} // verus!
