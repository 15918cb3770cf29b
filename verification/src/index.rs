use vstd::prelude::*;

use crate::item::{Resource, ResourceType};
use crate::recipe::{has_type, touches, Recipe};

verus! {

/// The recipe indices associated with one resource type.
#[derive(Debug, Clone)]
pub struct IndexEntry {
    pub resource_type: ResourceType,
    pub recipes: Vec<usize>,
}

/// `s` is exactly the set of indices of recipes in `rs` that touch
/// `rt`, listed in strictly increasing order (each index once).
pub open spec fn lists_touching(s: Seq<usize>, rs: Seq<Recipe>, rt: ResourceType) -> bool {
    &&& forall|a: int, b: int| 0 <= a < b < s.len() ==> s[a] < s[b]
    &&& forall|k: int| 0 <= k < s.len() ==> s[k] < rs.len() && touches(rs[s[k] as int]@, rt)
    &&& forall|j: int| 0 <= j < rs.len() && touches(rs[j]@, rt) ==> s.contains(j as usize)
}

/// First-match lookup of the index list for `rt`; absent keys read as
/// the empty list, so resource types with no associated recipes get an
/// empty contribution set rather than an error.
pub open spec fn idx_list(s: Seq<IndexEntry>, rt: ResourceType) -> Seq<usize>
    decreases s.len(),
{
    if s.len() == 0 {
        Seq::empty()
    } else if s[0].resource_type == rt {
        s[0].recipes@
    } else {
        idx_list(s.drop_first(), rt)
    }
}

/// Inverted index from resource type to the recipes that consume or
/// produce it. Built once per solve from the recipe catalog.
#[derive(Debug, Clone)]
pub struct ResourceIndex {
    pub entries: Vec<IndexEntry>,
}

impl ResourceIndex {
    /// Every lookup in this index answers exactly for the catalog `rs`.
    pub open spec fn consistent_with(&self, rs: Seq<Recipe>) -> bool {
        forall|rt: ResourceType| lists_touching(idx_list(self.entries@, rt), rs, rt)
    }

    pub fn new(recipes: &Vec<Recipe>) -> (idx: Self)
        ensures
            idx.consistent_with(recipes@),
    {
        let types = all_types(recipes);
        let mut entries: Vec<IndexEntry> = Vec::new();
        let m = types.len();
        for k in 0..m
            invariant
                m == types@.len(),
                entries@.len() == k,
                forall|a: int, b: int|
                    0 <= a < b < types@.len() ==> types@[a] != types@[b],
                forall|rt: ResourceType|
                    types@.contains(rt) <==> exists|j: int|
                        0 <= j < recipes@.len() && touches(recipes@[j]@, rt),
                forall|h: int|
                    0 <= h < k ==> (#[trigger] entries@[h]).resource_type == types@[h]
                        && lists_touching(entries@[h].recipes@, recipes@, types@[h]),
        {
            let list = touching_recipes(recipes, &types[k]);
            entries.push(IndexEntry { resource_type: types[k], recipes: list });
        }
        let idx = ResourceIndex { entries };
        proof {
            assert forall|rt: ResourceType|
                lists_touching(idx_list(idx.entries@, rt), recipes@, rt) by {
                lemma_idx_list_correct(idx.entries@, types@, recipes@, rt);
            }
        }
        idx
    }

    /// The indices of the recipes that touch `rt`, in increasing
    /// order; an empty list when no recipe is associated with `rt`.
    pub fn recipes_of(&self, resource_type: &ResourceType) -> (r: Vec<usize>)
        ensures
            r@ == idx_list(self.entries@, *resource_type),
    {
        let n = self.entries.len();
        proof {
            assert(self.entries@.skip(0) =~= self.entries@);
        }
        for k in 0..n
            invariant
                n == self.entries@.len(),
                idx_list(self.entries@, *resource_type) == idx_list(
                    self.entries@.skip(k as int),
                    *resource_type,
                ),
        {
            proof {
                assert(self.entries@.skip(k as int)[0] == self.entries@[k as int]);
                assert(self.entries@.skip(k as int).drop_first() =~= self.entries@.skip(k + 1));
            }
            if self.entries[k].resource_type == *resource_type {
                return copy_indices(&self.entries[k].recipes);
            }
        }
        proof {
            assert(self.entries@.skip(n as int) =~= Seq::<IndexEntry>::empty());
        }
        Vec::new()
    }
}

proof fn lemma_idx_list_correct(
    entries: Seq<IndexEntry>,
    types: Seq<ResourceType>,
    rs: Seq<Recipe>,
    rt: ResourceType,
)
    requires
        entries.len() == types.len(),
        (exists|j: int| 0 <= j < rs.len() && touches(rs[j]@, rt)) ==> types.contains(rt),
        forall|h: int|
            0 <= h < entries.len() ==> (#[trigger] entries[h]).resource_type == types[h]
                && lists_touching(entries[h].recipes@, rs, types[h]),
    ensures
        lists_touching(idx_list(entries, rt), rs, rt),
    decreases entries.len(),
{
    if entries.len() == 0 {
        assert(!types.contains(rt));
        assert(forall|j: int| 0 <= j < rs.len() ==> !touches(rs[j]@, rt));
        assert(idx_list(entries, rt) =~= Seq::<usize>::empty());
    } else if entries[0].resource_type == rt {
        assert(lists_touching(entries[0].recipes@, rs, rt));
    } else {
        let ts = types.drop_first();
        let es = entries.drop_first();
        assert(forall|h: int| 0 <= h < es.len() ==> es[h] == entries[h + 1]);
        assert(forall|h: int| 0 <= h < ts.len() ==> ts[h] == types[h + 1]);
        assert((exists|j: int| 0 <= j < rs.len() && touches(rs[j]@, rt)) ==> ts.contains(rt)) by {
            if exists|j: int| 0 <= j < rs.len() && touches(rs[j]@, rt) {
                assert(types.contains(rt));
                let h = choose|h: int| 0 <= h < types.len() && types[h] == rt;
                assert(h != 0);
                assert(ts[h - 1] == rt);
                assert(ts.contains(rt));
            }
        }
        lemma_idx_list_correct(es, ts, rs, rt);
    }
}

fn copy_indices(v: &Vec<usize>) -> (r: Vec<usize>)
    ensures
        r@ == v@,
{
    let mut r: Vec<usize> = Vec::new();
    let n = v.len();
    for i in 0..n
        invariant
            n == v@.len(),
            r@ == v@.take(i as int),
    {
        r.push(v[i]);
        proof {
            assert(r@ =~= v@.take(i + 1));
        }
    }
    proof {
        assert(v@.take(n as int) =~= v@);
    }
    r
}

/// Whether any entry of `v` carries resource type `rt`.
fn has_res_type(v: &Vec<Resource>, rt: &ResourceType) -> (b: bool)
    ensures
        b == has_type(v@, *rt),
{
    let n = v.len();
    for k in 0..n
        invariant
            n == v@.len(),
            forall|h: int| 0 <= h < k ==> v@[h].resource_type != *rt,
    {
        if v[k].resource_type == *rt {
            return true;
        }
    }
    false
}

/// Whether the recipe consumes or produces `rt` at all.
pub fn recipe_touches(r: &Recipe, rt: &ResourceType) -> (b: bool)
    ensures
        b == touches(r@, *rt),
{
    if has_res_type(&r.items, rt) {
        true
    } else {
        has_res_type(&r.results, rt)
    }
}

/// The indices of the recipes in the catalog that touch `rt`, in
/// strictly increasing order.
fn touching_recipes(recipes: &Vec<Recipe>, rt: &ResourceType) -> (r: Vec<usize>)
    ensures
        lists_touching(r@, recipes@, *rt),
{
    let mut r: Vec<usize> = Vec::new();
    let n = recipes.len();
    for j in 0..n
        invariant
            n == recipes@.len(),
            forall|a: int, b: int| 0 <= a < b < r@.len() ==> r@[a] < r@[b],
            forall|k: int| 0 <= k < r@.len() ==> r@[k] < j && touches(recipes@[r@[k] as int]@, *rt),
            forall|h: int| 0 <= h < j && touches(recipes@[h]@, *rt) ==> r@.contains(h as usize),
    {
        let ghost pre = r@;
        if recipe_touches(&recipes[j], rt) {
            r.push(j);
            proof {
                assert(r@[r@.len() - 1] == j);
                assert forall|h: int|
                    0 <= h < j + 1 && touches(recipes@[h]@, *rt) implies r@.contains(h as usize) by {
                    if h < j {
                        let k = choose|k: int| 0 <= k < pre.len() && pre[k] == h as usize;
                        assert(r@[k] == h as usize);
                    } else {
                        assert(r@[r@.len() - 1] == h as usize);
                    }
                }
            }
        }
    }
    r
}

/// The distinct resource types that any recipe in the catalog touches.
fn all_types(recipes: &Vec<Recipe>) -> (types: Vec<ResourceType>)
    ensures
        forall|a: int, b: int| 0 <= a < b < types@.len() ==> types@[a] != types@[b],
        forall|rt: ResourceType|
            types@.contains(rt) <==> exists|j: int|
                0 <= j < recipes@.len() && touches(recipes@[j]@, rt),
{
    let mut types: Vec<ResourceType> = Vec::new();
    let n = recipes.len();
    for j in 0..n
        invariant
            n == recipes@.len(),
            forall|a: int, b: int| 0 <= a < b < types@.len() ==> types@[a] != types@[b],
            forall|rt: ResourceType|
                types@.contains(rt) <==> exists|h: int|
                    0 <= h < j && touches(recipes@[h]@, rt),
    {
        let ghost before = types@;
        let recipe = &recipes[j];
        types = add_types_from(types, &recipe.items);
        let ghost mid = types@;
        types = add_types_from(types, &recipe.results);
        proof {
            assert forall|rt: ResourceType|
                types@.contains(rt) <==> exists|h: int|
                    0 <= h < j + 1 && touches(recipes@[h]@, rt) by {
                assert(mid.contains(rt) <==> before.contains(rt) || has_type(
                    recipe.items@,
                    rt,
                ));
                assert(types@.contains(rt) <==> mid.contains(rt) || has_type(
                    recipe.results@,
                    rt,
                ));
                if types@.contains(rt) {
                    if !before.contains(rt) {
                        assert(touches(recipes@[j as int]@, rt));
                        assert(0 <= j < j + 1 && touches(recipes@[j as int]@, rt));
                    }
                }
                if exists|h: int| 0 <= h < j + 1 && touches(recipes@[h]@, rt) {
                    let h = choose|h: int| 0 <= h < j + 1 && touches(recipes@[h]@, rt);
                    if h < j {
                        assert(before.contains(rt));
                    }
                }
            }
        }
    }
    types
}

/// Returns `types` extended by every resource type in `v` that is
/// not yet listed.
pub(crate) fn add_types_from(types: Vec<ResourceType>, v: &Vec<Resource>) -> (out: Vec<ResourceType>)
    ensures
        (forall|a: int, b: int| 0 <= a < b < types@.len() ==> types@[a] != types@[b])
            ==> forall|a: int, b: int|
                0 <= a < b < out@.len() ==> out@[a] != out@[b],
        forall|rt: ResourceType|
            out@.contains(rt) <==> types@.contains(rt) || has_type(v@, rt),
{
    let ghost types0 = types@;
    let mut out = types;
    let n = v.len();
    proof {
        assert(v@.take(0) =~= Seq::<Resource>::empty());
    }
    let mut k: usize = 0;
    while k < n
        invariant
            n == v@.len(),
            k <= n,
            (forall|a: int, b: int|
                0 <= a < b < types0.len() ==> types0[a] != types0[b])
                ==> forall|a: int, b: int|
                    0 <= a < b < out@.len() ==> out@[a] != out@[b],
            forall|rt: ResourceType|
                out@.contains(rt) <==> types0.contains(rt) || has_type(
                    v@.take(k as int),
                    rt,
                ),
        decreases n - k,
    {
        let ghost pre = out@;
        let rt = v[k].resource_type;
        let present = contains_type(&out, &rt);
        if !present {
            out.push(rt);
        }
        proof {
            crate::recipe::lemma_has_type_push(v@.take(k as int), v@[k as int], rt);
            assert(v@.take(k + 1) =~= v@.take(k as int).push(v@[k as int]));
            assert forall|rt2: ResourceType|
                out@.contains(rt2) <==> types0.contains(rt2) || has_type(
                    v@.take(k + 1),
                    rt2,
                ) by {
                crate::recipe::lemma_has_type_push(v@.take(k as int), v@[k as int], rt2);
                if out@.contains(rt2) {
                    if !pre.contains(rt2) {
                        assert(out@[out@.len() - 1] == rt);
                        let h = choose|h: int| 0 <= h < out@.len() && out@[h] == rt2;
                        if h < out@.len() - 1 {
                            assert(pre[h] == rt2);
                        }
                    }
                } else {
                    assert(!pre.contains(rt2)) by {
                        if pre.contains(rt2) {
                            let h = choose|h: int| 0 <= h < pre.len() && pre[h] == rt2;
                            assert(out@[h] == rt2);
                        }
                    }
                }
                if !present && pre.contains(rt) {
                    assert(false);
                }
                if types0.contains(rt2) || has_type(v@.take(k + 1), rt2) {
                    if pre.contains(rt2) {
                        let h = choose|h: int| 0 <= h < pre.len() && pre[h] == rt2;
                        assert(out@[h] == rt2);
                        assert(out@.contains(rt2));
                    } else {
                        assert(!pre.contains(rt2));
                        assert(!types0.contains(rt2));
                        assert(!has_type(v@.take(k as int), rt2));
                        assert(has_type(v@.take(k + 1), rt2));
                        assert(rt2 == rt);
                        if present {
                            let h = choose|h: int| 0 <= h < pre.len() && pre[h] == rt;
                            assert(out@[h] == rt2);
                        } else {
                            assert(out@[out@.len() - 1] == rt);
                        }
                    }
                }
            }
            assert((forall|a: int, b: int|
                0 <= a < b < types0.len() ==> types0[a] != types0[b])
                ==> forall|a: int, b: int|
                    0 <= a < b < out@.len() ==> out@[a] != out@[b]) by {
                if !present {
                    assert(forall|h: int| 0 <= h < pre.len() ==> out@[h] == pre[h]);
                }
            }
        }
        let ghost k_old = k as int;
        k += 1;
        proof {
            assert(v@.take(k as int) =~= v@.take(k_old + 1));
            assert forall|rt2: ResourceType|
                out@.contains(rt2) <==> types0.contains(rt2) || has_type(
                    v@.take(k as int),
                    rt2,
                ) by {
                assert(out@.contains(rt2) <==> types0.contains(rt2) || has_type(
                    v@.take(k_old + 1),
                    rt2,
                ));
            }
        }
    }
    proof {
        assert(v@.take(n as int) =~= v@);
    }
    out
}

/// Whether `types` already lists `rt`.
fn contains_type(types: &Vec<ResourceType>, rt: &ResourceType) -> (b: bool)
    ensures
        b == types@.contains(*rt),
{
    let n = types.len();
    for k in 0..n
        invariant
            n == types@.len(),
            forall|h: int| 0 <= h < k ==> types@[h] != *rt,
    {
        if types[k] == *rt {
            return true;
        }
    }
    proof {
        if types@.contains(*rt) {
            let h = choose|h: int| 0 <= h < types@.len() && types@[h] == *rt;
            assert(false);
        }
    }
    false
}

} // verus!

verus! {

} // verus!
