use vstd::prelude::*;

use crate::item::{Resource, ResourceType};
use crate::recipe::{sum_q, Recipe, RecipeV};

verus! {

/// One aggregated quantity of a resource type inside a recipe.
#[derive(Debug, Clone, Copy)]
pub struct QtyEntry {
    pub resource_type: ResourceType,
    pub q: u128,
}

/// First-match lookup in an aggregation list; an absent key reads as 0.
pub open spec fn assoc_q(s: Seq<QtyEntry>, rt: ResourceType) -> int
    decreases s.len(),
{
    if s.len() == 0 {
        0
    } else if s[0].resource_type == rt {
        s[0].q as int
    } else {
        assoc_q(s.drop_first(), rt)
    }
}

pub open spec fn contains_key(s: Seq<QtyEntry>, rt: ResourceType) -> bool {
    exists|k: int| 0 <= k < s.len() && s[k].resource_type == rt
}

pub open spec fn distinct_keys(s: Seq<QtyEntry>) -> bool {
    forall|k1: int, k2: int|
        0 <= k1 < k2 < s.len() ==> s[k1].resource_type != s[k2].resource_type
}

proof fn lemma_assoc_push_new(s: Seq<QtyEntry>, e: QtyEntry, rt: ResourceType)
    requires
        !contains_key(s, e.resource_type),
    ensures
        assoc_q(s.push(e), rt) == if rt == e.resource_type {
            e.q as int
        } else {
            assoc_q(s, rt)
        },
    decreases s.len(),
{
    if s.len() == 0 {
        assert(s.push(e)[0] == e);
        assert(s.push(e).drop_first() =~= s);
    } else {
        assert(s[0] == s.push(e)[0]);
        if s[0].resource_type == e.resource_type {
            assert(contains_key(s, e.resource_type)) by {
                assert(0 <= 0 < s.len() && s[0].resource_type == e.resource_type);
            }
        }
        assert(s.push(e).drop_first() =~= s.drop_first().push(e));
        assert(forall|k: int|
            0 <= k < s.drop_first().len() ==> s.drop_first()[k] == s[k + 1]);
        assert(!contains_key(s.drop_first(), e.resource_type)) by {
            if contains_key(s.drop_first(), e.resource_type) {
                let k = choose|k: int|
                    0 <= k < s.drop_first().len()
                        && s.drop_first()[k].resource_type == e.resource_type;
                assert(s[k + 1].resource_type == e.resource_type);
                assert(contains_key(s, e.resource_type));
            }
        }
        lemma_assoc_push_new(s.drop_first(), e, rt);
        if rt == e.resource_type {
            assert(s[0].resource_type != rt);
            assert(assoc_q(s.push(e), rt) == assoc_q(s.drop_first().push(e), rt));
        } else if s[0].resource_type != rt {
            assert(assoc_q(s.push(e), rt) == assoc_q(s.drop_first().push(e), rt));
            assert(assoc_q(s, rt) == assoc_q(s.drop_first(), rt));
        }
    }
}

proof fn lemma_assoc_update(s: Seq<QtyEntry>, j: int, e: QtyEntry, rt: ResourceType)
    requires
        distinct_keys(s),
        0 <= j < s.len(),
        s[j].resource_type == e.resource_type,
    ensures
        assoc_q(s.update(j, e), rt) == if rt == e.resource_type {
            e.q as int
        } else {
            assoc_q(s, rt)
        },
    decreases s.len(),
{
    let key = e.resource_type;
    if j == 0 {
        assert(s.update(0, e)[0] == e);
        assert(s.update(0, e).drop_first() =~= s.drop_first());
    } else {
        assert(s[0].resource_type != key);
        assert(s.update(j, e)[0] == s[0]);
        assert(s.update(j, e).drop_first() =~= s.drop_first().update(j - 1, e));
        assert(forall|k1: int, k2: int|
            0 <= k1 < k2 < s.drop_first().len()
                ==> s.drop_first()[k1] == s[k1 + 1] && s.drop_first()[k2] == s[k2 + 1]);
        lemma_assoc_update(s.drop_first(), j - 1, e, rt);
    }
}

proof fn lemma_assoc_at_key(s: Seq<QtyEntry>, j: int, rt: ResourceType)
    requires
        distinct_keys(s),
        0 <= j < s.len(),
        s[j].resource_type == rt,
    ensures
        assoc_q(s, rt) == s[j].q,
    decreases s.len(),
{
    if j > 0 {
        assert(s[0].resource_type != rt);
        assert(forall|k1: int, k2: int|
            0 <= k1 < k2 < s.drop_first().len()
                ==> s.drop_first()[k1] == s[k1 + 1] && s.drop_first()[k2] == s[k2 + 1]);
        lemma_assoc_at_key(s.drop_first(), j - 1, rt);
    }
}

proof fn lemma_assoc_absent(s: Seq<QtyEntry>, rt: ResourceType)
    requires
        !contains_key(s, rt),
    ensures
        assoc_q(s, rt) == 0,
    decreases s.len(),
{
    if s.len() > 0 {
        assert(forall|k: int|
            0 <= k < s.drop_first().len() ==> s.drop_first()[k] == s[k + 1]);
        lemma_assoc_absent(s.drop_first(), rt);
    }
}

/// Aggregated per-resource quantities of one recipe. `get_input` and
/// `get_output` read the summed quantity per cycle; dividing that by
/// the recipe's `time` gives the consumption or production rate.
#[derive(Debug, Clone)]
pub struct RecipeStats {
    pub inputs: Vec<QtyEntry>,
    pub outputs: Vec<QtyEntry>,
}

impl RecipeStats {
    pub open spec fn input_q(&self, rt: ResourceType) -> int {
        assoc_q(self.inputs@, rt)
    }

    pub open spec fn output_q(&self, rt: ResourceType) -> int {
        assoc_q(self.outputs@, rt)
    }

    /// The stats agree with the recipe: every lookup equals the
    /// summed quantity in the recipe's own lists.
    pub open spec fn consistent_with(&self, r: RecipeV) -> bool {
        &&& forall|rt: ResourceType| self.input_q(rt) == sum_q(r.items, rt)
        &&& forall|rt: ResourceType| self.output_q(rt) == sum_q(r.results, rt)
    }

    pub fn new(recipe: &Recipe) -> (s: Self)
        ensures
            s.consistent_with(recipe@),
    {
        RecipeStats { inputs: aggregate(&recipe.items), outputs: aggregate(&recipe.results) }
    }

    /// Summed quantity of `rt` consumed per cycle; 0 when absent.
    pub fn get_input(&self, resource_type: &ResourceType) -> (r: u128)
        ensures
            r as int == self.input_q(*resource_type),
    {
        lookup_q(&self.inputs, resource_type)
    }

    /// Summed quantity of `rt` produced per cycle; 0 when absent.
    pub fn get_output(&self, resource_type: &ResourceType) -> (r: u128)
        ensures
            r as int == self.output_q(*resource_type),
    {
        lookup_q(&self.outputs, resource_type)
    }
}

fn lookup_q(s: &Vec<QtyEntry>, rt: &ResourceType) -> (r: u128)
    ensures
        r as int == assoc_q(s@, *rt),
{
    let n = s.len();
    proof {
        assert(s@.skip(0) =~= s@);
    }
    for j in 0..n
        invariant
            n == s@.len(),
            assoc_q(s@, *rt) == assoc_q(s@.skip(j as int), *rt),
    {
        proof {
            assert(s@.skip(j as int)[0] == s@[j as int]);
            assert(s@.skip(j as int).drop_first() =~= s@.skip(j + 1));
        }
        if s[j].resource_type == *rt {
            return s[j].q;
        }
    }
    proof {
        assert(s@.skip(n as int) =~= Seq::<QtyEntry>::empty());
    }
    0
}

fn find_key(s: &Vec<QtyEntry>, rt: &ResourceType) -> (r: Option<usize>)
    ensures
        match r {
            Some(j) => j < s@.len() && s@[j as int].resource_type == *rt,
            None => !contains_key(s@, *rt),
        },
{
    let m = s.len();
    for j in 0..m
        invariant
            m == s@.len(),
            forall|k: int| 0 <= k < j ==> s@[k].resource_type != *rt,
    {
        if s[j].resource_type == *rt {
            return Some(j);
        }
    }
    None
}

fn aggregate(v: &Vec<Resource>) -> (out: Vec<QtyEntry>)
    ensures
        forall|rt: ResourceType| assoc_q(out@, rt) == sum_q(v@, rt),
{
    let mut out: Vec<QtyEntry> = Vec::new();
    let n = v.len();
    proof {
        assert(v@.take(0) =~= Seq::<Resource>::empty());
    }
    for i in 0..n
        invariant
            n == v@.len(),
            distinct_keys(out@),
            forall|rt: ResourceType| assoc_q(out@, rt) == sum_q(v@.take(i as int), rt),
            forall|k: int|
                0 <= k < out@.len() ==> out@[k].q <= (i as int) * (u64::MAX as int),
    {
        let res = v[i];
        let ghost pre = out@;
        proof {
            assert(v@.take(i + 1) =~= v@.take(i as int).push(v@[i as int]));
        }
        match find_key(&out, &res.resource_type) {
            Some(j) => {
                let q0 = out[j].q;
                proof {
                    assert(q0 <= (i as int) * (u64::MAX as int));
                    assert((i as int) * (u64::MAX as int) + (u64::MAX as int)
                        == (i + 1) * (u64::MAX as int));
                    assert(i + 1 <= u64::MAX as int);
                    assert((i + 1) * (u64::MAX as int) <= (u64::MAX as int) * (u64::MAX as int));
                }
                let e = QtyEntry { resource_type: res.resource_type, q: q0 + res.num as u128 };
                out[j] = e;
                proof {
                    lemma_assoc_at_key(pre, j as int, res.resource_type);
                    assert forall|rt: ResourceType|
                        assoc_q(out@, rt) == sum_q(v@.take(i + 1), rt) by {
                        lemma_assoc_update(pre, j as int, e, rt);
                        crate::recipe::lemma_sum_q_push(v@.take(i as int), v@[i as int], rt);
                    }
                    assert forall|k1: int, k2: int|
                        0 <= k1 < k2 < out@.len()
                            implies out@[k1].resource_type != out@[k2].resource_type by {
                        assert(out@[k1].resource_type == pre[k1].resource_type);
                        assert(out@[k2].resource_type == pre[k2].resource_type);
                    }
                    assert forall|k: int|
                        0 <= k < out@.len() implies out@[k].q <= (i + 1) * (u64::MAX as int) by {
                        if k != j as int {
                            assert(out@[k] == pre[k]);
                        }
                    }
                }
            },
            None => {
                let e = QtyEntry { resource_type: res.resource_type, q: res.num as u128 };
                out.push(e);
                proof {
                    lemma_assoc_absent(pre, res.resource_type);
                    assert forall|rt: ResourceType|
                        assoc_q(out@, rt) == sum_q(v@.take(i + 1), rt) by {
                        lemma_assoc_push_new(pre, e, rt);
                        crate::recipe::lemma_sum_q_push(v@.take(i as int), v@[i as int], rt);
                    }
                    assert forall|k1: int, k2: int|
                        0 <= k1 < k2 < out@.len()
                            implies out@[k1].resource_type != out@[k2].resource_type by {
                        if k2 < out@.len() - 1 {
                            assert(out@[k1] == pre[k1] && out@[k2] == pre[k2]);
                        } else {
                            assert(out@[k1] == pre[k1]);
                        }
                    }
                    assert forall|k: int|
                        0 <= k < out@.len() implies out@[k].q <= (i + 1) * (u64::MAX as int) by {
                        if k < out@.len() - 1 {
                            assert(out@[k] == pre[k]);
                        }
                    }
                }
            },
        }
    }
    proof {
        assert(v@.take(n as int) =~= v@);
    }
    out
}

} // verus!
