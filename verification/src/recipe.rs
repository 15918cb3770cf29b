use vstd::prelude::*;

use crate::item::{Resource, ResourceType};

verus! {

/// Mathematical image of a [`Recipe`].
pub ghost struct RecipeV {
    pub items: Seq<Resource>,
    pub results: Seq<Resource>,
    pub time: u64,
}

impl RecipeV {
    /// A recipe is meaningful only with a positive cycle duration.
    pub open spec fn wf(&self) -> bool {
        self.time > 0
    }
}

/// A fixed-ratio conversion process: it consumes `items`, produces
/// `results`, and takes `time` seconds per cycle. Duplicate resource
/// types within `items` or `results` are summed when rates are read.
#[derive(Debug, Clone)]
pub struct Recipe {
    pub items: Vec<Resource>,
    pub results: Vec<Resource>,
    pub time: u64,
}

impl View for Recipe {
    type V = RecipeV;

    open spec fn view(&self) -> RecipeV {
        RecipeV { items: self.items@, results: self.results@, time: self.time }
    }
}

impl Recipe {
    pub open spec fn wf(&self) -> bool {
        self@.wf()
    }

    /// An exact copy whose contents are pinned down in the contract.
    pub fn duplicate(&self) -> (r: Recipe)
        ensures
            r@ == self@,
    {
        let r = Recipe {
            items: copy_resources(&self.items),
            results: copy_resources(&self.results),
            time: self.time,
        };
        proof {
            assert(r@ == self@);
        }
        r
    }
}

fn copy_resources(v: &Vec<Resource>) -> (r: Vec<Resource>)
    ensures
        r@ == v@,
{
    let mut r: Vec<Resource> = Vec::new();
    let n = v.len();
    for i in 0..n
        invariant
            n == v@.len(),
            r@ == v@.take(i as int),
    {
        r.push(v[i]);
        proof {
            assert(r@ =~= v@.take(i + 1));
        }
    }
    proof {
        assert(v@.take(n as int) =~= v@);
    }
    r
}

/// Total quantity of `rt` among the entries of `s`, duplicates summed.
pub open spec fn sum_q(s: Seq<Resource>, rt: ResourceType) -> int
    decreases s.len(),
{
    if s.len() == 0 {
        0
    } else {
        sum_q(s.drop_last(), rt) + if s.last().resource_type == rt {
            s.last().num as int
        } else {
            0int
        }
    }
}

/// Whether some entry of `s` carries resource type `rt`.
pub open spec fn has_type(s: Seq<Resource>, rt: ResourceType) -> bool {
    exists|k: int| 0 <= k < s.len() && s[k].resource_type == rt
}

/// Whether recipe `r` consumes or produces `rt` at all.
pub open spec fn touches(r: RecipeV, rt: ResourceType) -> bool {
    has_type(r.items, rt) || has_type(r.results, rt)
}

/// Whether recipe `r` lists `rt` among its products.
pub open spec fn produces(r: RecipeV, rt: ResourceType) -> bool {
    has_type(r.results, rt)
}

pub proof fn lemma_sum_q_bound(s: Seq<Resource>, rt: ResourceType)
    ensures
        0 <= sum_q(s, rt) <= s.len() * (u64::MAX as int),
    decreases s.len(),
{
    if s.len() == 0 {
    } else {
        lemma_sum_q_bound(s.drop_last(), rt);
        assert(s.len() * (u64::MAX as int) == (s.len() - 1) * (u64::MAX as int) + u64::MAX)
            by (nonlinear_arith);
    }
}

/// A resource type that never occurs in `s` contributes nothing.
pub proof fn lemma_sum_q_absent(s: Seq<Resource>, rt: ResourceType)
    requires
        !has_type(s, rt),
    ensures
        sum_q(s, rt) == 0,
    decreases s.len(),
{
    if s.len() > 0 {
        assert(forall|k: int| 0 <= k < s.len() - 1 ==> s.drop_last()[k] == s[k]);
        lemma_sum_q_absent(s.drop_last(), rt);
    }
}

/// A pushed entry is seen by `has_type` exactly as one more candidate.
pub proof fn lemma_has_type_push(s: Seq<Resource>, x: Resource, rt: ResourceType)
    ensures
        has_type(s.push(x), rt) <==> (has_type(s, rt) || x.resource_type == rt),
{
    if has_type(s.push(x), rt) {
        let k = choose|k: int| 0 <= k < s.push(x).len() && s.push(x)[k].resource_type == rt;
        if k < s.len() {
            assert(s[k].resource_type == rt);
        }
    }
    if has_type(s, rt) {
        let k = choose|k: int| 0 <= k < s.len() && s[k].resource_type == rt;
        assert(s.push(x)[k].resource_type == rt);
    }
    if x.resource_type == rt {
        assert(s.push(x)[s.len() as int].resource_type == rt);
    }
}

/// Extending a sequence by one entry grows the sum by that entry's share.
pub proof fn lemma_sum_q_push(s: Seq<Resource>, x: Resource, rt: ResourceType)
    ensures
        sum_q(s.push(x), rt) == sum_q(s, rt) + if x.resource_type == rt {
            x.num as int
        } else {
            0int
        },
{
    assert(s.push(x).drop_last() =~= s);
}

} // verus!
