//! Decides which of several overlapping desklings owns the cursor: the
//! topmost one (latest in stacking order) whose sprite is under it.
use vstd::hash_map::StringHashMap;
use vstd::prelude::*;

use crate::text::str_eq;

verus! {

/// Whether each instance last reported the cursor over its sprite, and the
/// stacking order of the instances from bottom to top.
pub struct CursorArbiter {
    hits: StringHashMap<bool>,
    z_order: Vec<String>,
}

/// The value of a [`CursorArbiter`].
pub struct ArbiterView {
    pub hits: Map<Seq<char>, bool>,
    pub z_order: Seq<Seq<char>>,
}

impl View for CursorArbiter {
    type V = ArbiterView;

    closed spec fn view(&self) -> ArbiterView {
        ArbiterView { hits: self.hits@, z_order: self.z_order@.map_values(|s: String| s@) }
    }
}

/// The instance last reported the cursor over its sprite.
pub open spec fn reports_hit(hits: Map<Seq<char>, bool>, id: Seq<char>) -> bool {
    hits.contains_key(id) && hits[id]
}

/// The position of the topmost instance among `z[..n]` that reports a hit.
pub open spec fn topmost_hit(hits: Map<Seq<char>, bool>, z: Seq<Seq<char>>, n: int) -> Option<int>
    decreases n,
{
    if n <= 0 || n > z.len() {
        None
    } else if reports_hit(hits, z[n - 1]) {
        Some(n - 1)
    } else {
        topmost_hit(hits, z, n - 1)
    }
}

/// `id` owns the cursor: it is the topmost instance that reports a hit.
pub open spec fn claims(a: ArbiterView, id: Seq<char>) -> bool {
    match topmost_hit(a.hits, a.z_order, a.z_order.len() as int) {
        Some(i) => a.z_order[i] == id,
        None => false,
    }
}

/// The stacking order after `id` is raised to the top.
pub open spec fn raised(z: Seq<Seq<char>>, id: Seq<char>) -> Seq<Seq<char>> {
    z.filter(|s: Seq<char>| s != id).push(id)
}

/// Keeps the entries of `v` other than `id`, in order.
fn without(v: &Vec<String>, id: &str) -> (r: Vec<String>)
    ensures
        r@.map_values(|s: String| s@) == v@.map_values(|s: String| s@).filter(
            |s: Seq<char>| s != id@,
        ),
{
    let ghost f = |s: Seq<char>| s != id@;
    let mut r: Vec<String> = Vec::new();
    let mut i: usize = 0;
    while i < v.len()
        invariant
            i <= v.len(),
            r@.map_values(|s: String| s@) == v@.map_values(|s: String| s@).subrange(
                0,
                i as int,
            ).filter(f),
            f == (|s: Seq<char>| s != id@),
        decreases v.len() - i,
    {
        let ghost vs = v@.map_values(|s: String| s@);
        assert(vs.subrange(0, i + 1).drop_last() =~= vs.subrange(0, i as int));
        reveal_with_fuel(Seq::filter, 1);
        if !str_eq(v[i].as_str(), id) {
            let c = v[i].clone();
            r.push(c);
            assert(r@.map_values(|s: String| s@) =~= v@.map_values(|s: String| s@).subrange(
                0,
                i as int,
            ).filter(f).push(vs[i as int]));
        }
        i += 1;
    }
    assert(v@.map_values(|s: String| s@).subrange(0, v.len() as int) =~= v@.map_values(
        |s: String| s@,
    ));
    r
}

impl CursorArbiter {
    /// An arbiter that knows of no instance.
    pub fn new() -> (r: Self)
        ensures
            r@.hits == Map::<Seq<char>, bool>::empty(),
            r@.z_order == Seq::<Seq<char>>::empty(),
    {
        let r = CursorArbiter { hits: StringHashMap::new(), z_order: Vec::new() };
        assert(r@.z_order =~= Seq::<Seq<char>>::empty());
        r
    }

    /// Records whether the cursor is over `instance_id`'s sprite.
    pub fn publish_hit(&mut self, instance_id: &str, hit: bool)
        ensures
            final(self)@.hits == old(self)@.hits.insert(instance_id@, hit),
            final(self)@.z_order == old(self)@.z_order,
    {
        self.hits.insert(instance_id.to_owned(), hit);
    }

    /// Whether `instance_id` is the topmost instance that reports a hit.
    pub fn should_claim(&self, instance_id: &str) -> (b: bool)
        ensures
            b == claims(self@, instance_id@),
    {
        let ghost a = self@;
        let mut n = self.z_order.len();
        while n > 0
            invariant
                a == self@,
                n <= self.z_order.len(),
                topmost_hit(a.hits, a.z_order, a.z_order.len() as int) == topmost_hit(
                    a.hits,
                    a.z_order,
                    n as int,
                ),
            decreases n,
        {
            let candidate = &self.z_order[n - 1];
            assert(a.z_order[n - 1] == candidate@);
            let hit = match self.hits.get(candidate.as_str()) {
                Some(h) => *h,
                None => false,
            };
            if hit {
                return str_eq(candidate.as_str(), instance_id);
            }
            n -= 1;
        }
        false
    }

    /// Raises `instance_id` to the top of the stacking order.
    pub fn push_top(&mut self, instance_id: &str)
        ensures
            final(self)@.z_order == raised(old(self)@.z_order, instance_id@),
            final(self)@.hits == old(self)@.hits,
    {
        let mut z = without(&self.z_order, instance_id);
        z.push(instance_id.to_owned());
        self.z_order = z;
        assert(self@.z_order =~= raised(old(self)@.z_order, instance_id@));
    }

    /// Forgets `instance_id`.
    pub fn remove(&mut self, instance_id: &str)
        ensures
            final(self)@.hits == old(self)@.hits.remove(instance_id@),
            final(self)@.z_order == old(self)@.z_order.filter(|s: Seq<char>| s != instance_id@),
    {
        self.hits.remove(instance_id);
        self.z_order = without(&self.z_order, instance_id);
    }
}

/// At most one instance owns the cursor.
pub proof fn lemma_single_claimant(a: ArbiterView, x: Seq<char>, y: Seq<char>)
    requires
        claims(a, x),
        claims(a, y),
    ensures
        x == y,
{
}

proof fn lemma_topmost_hit_is_hit(hits: Map<Seq<char>, bool>, z: Seq<Seq<char>>, n: int)
    requires
        0 <= n <= z.len(),
    ensures
        topmost_hit(hits, z, n) matches Some(i) ==> 0 <= i < n && i < z.len() && reports_hit(
            hits,
            z[i],
        ),
        topmost_hit(hits, z, n) is None ==> forall|i: int|
            0 <= i < n && i < z.len() ==> !reports_hit(hits, #[trigger] z[i]),
    decreases n,
{
    if 0 < n && !reports_hit(hits, z[n - 1]) {
        lemma_topmost_hit_is_hit(hits, z, n - 1);
    }
}

/// An instance that has just been raised to the top and reports a hit owns
/// the cursor.
pub proof fn lemma_raised_hit_claims(a: ArbiterView, id: Seq<char>)
    requires
        reports_hit(a.hits, id),
    ensures
        claims(ArbiterView { hits: a.hits, z_order: raised(a.z_order, id) }, id),
{
    let z = raised(a.z_order, id);
    assert(z[z.len() - 1] == id);
}

/// A removed instance never owns the cursor: an instance that reports no
/// hit, or that is not in the stacking order, does not own it (`remove`
/// leaves both true of the removed instance).
pub proof fn lemma_removed_never_claims(a: ArbiterView, id: Seq<char>)
    requires
        !a.hits.contains_key(id) || forall|i: int| 0 <= i < a.z_order.len() ==> a.z_order[i] != id,
    ensures
        !claims(a, id),
{
    lemma_topmost_hit_is_hit(a.hits, a.z_order, a.z_order.len() as int);
}

} // verus!
