//! Tip selection: how many parents a new vertex takes, drawing them at
//! random or by weight, its height, and the checks on a chosen parent set.
use vstd::prelude::*;
use crate::dag::graph::{Dag, has_hash, vertex_of, reaches, status_of};
use crate::dag::vertex::VertexStatus;
use crate::primitives::types::MAX_PARENTS;

verus! {

type VHash = crate::primitives::types::Hash;

/// Draws `amount` distinct indices below `length` in random order with
/// `rand::seq::index::sample` on the thread's generator (as
/// `SliceRandom::choose_multiple` does). Which indices come out is left
/// open: only that they are that many, distinct and in range.
#[verifier::external_body]
fn sample_indices(length: usize, amount: usize) -> (r: Vec<usize>)
    requires amount <= length,
    ensures
        r@.len() == amount,
        forall|i: int| 0 <= i < r@.len() ==> #[trigger] r@[i] < length,
        forall|i: int, j: int| 0 <= i < j < r@.len() ==> #[trigger] r@[i] != #[trigger] r@[j],
{
    rand::seq::index::sample(&mut rand::thread_rng(), length, amount).into_vec()
}

/// `r` takes, in order, the tips at the positions `idx`, which are
/// distinct.
pub open spec fn picked(tips: Seq<VHash>, r: Seq<VHash>, idx: Seq<int>) -> bool {
    &&& idx.len() == r.len()
    &&& forall|i: int| 0 <= i < idx.len() ==> 0 <= #[trigger] idx[i] < tips.len() && r[i] == tips[idx[i]]
    &&& forall|i: int, j: int| 0 <= i < j < idx.len() ==> #[trigger] idx[i] != #[trigger] idx[j]
}

/// The parent limits of tip selection.
#[derive(Clone, Copy, Debug)]
pub struct TipSelector {
    pub min_parents: usize,
    pub max_parents: usize,
}

/// How many parents to take from `available` tips: two where there are
/// that many, at least the minimum, at most the maximum; none without tips.
pub open spec fn select_count_spec(available: int, min_parents: int, max_parents: int) -> int {
    if available == 0 {
        0
    } else {
        let two = if available < 2 { available } else { 2 };
        let target = if two < min_parents { min_parents } else { two };
        if target < max_parents { target } else { max_parents }
    }
}

impl TipSelector {
    /// Limits of one to eight parents.
    pub fn new() -> (s: Self)
        ensures s.min_parents == 1 && s.max_parents == 8,
    {
        TipSelector { min_parents: 1, max_parents: 8 }
    }

    /// Sets the limits; the maximum is capped at the protocol's limit.
    pub fn with_parent_limits(self, min: usize, max: usize) -> (s: Self)
        ensures s.min_parents == min && s.max_parents == (if max < MAX_PARENTS { max } else { MAX_PARENTS }),
    {
        TipSelector { min_parents: min, max_parents: if max < MAX_PARENTS { max } else { MAX_PARENTS } }
    }

    pub fn select_count(&self, available: usize) -> (r: usize)
        ensures r == select_count_spec(available as int, self.min_parents as int, self.max_parents as int),
    {
        if available == 0 {
            return 0;
        }
        let two: usize = if available < 2 { available } else { 2 };
        let target: usize = if two < self.min_parents { self.min_parents } else { two };
        if target < self.max_parents { target } else { self.max_parents }
    }

    /// Distinct tips drawn at random: as many as `select_count` asks, but
    /// no more than there are.
    pub fn random_selection(&self, tips: &[VHash]) -> (r: Vec<VHash>)
        ensures
            r@.len() == ({
                let c = select_count_spec(tips@.len() as int, self.min_parents as int, self.max_parents as int);
                if c < tips@.len() { c } else { tips@.len() as int }
            }),
            exists|idx: Seq<int>| picked(tips@, r@, idx),
    {
        let count = self.select_count(tips.len());
        let amount: usize = if count < tips.len() { count } else { tips.len() };
        let idx = sample_indices(tips.len(), amount);
        let mut out: Vec<VHash> = Vec::new();
        let mut i: usize = 0;
        while i < idx.len()
            invariant
                i <= idx@.len(),
                idx@.len() == amount,
                forall|q: int| 0 <= q < idx@.len() ==> #[trigger] idx@[q] < tips@.len(),
                forall|p: int, q: int| 0 <= p < q < idx@.len() ==> #[trigger] idx@[p] != #[trigger] idx@[q],
                out@.len() == i,
                forall|q: int| 0 <= q < i ==> #[trigger] out@[q] == tips@[idx@[q] as int],
            decreases idx@.len() - i,
        {
            out.push(tips[idx[i]]);
            i = i + 1;
        }
        proof {
            let w = idx@.map_values(|x: usize| x as int);
            assert(picked(tips@, out@, w));
        }
        out
    }

    /// The tips of greatest weight (descendant count), heaviest first,
    /// earlier tips first among equals, as many as `select_count` asks.
    pub fn highest_weight_selection(&self, dag: &Dag, tips: &[VHash]) -> (r: Vec<VHash>)
        requires dag.wf(),
        ensures
            r@.len() == ({
                let c = select_count_spec(tips@.len() as int, self.min_parents as int, self.max_parents as int);
                if c < tips@.len() { c } else { tips@.len() as int }
            }),
            exists|idx: Seq<int>| picked(tips@, r@, idx),
    {
        let count = self.select_count(tips.len());
        let n = tips.len();
        let mut weights: Vec<u128> = Vec::new();
        let mut i: usize = 0;
        while i < n
            invariant i <= n, n == tips@.len(), weights@.len() == i, dag.wf(),
            decreases n - i,
        {
            weights.push(dag.calculate_weight(&tips[i]));
            i = i + 1;
        }
        let mut taken: Vec<bool> = Vec::new();
        let mut z: usize = 0;
        while z < n
            invariant z <= n, taken@.len() == z, forall|q: int| 0 <= q < z ==> !taken@[q],
            decreases n - z,
        {
            taken.push(false);
            z = z + 1;
        }
        let amount: usize = if count < n { count } else { n };
        let mut out: Vec<VHash> = Vec::new();
        let mut round: usize = 0;
        let ghost mut chosen: Seq<int> = Seq::empty();
        proof { crate::dag::graph::lemma_count_zero(taken@); }
        while round < amount
            invariant
                round <= amount,
                amount <= n,
                n == tips@.len(),
                weights@.len() == n,
                taken@.len() == n,
                out@.len() == round,
                crate::dag::graph::count_true(taken@) == round,
                picked(tips@, out@, chosen),
                forall|q: int| 0 <= q < chosen.len() ==> taken@[#[trigger] chosen[q]],
            decreases amount - round,
        {
            let mut best: usize = n;
            let mut j: usize = 0;
            while j < n
                invariant
                    j <= n,
                    n == tips@.len(),
                    weights@.len() == n,
                    taken@.len() == n,
                    round < amount,
                    crate::dag::graph::count_true(taken@) == round,
                    best == n || (best < j && !taken@[best as int]),
                    best == n ==> forall|q: int| 0 <= q < j ==> taken@[q],
                decreases n - j,
            {
                if !taken[j] && (best == n || weights[j] > weights[best]) {
                    best = j;
                }
                j = j + 1;
            }
            proof {
                if best == n {
                    crate::dag::graph::lemma_count_true_all(taken@);
                }
            }
            proof {
                crate::dag::graph::lemma_count_true_set(taken@, best as int);
            }
            let ghost c0 = chosen;
            let ghost t0 = taken@;
            taken.set(best, true);
            out.push(tips[best]);
            proof {
                chosen = c0.push(best as int);
                assert forall|q: int| 0 <= q < c0.len() implies #[trigger] c0[q] != best as int by {
                    assert(t0[c0[q]]);
                }
                assert(picked(tips@, out@, chosen));
            }
            round = round + 1;
        }
        out
    }
}

/// One more than the highest parent found in the DAG, 0 when none is.
pub open spec fn parents_height(vs: Seq<crate::dag::vertex::Vertex>, parents: Seq<VHash>) -> int {
    crate::dag::graph::expected_height(vs, parents)
}

/// The height a vertex with these parents takes.
pub fn height_for_parents(dag: &Dag, parents: &[VHash]) -> (r: u64)
    requires dag.wf(), parents_height(dag@.vertices, parents@) <= u64::MAX,
    ensures r == parents_height(dag@.vertices, parents@),
{
    let mut best: u64 = 0;
    let mut j: usize = 0;
    assert(parents@.subrange(0, 0) =~= Seq::<VHash>::empty());
    while j < parents.len()
        invariant
            dag.wf(),
            j <= parents@.len(),
            best == crate::dag::graph::expected_height(dag@.vertices, parents@.subrange(0, j as int)),
            crate::dag::graph::expected_height(dag@.vertices, parents@) <= u64::MAX,
        decreases parents@.len() - j,
    {
        proof {
            assert(parents@.subrange(0, j + 1).drop_last() =~= parents@.subrange(0, j as int));
            crate::dag::graph::lemma_expected_height_prefix(dag@.vertices, parents@, j + 1);
        }
        match dag.get_vertex(&parents[j]) {
            Some(v) => {
                if (v.height as u128) + 1 > best as u128 {
                    best = v.height + 1;
                }
            },
            None => {},
        }
        j = j + 1;
    }
    assert(parents@.subrange(0, j as int) =~= parents@);
    best
}

/// Faults of a chosen parent set.
#[derive(Clone, Debug)]
pub enum TipValidationError {
    NoParents,
    TooManyParents,
    DuplicateParents,
    ParentNotFound(VHash),
    ParentNotConfirmed(VHash, VertexStatus),
    ConflictingParents(VHash, VHash),
}

/// Two of the parents have the same hash.
pub open spec fn has_duplicate(parents: Seq<VHash>) -> bool {
    exists|i: int, j: int| 0 <= i < j < parents.len() && parents[i].0@ == parents[j].0@
}

/// The parent is confirmed or final.
pub open spec fn parent_usable(st: Option<VertexStatus>) -> bool {
    st == Some(VertexStatus::Confirmed) || st == Some(VertexStatus::Finalized)
}

/// One of two parents descends from the other.
pub open spec fn related(vs: Seq<crate::dag::vertex::Vertex>, a: Seq<u8>, b: Seq<u8>) -> bool {
    reaches(vs, b, a) || reaches(vs, a, b)
}

/// A parent set passes: some but not too many parents, no duplicates, each
/// confirmed or final, and none an ancestor of another.
pub open spec fn parents_valid(d: crate::dag::graph::DagView, parents: Seq<VHash>) -> bool {
    &&& parents.len() > 0
    &&& parents.len() <= MAX_PARENTS
    &&& !has_duplicate(parents)
    &&& forall|i: int| 0 <= i < parents.len() ==> parent_usable(status_of(d.status, (#[trigger] parents[i]).0@))
    &&& forall|i: int, j: int| 0 <= i < j < parents.len() ==> !related(d.vertices, #[trigger] parents[i].0@, #[trigger] parents[j].0@)
}

/// Checks a chosen parent set, reporting the first fault in the order
/// above.
pub fn validate_parents(dag: &Dag, parents: &[VHash]) -> (r: Result<(), TipValidationError>)
    requires dag.wf(),
    ensures
        r is Ok <==> parents_valid(dag@, parents@),
        r matches Err(TipValidationError::NoParents) ==> parents@.len() == 0,
        r matches Err(TipValidationError::TooManyParents) ==> parents@.len() > MAX_PARENTS,
        r matches Err(TipValidationError::DuplicateParents) ==> has_duplicate(parents@),
        r matches Err(TipValidationError::ParentNotFound(p)) ==> status_of(dag@.status, p.0@) is None,
        r matches Err(TipValidationError::ParentNotConfirmed(p, s)) ==> status_of(dag@.status, p.0@) == Some(s) && !parent_usable(Some(s)),
        r matches Err(TipValidationError::ConflictingParents(a, b)) ==> related(dag@.vertices, a.0@, b.0@),
{
    if parents.len() == 0 {
        return Err(TipValidationError::NoParents);
    }
    if parents.len() > MAX_PARENTS {
        return Err(TipValidationError::TooManyParents);
    }
    let n = parents.len();
    let mut i: usize = 0;
    while i < n
        invariant
            n == parents@.len(),
            i <= n,
            forall|a: int, b: int| 0 <= a < b < n && a < i ==> parents@[a].0@ != parents@[b].0@,
        decreases n - i,
    {
        let mut j: usize = i + 1;
        while j < n
            invariant
                n == parents@.len(),
                i < j <= n,
                forall|a: int, b: int| 0 <= a < b < n && a < i ==> parents@[a].0@ != parents@[b].0@,
                forall|b: int| i < b < j ==> parents@[i as int].0@ != parents@[b].0@,
            decreases n - j,
        {
            if parents[i] == parents[j] {
                return Err(TipValidationError::DuplicateParents);
            }
            j = j + 1;
        }
        i = i + 1;
    }
    let mut k: usize = 0;
    while k < n
        invariant
            dag.wf(),
            n == parents@.len(),
            k <= n,
            forall|q: int| 0 <= q < k ==> parent_usable(status_of(dag@.status, (#[trigger] parents@[q]).0@)),
        decreases n - k,
    {
        match dag.get_status(&parents[k]) {
            Some(VertexStatus::Confirmed) => {},
            Some(VertexStatus::Finalized) => {},
            Some(s) => { return Err(TipValidationError::ParentNotConfirmed(parents[k], s)); },
            None => { return Err(TipValidationError::ParentNotFound(parents[k])); },
        }
        k = k + 1;
    }
    let mut a: usize = 0;
    while a < n
        invariant
            dag.wf(),
            n == parents@.len(),
            a <= n,
            forall|x: int, y: int| 0 <= x < y < n && x < a ==> !related(dag@.vertices, #[trigger] parents@[x].0@, #[trigger] parents@[y].0@),
        decreases n - a,
    {
        let mut b: usize = a + 1;
        while b < n
            invariant
                dag.wf(),
                n == parents@.len(),
                a < b <= n,
                forall|x: int, y: int| 0 <= x < y < n && x < a ==> !related(dag@.vertices, #[trigger] parents@[x].0@, #[trigger] parents@[y].0@),
                forall|y: int| a < y < b ==> !related(dag@.vertices, parents@[a as int].0@, #[trigger] parents@[y].0@),
            decreases n - b,
        {
            if dag.is_ancestor(&parents[a], &parents[b]) || dag.is_ancestor(&parents[b], &parents[a]) {
                return Err(TipValidationError::ConflictingParents(parents[a], parents[b]));
            }
            b = b + 1;
        }
        a = a + 1;
    }
    Ok(())
}

} // verus!
