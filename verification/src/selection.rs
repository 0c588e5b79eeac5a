use vstd::prelude::*;

verus! {

use crate::rng::{gen_index, gen_below_u128, sample_distinct_indices};

/// Sum of the fitness values at positions `0..upto`.
pub open spec fn fit_prefix(f: Seq<u64>, upto: int) -> int
    decreases upto,
{
    if upto <= 0 {
        0
    } else {
        fit_prefix(f, upto - 1) + f[upto - 1]
    }
}

/// Total fitness of a population.
pub open spec fn fit_sum(f: Seq<u64>) -> int {
    fit_prefix(f, f.len() as int)
}

/// Prefix sums are non-negative and bounded by `upto` times the largest
/// fitness value.
proof fn lemma_fit_prefix_bounds(f: Seq<u64>, upto: int)
    requires
        0 <= upto <= f.len(),
    ensures
        0 <= fit_prefix(f, upto),
        fit_prefix(f, upto) <= upto * (u64::MAX as int),
    decreases upto,
{
    if upto > 0 {
        lemma_fit_prefix_bounds(f, upto - 1);
        assert((upto - 1) * (u64::MAX as int) + (u64::MAX as int) == upto * (u64::MAX as int))
            by (nonlinear_arith);
    }
}

/// A longer prefix sums to at least as much.
proof fn lemma_fit_prefix_mono(f: Seq<u64>, a: int, b: int)
    requires
        0 <= a <= b,
    ensures
        fit_prefix(f, a) <= fit_prefix(f, b),
    decreases b - a,
{
    if a < b {
        lemma_fit_prefix_mono(f, a, b - 1);
    }
}

/// Number of occurrences of `v` among the returned indices.
pub open spec fn occ_count(s: Seq<usize>, v: usize) -> int
    decreases s.len(),
{
    if s.len() == 0 {
        0
    } else {
        occ_count(s.drop_last(), v) + if s.last() == v { 1int } else { 0int }
    }
}

/// Occurrences after appending one value.
proof fn lemma_occ_push(s: Seq<usize>, x: usize, v: usize)
    ensures
        occ_count(s.push(x), v) == occ_count(s, v) + if x == v { 1int } else { 0int },
{
    assert(s.push(x).drop_last() =~= s);
    assert(s.push(x).last() == x);
}

/// A value that stands nowhere in the sequence has no occurrences.
proof fn lemma_occ_zero(s: Seq<usize>, v: usize)
    requires
        forall|k: int| 0 <= k < s.len() ==> (#[trigger] s[k]) != v,
    ensures
        occ_count(s, v) == 0,
    decreases s.len(),
{
    if s.len() > 0 {
        assert(s[s.len() - 1] != v);
        assert forall|k: int| 0 <= k < s.drop_last().len()
            implies (#[trigger] s.drop_last()[k]) != v by {
            assert(s.drop_last()[k] == s[k]);
        }
        lemma_occ_zero(s.drop_last(), v);
    }
}

/// Total fitness of a population; the denominator of fitness-proportionate
/// selection.
pub fn total_fitness(fitness: &Vec<u64>) -> (t: u128)
    ensures
        t == fit_sum(fitness@),
{
    let mut t: u128 = 0;
    let mut i: usize = 0;
    while i < fitness.len()
        invariant
            i <= fitness.len(),
            t == fit_prefix(fitness@, i as int),
        decreases fitness.len() - i,
    {
        proof {
            lemma_fit_prefix_bounds(fitness@, i as int);
            assert(i as int + 1 <= u64::MAX as int);
            assert((i as int) * (u64::MAX as int) + (u64::MAX as int)
                <= (u64::MAX as int) * (u64::MAX as int)) by (nonlinear_arith)
                requires 0 <= i as int && i as int + 1 <= u64::MAX as int;
        }
        t = t + fitness[i] as u128;
        i = i + 1;
    }
    t
}

/// One spin of the roulette wheel: draws below `total` and walks the
/// population in order until the cumulative fitness exceeds the draw. The
/// winner always has positive fitness.
fn roulette_pick(rng: &mut rand::rngs::StdRng, fitness: &Vec<u64>, total: u128) -> (idx: usize)
    requires
        total == fit_sum(fitness@),
        total >= 1,
    ensures
        idx < fitness.len(),
        fitness@[idx as int] > 0,
{
    let t = gen_below_u128(rng, total);
    let mut acc: u128 = 0;
    let mut idx: usize = 0;
    let mut found = false;
    let mut v: usize = 0;
    while v < fitness.len() && !found
        invariant
            total == fit_sum(fitness@),
            t < total,
            v <= fitness.len(),
            !found ==> acc == fit_prefix(fitness@, v as int),
            !found ==> acc <= t,
            found ==> idx < fitness.len() && fitness@[idx as int] > 0,
        decreases fitness.len() - v,
    {
        proof {
            lemma_fit_prefix_mono(fitness@, v as int + 1, fitness@.len() as int);
            lemma_fit_prefix_bounds(fitness@, v as int);
        }
        if !found {
            let acc2 = acc + fitness[v] as u128;
            if t < acc2 {
                found = true;
                idx = v;
                proof {
                    assert(fitness@[v as int] > 0);
                }
            }
            acc = acc2;
        }
        v = v + 1;
    }
    proof {
        if !found {
            assert(acc == fit_sum(fitness@));
            assert(false);
        }
    }
    idx
}

/// A selection operator draws `count` members from a population, given by
/// its fitness values, and returns their indices. Each operator states its
/// own precondition through `can_select`; every returned index lies within
/// the population.
pub trait SelectionOperator {
    /// When a selection call is allowed.
    spec fn can_select(&self, fitness: Seq<u64>, count: usize) -> bool;

    /// Draws from the population; returned values index into `fitness`.
    fn apply(
        &mut self,
        rng: &mut rand::rngs::StdRng,
        fitness: &Vec<u64>,
        count: usize,
    ) -> (r: Vec<usize>)
        requires
            old(self).can_select(fitness@, count),
        ensures
            forall|k: int| 0 <= k < r.len() ==> (#[trigger] r[k]) < fitness.len(),
    ;
}

/// Fitness-proportionate selection: each of `count` independent draws picks
/// the first member whose cumulative fitness exceeds a uniform draw below
/// the total.
pub struct RouletteWheel;

impl RouletteWheel {
    pub fn new() -> Self {
        RouletteWheel {}
    }
}

impl SelectionOperator for RouletteWheel {
    open spec fn can_select(&self, fitness: Seq<u64>, count: usize) -> bool {
        true
    }

    fn apply(
        &mut self,
        rng: &mut rand::rngs::StdRng,
        fitness: &Vec<u64>,
        count: usize,
    ) -> (r: Vec<usize>)
        ensures
            fit_sum(fitness@) == 0 ==> r.len() == 0,
            fit_sum(fitness@) > 0 ==> r.len() == count,
            forall|k: int|
                0 <= k < r.len() ==> fitness@[#[trigger] r[k] as int] > 0,
    {
        let total = total_fitness(fitness);
        let mut selected: Vec<usize> = Vec::new();
        if total == 0 {
            // A population with no positive fitness attracts no draw.
            return selected;
        }
        let mut c: usize = 0;
        while c < count
            invariant
                total == fit_sum(fitness@),
                total >= 1,
                c <= count,
                selected.len() == c,
                forall|k: int| 0 <= k < selected.len() ==> (#[trigger] selected[k]) < fitness.len(),
                forall|k: int|
                    0 <= k < selected.len() ==> fitness@[#[trigger] selected[k] as int] > 0,
            decreases count - c,
        {
            let idx = roulette_pick(rng, fitness, total);
            selected.push(idx);
            c = c + 1;
        }
        selected
    }
}

/// Uniform selection without replacement: `count` distinct members, chosen
/// uniformly.
pub struct Random;

impl Random {
    pub fn new() -> Self {
        Random {}
    }
}

impl SelectionOperator for Random {
    open spec fn can_select(&self, fitness: Seq<u64>, count: usize) -> bool {
        count <= fitness.len()
    }

    fn apply(
        &mut self,
        rng: &mut rand::rngs::StdRng,
        fitness: &Vec<u64>,
        count: usize,
    ) -> (r: Vec<usize>)
        ensures
            r.len() == count,
            forall|k1: int, k2: int|
                0 <= k1 < r.len() && 0 <= k2 < r.len() && k1 != k2 ==> r[k1] != r[k2],
    {
        sample_distinct_indices(rng, fitness.len(), count)
    }
}

/// Binary rank selection: each of `count` rounds draws two members and
/// keeps the fitter of the two, the first on a tie.
pub struct Rank;

impl Rank {
    pub fn new() -> Self {
        Rank {}
    }
}

impl SelectionOperator for Rank {
    open spec fn can_select(&self, fitness: Seq<u64>, count: usize) -> bool {
        fitness.len() >= 1
    }

    fn apply(
        &mut self,
        rng: &mut rand::rngs::StdRng,
        fitness: &Vec<u64>,
        count: usize,
    ) -> (r: Vec<usize>)
        ensures
            r.len() == count,
    {
        let mut selected: Vec<usize> = Vec::new();
        let mut c: usize = 0;
        while c < count
            invariant
                fitness.len() >= 1,
                c <= count,
                selected.len() == c,
                forall|k: int| 0 <= k < selected.len() ==> (#[trigger] selected[k]) < fitness.len(),
            decreases count - c,
        {
            let p1 = gen_index(rng, fitness.len());
            let p2 = gen_index(rng, fitness.len());
            let pick = if fitness[p1] >= fitness[p2] { p1 } else { p2 };
            selected.push(pick);
            c = c + 1;
        }
        selected
    }
}

/// Tournament selection: each of `count` rounds samples a fifth of the
/// population, without replacement, and keeps its fittest member.
/// `sample` is a pairwise-distinct draw of one fifth of the population and
/// `winner` is a member of it whose fitness no other sampled member exceeds.
pub open spec fn is_tournament_sample(f: Seq<u64>, sample: Seq<usize>, winner: usize) -> bool {
    &&& sample.len() == f.len() / 5
    &&& forall|a: int| 0 <= a < sample.len() ==> (#[trigger] sample[a]) < f.len()
    &&& forall|a: int, b: int|
        0 <= a < b < sample.len() ==> sample[a] != sample[b]
    &&& sample.contains(winner)
    &&& forall|a: int| 0 <= a < sample.len() ==> f[#[trigger] sample[a] as int] <= f[winner as int]
}

/// `winner` carries the greatest fitness of some distinct one-fifth sample.
pub open spec fn tournament_winner(f: Seq<u64>, winner: usize) -> bool {
    exists|sample: Seq<usize>| #[trigger] is_tournament_sample(f, sample, winner)
}

pub struct Tournament;

impl Tournament {
    pub fn new() -> Self {
        Tournament {}
    }
}

impl SelectionOperator for Tournament {
    open spec fn can_select(&self, fitness: Seq<u64>, count: usize) -> bool {
        fitness.len() >= 5
    }

    fn apply(
        &mut self,
        rng: &mut rand::rngs::StdRng,
        fitness: &Vec<u64>,
        count: usize,
    ) -> (r: Vec<usize>)
        ensures
            r.len() == count,
            forall|k: int|
                0 <= k < r.len() ==> tournament_winner(fitness@, #[trigger] r[k]),
    {
        let tournament_size = fitness.len() / 5;
        let mut selected: Vec<usize> = Vec::new();
        let mut c: usize = 0;
        while c < count
            invariant
                fitness.len() >= 5,
                tournament_size == fitness.len() / 5,
                c <= count,
                selected.len() == c,
                forall|k: int| 0 <= k < selected.len() ==> (#[trigger] selected[k]) < fitness.len(),
                forall|k: int|
                    0 <= k < selected.len() ==> tournament_winner(fitness@, #[trigger] selected[k]),
            decreases count - c,
        {
            let entrants = sample_distinct_indices(rng, fitness.len(), tournament_size);
            let mut best = entrants[0];
            let mut t: usize = 1;
            proof {
                assert(entrants@[0] == best);
                assert(entrants@.contains(best));
            }
            while t < entrants.len()
                invariant
                    1 <= t <= entrants.len(),
                    best < fitness.len(),
                    entrants@.contains(best),
                    forall|k: int| 0 <= k < entrants.len() ==> (#[trigger] entrants[k]) < fitness.len(),
                    forall|k: int|
                        0 <= k < t ==> fitness@[#[trigger] entrants[k] as int]
                            <= fitness@[best as int],
                decreases entrants.len() - t,
            {
                if fitness[entrants[t]] >= fitness[best] {
                    best = entrants[t];
                    proof {
                        assert(entrants@[t as int] == best);
                        assert(entrants@.contains(best));
                    }
                }
                t = t + 1;
            }
            proof {
                assert(is_tournament_sample(fitness@, entrants@, best));
                assert(tournament_winner(fitness@, best));
            }
            selected.push(best);
            c = c + 1;
        }
        selected
    }
}

/// Stochastic universal sampling: one random offset, then `count` equally
/// spaced pointers across the cumulative fitness; members are taken in
/// population order, the fitter covering more pointers.
pub struct StochasticUniversalSampling;

impl StochasticUniversalSampling {
    pub fn new() -> Self {
        StochasticUniversalSampling {}
    }
}

impl SelectionOperator for StochasticUniversalSampling {
    open spec fn can_select(&self, fitness: Seq<u64>, count: usize) -> bool {
        count >= 1 && fit_sum(fitness) >= count
    }

    fn apply(
        &mut self,
        rng: &mut rand::rngs::StdRng,
        fitness: &Vec<u64>,
        count: usize,
    ) -> (r: Vec<usize>)
        ensures
            r.len() == count,
            forall|k1: int, k2: int| 0 <= k1 < k2 < r.len() ==> r[k1] <= r[k2],
            forall|k: int|
                0 <= k < r.len() ==> fitness@[#[trigger] r[k] as int] > 0,
            forall|v: usize|
                v < fitness.len() && (#[trigger] occ_count(r@, v)) >= 1
                    ==> (occ_count(r@, v) - 1) * (fit_sum(fitness@) / (count as int))
                        < fitness@[v as int],
    {
        let total = total_fitness(fitness);
        let dist = total / count as u128;
        proof {
            vstd::arithmetic::div_mod::lemma_fundamental_div_mod(total as int, count as int);
            assert((count as int) * (total as int / count as int) <= total as int);
            assert(total as int / count as int >= 1) by (nonlinear_arith)
                requires total as int >= count as int && count as int >= 1;
            assert(dist as int == total as int / count as int);
        }
        let p0 = 1 + gen_below_u128(rng, dist);
        let mut pointer = p0;
        let mut cursum: u128 = 0;
        let mut selected: Vec<usize> = Vec::new();
        let mut idx: usize = 0;
        while idx < fitness.len()
            invariant
                total == fit_sum(fitness@),
                count >= 1,
                total >= count,
                dist == total as int / count as int,
                dist >= 1,
                (count as int) * (dist as int) <= total,
                1 <= p0 <= dist,
                idx <= fitness.len(),
                cursum == fit_prefix(fitness@, idx as int),
                selected.len() <= count,
                selected.len() < count ==> pointer == p0 + (selected.len() as int) * (dist as int),
                selected.len() == count || cursum < pointer,
                forall|k: int| 0 <= k < selected.len() ==> (#[trigger] selected[k]) < idx,
                forall|k1: int, k2: int|
                    0 <= k1 < k2 < selected.len() ==> selected[k1] <= selected[k2],
                forall|k: int|
                    0 <= k < selected.len() ==> fitness@[#[trigger] selected[k] as int] > 0,
                forall|v: usize|
                    v < fitness.len() && (#[trigger] occ_count(selected@, v)) >= 1
                        ==> (occ_count(selected@, v) - 1) * (dist as int) < fitness@[v as int],
            decreases fitness.len() - idx,
        {
            proof {
                lemma_fit_prefix_mono(fitness@, idx as int + 1, fitness@.len() as int);
                lemma_fit_prefix_bounds(fitness@, idx as int);
            }
            let ghost pre = cursum;
            let ghost entry_len = selected.len() as int;
            let ghost entry_sel = selected@;
            proof {
                assert forall|k: int| 0 <= k < entry_sel.len()
                    implies (#[trigger] entry_sel[k]) != idx by {
                    assert(selected[k] < idx);
                }
                lemma_occ_zero(entry_sel, idx);
            }
            cursum = cursum + fitness[idx] as u128;
            while selected.len() < count && cursum >= pointer
                invariant
                    total == fit_sum(fitness@),
                    count >= 1,
                    dist >= 1,
                    (count as int) * (dist as int) <= total,
                    1 <= p0 <= dist,
                    idx < fitness.len(),
                    cursum == fit_prefix(fitness@, idx as int + 1),
                    pre == fit_prefix(fitness@, idx as int),
                    pre < p0 + (selected.len() as int) * (dist as int) || selected.len() == count,
                    selected.len() <= count,
                    selected.len() < count
                        ==> pointer == p0 + (selected.len() as int) * (dist as int),
                    forall|k: int| 0 <= k < selected.len() ==> (#[trigger] selected[k]) <= idx,
                    forall|k1: int, k2: int|
                        0 <= k1 < k2 < selected.len() ==> selected[k1] <= selected[k2],
                    forall|k: int|
                        0 <= k < selected.len() ==> fitness@[#[trigger] selected[k] as int] > 0,
                    entry_len <= selected.len(),
                    entry_len == count as int || pre < p0 + entry_len * (dist as int),
                    occ_count(selected@, idx) == selected.len() - entry_len,
                    forall|v: usize|
                        v != idx ==> occ_count(selected@, v) == occ_count(entry_sel, v),
                    forall|v: usize|
                        v < fitness.len() && (#[trigger] occ_count(entry_sel, v)) >= 1
                            ==> (occ_count(entry_sel, v) - 1) * (dist as int)
                                < fitness@[v as int],
                    occ_count(selected@, idx) >= 1
                        ==> (occ_count(selected@, idx) - 1) * (dist as int)
                            < fitness@[idx as int],
                decreases count - selected.len(),
            {
                proof {
                    // The member being taken has positive fitness: the
                    // cumulative sum before it lay below the pointer.
                    assert(pre < pointer);
                    assert(fitness@[idx as int] > 0);
                }
                let ghost oldlen = selected.len() as int;
                let ghost oldsel = selected@;
                selected.push(idx);
                proof {
                    assert(oldlen * (dist as int) <= (oldlen + 1) * (dist as int))
                        by (nonlinear_arith)
                        requires oldlen >= 0 && dist >= 1;
                    lemma_occ_push(oldsel, idx, idx);
                    assert forall|v: usize| v != idx
                        implies occ_count(selected@, v) == occ_count(entry_sel, v) by {
                        lemma_occ_push(oldsel, idx, v);
                    }
                    // The member's weight covers every pointer consumed for
                    // it: the draw before this member lay below its first
                    // pointer, and each later pointer is one spacing on.
                    let m_old = oldlen - entry_len;
                    assert(entry_len < count as int);
                    assert(pre < p0 + entry_len * (dist as int));
                    assert(entry_len * (dist as int) + m_old * (dist as int)
                        == oldlen * (dist as int)) by (nonlinear_arith)
                        requires entry_len + m_old == oldlen;
                    assert(pointer == p0 + oldlen * (dist as int));
                    assert(m_old * (dist as int) < fitness@[idx as int]);
                }
                if selected.len() < count {
                    proof {
                        assert(pointer == p0 + oldlen * (dist as int));
                        assert(oldlen * (dist as int) + (dist as int)
                            == (oldlen + 1) * (dist as int)) by (nonlinear_arith);
                        assert((oldlen + 1) * (dist as int)
                            <= ((count - 1) as int) * (dist as int)) by (nonlinear_arith)
                            requires oldlen + 1 <= (count - 1) as int && dist >= 1;
                        assert(((count - 1) as int) * (dist as int) + (dist as int)
                            == (count as int) * (dist as int)) by (nonlinear_arith);
                        assert(pointer as int + dist as int <= total as int);
                    }
                    pointer = pointer + dist;
                }
            }
            proof {
                assert forall|v: usize|
                    v < fitness.len() && (#[trigger] occ_count(selected@, v)) >= 1
                    implies (occ_count(selected@, v) - 1) * (dist as int)
                        < fitness@[v as int] by {
                    if v != idx {
                        assert(occ_count(selected@, v) == occ_count(entry_sel, v));
                    }
                }
            }
            idx = idx + 1;
        }
        proof {
            if selected.len() < count {
                assert(cursum == fit_sum(fitness@));
                assert((selected.len() as int) * (dist as int)
                    <= ((count - 1) as int) * (dist as int)) by (nonlinear_arith)
                    requires
                        selected.len() as int <= (count - 1) as int,
                        dist >= 1;
                assert(p0 + (selected.len() as int) * (dist as int) <= (count as int) * (dist as int))
                    by (nonlinear_arith)
                    requires
                        p0 <= dist,
                        (selected.len() as int) * (dist as int)
                            <= ((count - 1) as int) * (dist as int);
                assert(false);
            }
        }
        selected
    }
}

} // verus!
