//! The generational state of the experiment: the current population, its
//! recorded fitness scores, and the turnover to the next generation.
//!
//! A fitness score is a 64-bit order key supplied by the evaluator: a higher
//! key means a better individual, and the caller chooses the embedding (for
//! real-valued scores, an order-preserving one that places an undefined score
//! below every defined one).  Scores pair with individuals by position: the
//! i-th recorded score belongs to the i-th network of the generation.

use vstd::prelude::*;

use crate::arith::{WeightOps, BITS_ONE};
use crate::config::ExperimentConfig;
use crate::network::{
    build_network, lemma_eqv_wf, lemma_net_diffs_eqv, spec_controller_recipe, spec_net_diffs,
    spec_net_eqv, spec_nweights, spec_same_topology, MultilayerPerceptron,
};

verus! {

/// State that persists across the whole experiment.
pub struct ExperimentState {
    /// Which generation this is; the first is zero.
    pub generation: usize,
    /// The networks of the current generation, in a stable order that is not
    /// fitness-sorted.
    pub networks: Vec<MultilayerPerceptron>,
    /// One fitness key per network, by position; cleared at each turnover.
    pub evaluations: Vec<u64>,
}

/// Index `a` ranks strictly before index `b`: a higher key wins, and between
/// equal keys the lower index wins.
pub open spec fn spec_rank_before(evals: Seq<u64>, a: int, b: int) -> bool {
    evals[a] > evals[b] || (evals[a] == evals[b] && a < b)
}

/// `perm` is the fitness ranking of the indices `0 .. evals.len()`: a
/// permutation listed best first.
pub open spec fn spec_ranking_ok(perm: Seq<usize>, evals: Seq<u64>) -> bool {
    &&& perm.len() == evals.len()
    &&& forall|x: int| 0 <= x < perm.len() ==> (#[trigger] perm[x]) < evals.len()
    &&& forall|x: int, y: int|
        0 <= x < y < perm.len() ==> spec_rank_before(
            evals,
            #[trigger] perm[x] as int,
            #[trigger] perm[y] as int,
        )
    &&& forall|j: usize| j < evals.len() ==> #[trigger] perm.contains(j)
}

/// Index `i` carries a maximal key.
pub open spec fn spec_is_best(evals: Seq<u64>, i: int) -> bool {
    &&& 0 <= i < evals.len()
    &&& forall|j: int| 0 <= j < evals.len() ==> #[trigger] evals[j] <= evals[i]
}

/// The head of a ranking carries a maximal key.
pub proof fn lemma_ranking_head_best(perm: Seq<usize>, evals: Seq<u64>)
    requires
        spec_ranking_ok(perm, evals),
        evals.len() > 0,
        evals.len() <= usize::MAX,
    ensures
        spec_is_best(evals, perm[0] as int),
{
    assert forall|j: int| 0 <= j < evals.len() implies #[trigger] evals[j] <= evals[perm[0] as int] by {
        assert(0 <= j <= usize::MAX);
        assert(perm.contains(j as usize));
        let x = choose|x: int| 0 <= x < perm.len() && perm[x] == j as usize;
        if x > 0 {
            assert(spec_rank_before(evals, perm[0] as int, perm[x] as int));
        }
    }
}

fn rank_gt(evals: &Vec<u64>, a: usize, b: usize) -> (r: bool)
    requires
        a < evals@.len(),
        b < evals@.len(),
    ensures
        r == spec_rank_before(evals@, a as int, b as int),
{
    evals[a] > evals[b] || (evals[a] == evals[b] && a < b)
}

/// Ranks the generation's indices by fitness, best first; ties go to the
/// lower index.
pub fn rank_indices(evals: &Vec<u64>) -> (r: Vec<usize>)
    ensures
        spec_ranking_ok(r@, evals@),
{
    let n = evals.len();
    let mut r: Vec<usize> = Vec::new();
    let mut j: usize = 0;
    while j < n
        invariant
            0 <= j <= n,
            n == evals@.len(),
            r@.len() == j,
            forall|x: int| 0 <= x < r@.len() ==> (#[trigger] r@[x]) < j,
            forall|x: int, y: int|
                0 <= x < y < r@.len() ==> spec_rank_before(
                    evals@,
                    #[trigger] r@[x] as int,
                    #[trigger] r@[y] as int,
                ),
            forall|t: usize| t < j ==> #[trigger] r@.contains(t),
        decreases n - j,
    {
        let mut p: usize = 0;
        while p < r.len() && rank_gt(evals, r[p], j)
            invariant
                0 <= p <= r@.len(),
                j < n,
                n == evals@.len(),
                forall|x: int| 0 <= x < r@.len() ==> (#[trigger] r@[x]) < j,
                forall|x: int| 0 <= x < p ==> spec_rank_before(evals@, #[trigger] r@[x] as int, j as int),
            decreases r@.len() - p,
        {
            p = p + 1;
        }
        let ghost before = r@;
        r.insert(p, j);
        proof {
            assert(r@ == before.insert(p as int, j));
            assert(r@.len() == before.len() + 1);
            assert(forall|x: int| 0 <= x < p ==> r@[x] == before[x]);
            assert(r@[p as int] == j);
            assert(forall|x: int| p < x < r@.len() ==> r@[x] == before[x - 1]);
            // Sortedness: entries before the slot beat `j`, and `j` beats the
            // rest because ranking is a strict total order.
            if p < before.len() {
                assert(!spec_rank_before(evals@, before[p as int] as int, j as int));
                assert(before[p as int] != j);
                assert(spec_rank_before(evals@, j as int, before[p as int] as int));
            }
            assert forall|x: int, y: int|
                0 <= x < y < r@.len() implies spec_rank_before(
                evals@,
                #[trigger] r@[x] as int,
                #[trigger] r@[y] as int,
            ) by {
                if y < p {
                } else if y == p {
                    assert(spec_rank_before(evals@, r@[x] as int, j as int));
                } else {
                    if x < p {
                        assert(spec_rank_before(evals@, before[x] as int, before[y - 1] as int)
                            || spec_rank_before(evals@, j as int, before[y - 1] as int));
                        if y - 1 == p {
                        } else {
                            assert(spec_rank_before(
                                evals@,
                                before[p as int] as int,
                                before[y - 1] as int,
                            ));
                        }
                    } else if x == p {
                        assert(spec_rank_before(evals@, j as int, before[p as int] as int));
                        if y - 1 > p {
                            assert(spec_rank_before(
                                evals@,
                                before[p as int] as int,
                                before[y - 1] as int,
                            ));
                        }
                    } else {
                        assert(spec_rank_before(evals@, before[x - 1] as int, before[y - 1] as int));
                    }
                }
            }
            assert forall|t: usize| t < j + 1 implies #[trigger] r@.contains(t) by {
                if t == j {
                    assert(r@[p as int] == t);
                } else {
                    assert(before.contains(t));
                    let x = choose|x: int| 0 <= x < before.len() && before[x] == t;
                    if x < p {
                        assert(r@[x] == t);
                    } else {
                        assert(r@[x + 1] == t);
                    }
                }
            }
        }
        j = j + 1;
    }
    r
}

/// The turnover's promise, under one particular ranking of the old
/// generation: the first `nkeep` slots of the new one are value-equal copies
/// of the ranking's best entries, and each later slot `k` descends from the
/// kept slot `(k - nkeep) % nkeep`, sharing its whole topology, differing
/// from it in at most the number of weight entries the backend asked to
/// draw, and equal to it outright when that number is zero.
pub open spec fn spec_next_gen_witness<W: WeightOps>(
    ops: W,
    new: Seq<MultilayerPerceptron>,
    old_nets: Seq<MultilayerPerceptron>,
    evals: Seq<u64>,
    nkeep: usize,
    gensize: usize,
    fraction: u64,
    perm: Seq<usize>,
) -> bool {
    &&& spec_ranking_ok(perm, evals)
    &&& forall|k: int|
        0 <= k < nkeep ==> spec_net_eqv(
            (#[trigger] new[k]).layers@,
            old_nets[perm[k] as int].layers@,
        )
    &&& forall|k: int|
        nkeep <= k < gensize ==> spec_same_topology(
            (#[trigger] new[k]).layers@,
            new[(k - nkeep) % (nkeep as int)].layers@,
        ) && spec_net_diffs(new[k].layers@, new[(k - nkeep) % (nkeep as int)].layers@)
            <= ops.smut_count(
            spec_nweights(new[(k - nkeep) % (nkeep as int)].layers@) as usize,
            fraction,
        ) && (ops.smut_count(
            spec_nweights(new[(k - nkeep) % (nkeep as int)].layers@) as usize,
            fraction,
        ) == 0 ==> spec_net_eqv(new[k].layers@, new[(k - nkeep) % (nkeep as int)].layers@))
}

/// What the turnover from an evaluated generation promises: some fitness
/// ranking of the old generation exists that the new generation descends
/// from, as [`spec_next_gen_witness`] states.
pub open spec fn spec_next_generation<W: WeightOps>(
    ops: W,
    new: Seq<MultilayerPerceptron>,
    old_nets: Seq<MultilayerPerceptron>,
    evals: Seq<u64>,
    nkeep: usize,
    gensize: usize,
    fraction: u64,
) -> bool {
    exists|perm: Seq<usize>|
        #[trigger] spec_next_gen_witness(ops, new, old_nets, evals, nkeep, gensize, fraction, perm)
}

impl ExperimentState {
    /// Every network of the state is well formed and open to mutation.
    pub open spec fn wf(&self) -> bool {
        forall|i: int|
            0 <= i < self.networks@.len() ==> (#[trigger] self.networks@[i]).wf()
                && self.networks@[i].mutable()
    }

    /// A fresh state: generation zero, no networks, no scores.
    pub fn new() -> (s: Self)
        ensures
            s.generation == 0,
            s.networks@.len() == 0,
            s.evaluations@.len() == 0,
            s.wf(),
    {
        ExperimentState { generation: 0, networks: Vec::new(), evaluations: Vec::new() }
    }

    /// Records the next fitness key, in the order the networks stand.
    pub fn add_fitness(&mut self, fitness: u64)
        ensures
            final(self).evaluations@ == old(self).evaluations@.push(fitness),
            final(self).networks == old(self).networks,
            final(self).generation == old(self).generation,
            final(self).wf() == old(self).wf(),
    {
        self.evaluations.push(fitness);
    }

    /// Derives the next generation.
    ///
    /// From generation zero this spawns `generation_size` fresh controller
    /// networks with weights drawn from `[low, high]`.  From a later
    /// generation - which must carry exactly one fitness key per network -
    /// it keeps value-equal copies of the `nkeep` best networks and fills the
    /// remaining slots round-robin with their mutants, as
    /// [`spec_next_generation`] states.  Either way the new generation has
    /// exactly `generation_size` individuals, the scores are cleared, and the
    /// generation index moves up by one.
    pub fn create_next_generation<W: WeightOps>(
        &mut self,
        cfg: &ExperimentConfig,
        rng: &mut rand::rngs::StdRng,
        ops: &W,
    )
        requires
            old(self).wf(),
            old(self).generation < usize::MAX,
            ops.sle(cfg.mutation_fraction, BITS_ONE),
            old(self).generation > 0 ==> old(self).evaluations@.len() == old(
                self,
            ).networks@.len(),
            old(self).generation > 0 && cfg.generation_size > 0 ==> 1 <= cfg.nkeep
                <= old(self).networks@.len() && cfg.nkeep <= cfg.generation_size,
        ensures
            final(self).wf(),
            final(self).generation == old(self).generation + 1,
            final(self).evaluations@.len() == 0,
            final(self).networks@.len() == cfg.generation_size,
            old(self).generation == 0 ==> forall|i: int|
                0 <= i < cfg.generation_size ==> spec_controller_recipe(
                    #[trigger] final(self).networks@[i],
                ),
            old(self).generation > 0 && cfg.generation_size > 0 ==> spec_next_generation(
                *ops,
                final(self).networks@,
                old(self).networks@,
                old(self).evaluations@,
                cfg.nkeep,
                cfg.generation_size,
                cfg.mutation_fraction,
            ),
    {
        let nets = if self.generation == 0 {
            spawn_n_networks(cfg.generation_size, cfg.low, cfg.high, rng, ops)
        } else {
            spawn_from_networks(
                &self.networks,
                &self.evaluations,
                cfg.generation_size,
                cfg.nkeep,
                cfg.mutation_fraction,
                cfg.mutation_stdev,
                rng,
                ops,
            )
        };
        self.networks = nets;
        self.generation = self.generation + 1;
        self.evaluations = Vec::new();
    }

    /// A value-equal copy of a highest-fitness network of the current
    /// generation, or nothing when the generation is empty.
    pub fn best_network(&self) -> (r: Option<MultilayerPerceptron>)
        requires
            self.wf(),
            self.evaluations@.len() == self.networks@.len(),
        ensures
            r is Some <==> self.networks@.len() > 0,
            match r {
                Option::Some(n) => n.wf() && exists|i: int|
                    spec_is_best(self.evaluations@, i) && spec_net_eqv(
                        n.layers@,
                        (#[trigger] self.networks@[i]).layers@,
                    ),
                Option::None => true,
            },
    {
        if self.networks.len() == 0 {
            return None;
        }
        let rank = rank_indices(&self.evaluations);
        let idx = rank[0];
        proof {
            lemma_ranking_head_best(rank@, self.evaluations@);
        }
        let n = self.networks[idx].clone();
        proof {
            lemma_eqv_wf(n.layers@, self.networks@[idx as int].layers@);
        }
        Some(n)
    }
}

/// Spawns `n` fresh controller networks with uniformly drawn weights.
fn spawn_n_networks<W: WeightOps>(
    n: usize,
    low: u64,
    high: u64,
    rng: &mut rand::rngs::StdRng,
    ops: &W,
) -> (v: Vec<MultilayerPerceptron>)
    ensures
        v@.len() == n,
        forall|i: int| 0 <= i < n ==> spec_controller_recipe(#[trigger] v@[i]),
{
    let mut v: Vec<MultilayerPerceptron> = Vec::new();
    let mut i: usize = 0;
    while i < n
        invariant
            0 <= i <= n,
            v@.len() == i,
            forall|k: int| 0 <= k < i ==> spec_controller_recipe(#[trigger] v@[k]),
        decreases n - i,
    {
        let net = build_network(low, high, rng, ops);
        v.push(net);
        i = i + 1;
    }
    v
}

/// Keeps value-equal copies of the `nkeep` best networks and fills the rest
/// of the generation round-robin with their mutants.
#[verifier::rlimit(50)]
fn spawn_from_networks<W: WeightOps>(
    networks: &Vec<MultilayerPerceptron>,
    evaluations: &Vec<u64>,
    gensize: usize,
    nkeep: usize,
    fraction: u64,
    stdev: u64,
    rng: &mut rand::rngs::StdRng,
    ops: &W,
) -> (v: Vec<MultilayerPerceptron>)
    requires
        forall|i: int|
            0 <= i < networks@.len() ==> (#[trigger] networks@[i]).wf() && networks@[i].mutable(),
        evaluations@.len() == networks@.len(),
        ops.sle(fraction, BITS_ONE),
        gensize > 0 ==> 1 <= nkeep <= networks@.len() && nkeep <= gensize,
    ensures
        v@.len() == gensize,
        forall|i: int| 0 <= i < gensize ==> (#[trigger] v@[i]).wf() && v@[i].mutable(),
        gensize > 0 ==> spec_next_generation(
            *ops,
            v@,
            networks@,
            evaluations@,
            nkeep,
            gensize,
            fraction,
        ),
{
    // A generation of size zero stays empty; an atypical use.
    if gensize == 0 {
        return Vec::new();
    }
    // Rank the networks by how well they did.
    let rank = rank_indices(evaluations);
    // Keep value-equal copies of the top performers.
    let mut v: Vec<MultilayerPerceptron> = Vec::new();
    let mut k: usize = 0;
    while k < nkeep
        invariant
            0 <= k <= nkeep,
            nkeep <= networks@.len(),
            evaluations@.len() == networks@.len(),
            spec_ranking_ok(rank@, evaluations@),
            forall|i: int|
                0 <= i < networks@.len() ==> (#[trigger] networks@[i]).wf()
                    && networks@[i].mutable(),
            v@.len() == k,
            forall|i: int|
                0 <= i < k ==> spec_net_eqv(
                    (#[trigger] v@[i]).layers@,
                    networks@[rank@[i] as int].layers@,
                ),
            forall|i: int| 0 <= i < k ==> (#[trigger] v@[i]).wf() && v@[i].mutable(),
        decreases nkeep - k,
    {
        let idx = rank[k];
        let n = networks[idx].clone();
        proof {
            lemma_eqv_wf(n.layers@, networks@[idx as int].layers@);
        }
        v.push(n);
        k = k + 1;
    }
    // Fill the rest with round-robin mutants of the kept networks.
    let ghost kept = v@;
    while k < gensize
        invariant
            nkeep <= k <= gensize,
            1 <= nkeep <= gensize,
            ops.sle(fraction, BITS_ONE),
            v@.len() == k,
            kept == v@.take(nkeep as int),
            kept.len() == nkeep,
            forall|i: int| 0 <= i < k ==> (#[trigger] v@[i]).wf() && v@[i].mutable(),
            forall|i: int|
                nkeep <= i < k ==> spec_same_topology(
                    (#[trigger] v@[i]).layers@,
                    v@[(i - nkeep) % (nkeep as int)].layers@,
                ) && spec_net_diffs(v@[i].layers@, v@[(i - nkeep) % (nkeep as int)].layers@)
                    <= ops.smut_count(
                    spec_nweights(v@[(i - nkeep) % (nkeep as int)].layers@) as usize,
                    fraction,
                ) && (ops.smut_count(
                    spec_nweights(v@[(i - nkeep) % (nkeep as int)].layers@) as usize,
                    fraction,
                ) == 0 ==> spec_net_eqv(v@[i].layers@, v@[(i - nkeep) % (nkeep as int)].layers@)),
        decreases gensize - k,
    {
        let p = (k - nkeep) % nkeep;
        proof {
            assert(0 <= (k - nkeep) as int % (nkeep as int) < nkeep as int) by (nonlinear_arith)
                requires
                    nkeep >= 1,
                    k >= nkeep,
            ;
        }
        let mutant = v[p].mutate(rng, fraction, stdev, ops);
        let ghost before = v@;
        v.push(mutant);
        proof {
            assert(v@.take(nkeep as int) =~= before.take(nkeep as int));
            assert forall|i: int|
                nkeep <= i < k + 1 implies spec_same_topology(
                (#[trigger] v@[i]).layers@,
                v@[(i - nkeep) % (nkeep as int)].layers@,
            ) && spec_net_diffs(v@[i].layers@, v@[(i - nkeep) % (nkeep as int)].layers@)
                <= ops.smut_count(
                spec_nweights(v@[(i - nkeep) % (nkeep as int)].layers@) as usize,
                fraction,
            ) && (ops.smut_count(
                spec_nweights(v@[(i - nkeep) % (nkeep as int)].layers@) as usize,
                fraction,
            ) == 0 ==> spec_net_eqv(v@[i].layers@, v@[(i - nkeep) % (nkeep as int)].layers@)) by {
                assert(0 <= (i - nkeep) % (nkeep as int) < nkeep as int) by (nonlinear_arith)
                    requires
                        nkeep >= 1,
                        i >= nkeep,
                ;
                if i < k {
                    assert(v@[i] == before[i]);
                    assert(v@[(i - nkeep) % (nkeep as int)] == before[(i - nkeep) % (nkeep as int)]);
                } else {
                    assert(v@[i] == mutant);
                    assert(v@[(i - nkeep) % (nkeep as int)] == before[(i - nkeep) % (nkeep
                        as int)]);
                    assert((i - nkeep) % (nkeep as int) == (k - nkeep) as int % (nkeep as int));
                }
            }
        }
        k = k + 1;
    }
    proof {
        assert(kept == v@.take(nkeep as int));
        assert forall|i: int|
            0 <= i < nkeep implies spec_net_eqv(
            (#[trigger] v@[i]).layers@,
            networks@[rank@[i] as int].layers@,
        ) by {
            assert(v@[i] == kept[i]);
        }
        assert(spec_ranking_ok(rank@, evaluations@));
        assert(spec_next_gen_witness(
            *ops,
            v@,
            networks@,
            evaluations@,
            nkeep,
            gensize,
            fraction,
            rank@,
        ));
        assert(spec_next_generation(*ops, v@, networks@, evaluations@, nkeep, gensize, fraction));
    }
    v
}

/// Value equality of networks is transitive.
proof fn lemma_net_eqv_trans(a: Seq<crate::network::Layer>, b: Seq<crate::network::Layer>, c: Seq<crate::network::Layer>)
    requires
        spec_net_eqv(a, b),
        spec_net_eqv(b, c),
    ensures
        spec_net_eqv(a, c),
{
    assert forall|i: int| 0 <= i < a.len() implies crate::network::layer_eqv(#[trigger] a[i], c[i]) by {
        assert(crate::network::layer_eqv(a[i], b[i]));
        assert(crate::network::layer_eqv(b[i], c[i]));
    }
}

/// Selection correctness: when one individual is kept and the backend asks
/// for no mutation draws (as with a zero mutation fraction), every individual
/// of the next generation is value-equal to a highest-fitness individual of
/// the previous one - and therefore, the forward pass being a function of the
/// weights, reproduces that individual's outputs on any input.
pub proof fn lemma_selection_correctness<W: WeightOps>(
    ops: W,
    new: Seq<MultilayerPerceptron>,
    old_nets: Seq<MultilayerPerceptron>,
    evals: Seq<u64>,
    gensize: usize,
    fraction: u64,
)
    requires
        spec_next_generation(ops, new, old_nets, evals, 1, gensize, fraction),
        fraction == crate::arith::BITS_ZERO,
        evals.len() == old_nets.len(),
        evals.len() > 0,
        evals.len() <= usize::MAX,
        new.len() == gensize,
        gensize > 0,
    ensures
        exists|i: int|
            #[trigger] spec_is_best(evals, i) && forall|k: int|
                0 <= k < gensize ==> spec_net_eqv((#[trigger] new[k]).layers@, old_nets[i].layers@),
{
    let perm = choose|perm: Seq<usize>|
        #[trigger] spec_next_gen_witness(ops, new, old_nets, evals, 1, gensize, fraction, perm);
    assert(spec_next_gen_witness(ops, new, old_nets, evals, 1, gensize, fraction, perm));
    lemma_ranking_head_best(perm, evals);
    let best = perm[0] as int;
    assert(spec_net_eqv(new[0].layers@, old_nets[best].layers@));
    assert forall|k: int| 0 <= k < gensize implies spec_net_eqv(
        (#[trigger] new[k]).layers@,
        old_nets[best].layers@,
    ) by {
        if k >= 1 {
            assert((k - 1) % (1 as int) == 0);
            ops.lemma_zero_fraction(spec_nweights(new[0].layers@) as usize);
            assert(spec_net_eqv(new[k].layers@, new[0].layers@));
            lemma_net_eqv_trans(new[k].layers@, new[0].layers@, old_nets[best].layers@);
        }
    }
    assert(spec_is_best(evals, best) && forall|k: int|
        0 <= k < gensize ==> spec_net_eqv((#[trigger] new[k]).layers@, old_nets[best].layers@));
}

} // verus!
