use vstd::prelude::*;

verus! {

use crate::matrix::Matrix;
use crate::weights::{build_weights, weight_spec};
use crate::tour::{run_ant, is_tour_matrix, positive_off_diagonal, lemma_tour_matrix_congruent};
use crate::grading::{grade_one, cost_spec, lemma_cost_spec_congruent, DEGENERATE_COST};

/// `s` is a solution the engine could genuinely have graded against the
/// weight matrix `w` over `n` nodes: a 0/1 matrix that is one tour or the
/// degeneracy sentinel, priced exactly by the grader. The starting best —
/// the worst-priced sentinel — is of this form too.
pub open spec fn graded_solution(s: Solution, w: Matrix, n: int) -> bool {
    &&& s.matrix.wf()
    &&& s.matrix.n == n
    &&& s.matrix.is_binary()
    &&& (s.matrix.is_zero() || is_tour_matrix(s.matrix, n))
    &&& s.cost == cost_spec(s.matrix, w)
}

/// One candidate tour: its 0/1 adjacency matrix and its scalar cost.
/// Solutions are ordered by ascending cost; lower is better.
pub struct Solution {
    pub matrix: Matrix,
    pub cost: u128,
}

impl Solution {
    /// The solution's matrix obeys the matrix invariant.
    pub open spec fn wf(self) -> bool {
        self.matrix.wf()
    }

    /// A value copy: solutions are retained by copy, never by reference,
    /// since an ant's matrix is reused the next iteration.
    pub fn duplicate(&self) -> (r: Solution)
        requires
            self.wf(),
        ensures
            r.wf(),
            r.cost == self.cost,
            r.matrix.n == self.matrix.n,
            r.matrix.data@ == self.matrix.data@,
    {
        Solution { matrix: self.matrix.duplicate(), cost: self.cost }
    }
}

/// Evolves the pheromone matrix once per iteration. The engine is agnostic
/// to the formula; implementors supply evaporation, deposit or elitist
/// variants. The engine itself checks the returned shape, so a misbehaving
/// implementation surfaces as `StrategyShapeError`, never as a broken
/// engine invariant.
pub trait PheromoneUpdate {
    fn apply(
        &self,
        pheromone: &Matrix,
        solutions: &Vec<Solution>,
        evaporation_rate: u64,
    ) -> Matrix;
}

/// Receives the engine's synchronous lifecycle notifications. Callbacks get
/// read-only views of engine data and run on the engine's own path.
pub trait Probe {
    /// An iteration is about to run.
    fn on_iteration_start(&mut self, iteration: usize);

    /// An iteration has finished.
    fn on_iteration_end(&mut self, iteration: usize);

    /// The best solution of the iteration that just ran.
    fn on_current_best(&mut self, solution: &Solution);

    /// The global best improved; fired only on strict improvement.
    fn on_new_best(&mut self, solution: &Solution);

    /// The pheromone matrix is being replaced.
    fn on_pheromone_update(&mut self, old_pheromone: &Matrix, new_pheromone: &Matrix);

    /// An ant found no positively weighted unvisited candidate and aborted;
    /// the diagnostic for a recoverable degeneracy.
    fn on_degeneracy(&mut self);

    /// The run is over.
    fn on_end(&mut self);
}

/// A configuration fault: the run never starts.
#[derive(Clone, Copy, Debug, PartialEq, Eq, Structural)]
pub enum ConfigurationError {
    /// The matrices do not share one positive dimension.
    MismatchedDimensions,
    /// The iteration count is zero.
    NonPositiveIterations,
    /// The ants-per-iteration count is zero.
    NonPositiveAnts,
}

/// The update strategy returned a matrix of the wrong shape: fatal, the run
/// halts.
#[derive(Clone, Copy, Debug, PartialEq, Eq, Structural)]
pub struct StrategyShapeError;

/// Everything an Ant System run is configured with; immutable once the
/// engine begins running.
pub struct AntSystemCfg<P: PheromoneUpdate, R: Probe> {
    /// Weight matrix used for grading.
    pub weights: Matrix,
    /// Static heuristic matrix.
    pub heuristic: Matrix,
    /// Exponent on the pheromone signal.
    pub alpha: u32,
    /// Exponent on the heuristic signal.
    pub beta: u32,
    /// Handed through to the update strategy.
    pub evaporation_rate: u64,
    /// Independent tour constructions per iteration.
    pub ants_num: usize,
    /// Number of iterations; the only termination control.
    pub iteration: usize,
    /// Pluggable pheromone-update strategy.
    pub pheromone_update: P,
    /// Observer for lifecycle notifications.
    pub probe: R,
}

/// The Ant System engine: runs a configured optimization as a sequence of
/// iterations, evolving the pheromone matrix and tracking the global best.
pub struct AntSystem<P: PheromoneUpdate, R: Probe> {
    pub cfg: AntSystemCfg<P, R>,
    pub pheromone: Matrix,
    pub best_sol: Solution,
}

impl<P: PheromoneUpdate, R: Probe> AntSystem<P, R> {
    /// Problem dimension.
    pub open spec fn n(self) -> int {
        self.pheromone.n as int
    }

    /// The engine invariant: all three matrices share one positive
    /// dimension, and at least one ant runs per iteration. It does not
    /// constrain the iteration count, so a zero-iteration run is well
    /// defined; the constructor additionally enforces the configuration
    /// contract on counts.
    pub open spec fn wf(self) -> bool {
        &&& self.pheromone.wf()
        &&& self.cfg.heuristic.wf()
        &&& self.cfg.weights.wf()
        &&& self.cfg.heuristic.n == self.pheromone.n
        &&& self.cfg.weights.n == self.pheromone.n
        &&& self.pheromone.n >= 1
        &&& self.cfg.ants_num >= 1
        &&& self.best_sol.wf()
    }

    /// Every transition weight between two distinct nodes that the current
    /// pheromone and heuristic produce is positive: the condition under
    /// which no construction can degenerate.
    pub open spec fn weights_positive(self) -> bool {
        forall|i: int, j: int|
            0 <= i < self.pheromone.n && 0 <= j < self.pheromone.n && i != j
                ==> #[trigger] weight_spec(
                    self.pheromone.at(i, j),
                    self.cfg.heuristic.at(i, j),
                    self.cfg.alpha,
                    self.cfg.beta,
                ) >= 1
    }

    /// The run-independent settings agree between two engine states; only
    /// the probe and the mutable run state may differ.
    pub open spec fn same_settings(self, other: AntSystem<P, R>) -> bool {
        &&& self.cfg.weights == other.cfg.weights
        &&& self.cfg.heuristic == other.cfg.heuristic
        &&& self.cfg.alpha == other.cfg.alpha
        &&& self.cfg.beta == other.cfg.beta
        &&& self.cfg.evaporation_rate == other.cfg.evaporation_rate
        &&& self.cfg.ants_num == other.cfg.ants_num
        &&& self.cfg.iteration == other.cfg.iteration
        &&& self.cfg.pheromone_update == other.cfg.pheromone_update
    }

    /// The matrices of the configuration share one positive dimension.
    pub open spec fn dims_ok(cfg: AntSystemCfg<P, R>, initial_pheromone: Matrix) -> bool {
        &&& initial_pheromone.wf()
        &&& cfg.heuristic.wf()
        &&& cfg.weights.wf()
        &&& cfg.heuristic.n == initial_pheromone.n
        &&& cfg.weights.n == initial_pheromone.n
        &&& initial_pheromone.n >= 1
    }

    /// Validates a configuration and assembles the engine. Dimension and
    /// count faults are reported exactly; the retained best starts as the
    /// worst-priced sentinel, so any real solution replaces it.
    pub fn new(cfg: AntSystemCfg<P, R>, initial_pheromone: Matrix) -> (r: Result<
        AntSystem<P, R>,
        ConfigurationError,
    >)
        ensures
            !Self::dims_ok(cfg, initial_pheromone)
                ==> (r matches Err(e) && e == ConfigurationError::MismatchedDimensions),
            Self::dims_ok(cfg, initial_pheromone) && cfg.iteration == 0
                ==> (r matches Err(e) && e == ConfigurationError::NonPositiveIterations),
            Self::dims_ok(cfg, initial_pheromone) && cfg.iteration >= 1 && cfg.ants_num == 0
                ==> (r matches Err(e) && e == ConfigurationError::NonPositiveAnts),
            Self::dims_ok(cfg, initial_pheromone) && cfg.iteration >= 1 && cfg.ants_num >= 1
                ==> (r matches Ok(sys) && {
                    &&& sys.wf()
                    &&& sys.cfg == cfg
                    &&& sys.pheromone == initial_pheromone
                    &&& sys.best_sol.cost == DEGENERATE_COST
                    &&& sys.best_sol.matrix.is_zero()
                    &&& graded_solution(sys.best_sol, sys.cfg.weights, sys.n())
                }),
    {
        let shapes = initial_pheromone.check_wf()
            && cfg.heuristic.check_wf()
            && cfg.weights.check_wf()
            && cfg.heuristic.n == initial_pheromone.n
            && cfg.weights.n == initial_pheromone.n
            && initial_pheromone.n >= 1;
        if !shapes {
            return Err(ConfigurationError::MismatchedDimensions);
        }
        if cfg.iteration == 0 {
            return Err(ConfigurationError::NonPositiveIterations);
        }
        if cfg.ants_num == 0 {
            return Err(ConfigurationError::NonPositiveAnts);
        }
        let n = initial_pheromone.n;
        let best_sol = Solution { matrix: Matrix::zeros(n), cost: DEGENERATE_COST };
        proof {
            assert(best_sol.matrix.is_binary()) by {
                assert forall|i: int, j: int|
                    0 <= i < best_sol.matrix.n && 0 <= j < best_sol.matrix.n
                    implies best_sol.matrix.at(i, j) <= 1 by {
                    assert(best_sol.matrix.at(i, j) == 0);
                }
            }
        }
        Ok(AntSystem { cfg, pheromone: initial_pheromone, best_sol })
    }

    /// Constructs `ants_num` independent candidate tours from the current
    /// pheromone and the static heuristic. Each returned matrix is either
    /// one Hamiltonian cycle's adjacency matrix or the all-zero sentinel of
    /// a degenerate construction, for which the probe gets a diagnostic;
    /// with every transition weight between distinct nodes positive, every
    /// matrix is a genuine tour.
    pub fn run_ants(&mut self, rng: &mut rand::rngs::StdRng) -> (sols: Vec<Matrix>)
        requires
            old(self).wf(),
        ensures
            final(self).wf(),
            final(self).same_settings(*old(self)),
            final(self).pheromone == old(self).pheromone,
            final(self).best_sol == old(self).best_sol,
            sols.len() == old(self).cfg.ants_num,
            forall|k: int|
                0 <= k < sols.len() ==> {
                    &&& (#[trigger] sols[k]).wf()
                    &&& sols[k].n == old(self).pheromone.n
                    &&& sols[k].is_binary()
                    &&& (sols[k].is_zero() || is_tour_matrix(sols[k], old(self).n()))
                },
            old(self).weights_positive()
                ==> forall|k: int|
                    0 <= k < sols.len() ==> is_tour_matrix(#[trigger] sols[k], old(self).n()),
    {
        let prob = build_weights(&self.pheromone, &self.cfg.heuristic, self.cfg.alpha,
            self.cfg.beta);
        proof {
            assert(old(self).weights_positive() ==> positive_off_diagonal(prob)) by {
                if old(self).weights_positive() {
                    assert forall|i: int, j: int|
                        0 <= i < prob.n && 0 <= j < prob.n && i != j
                        implies #[trigger] prob.at(i, j) >= 1 by {
                        assert(prob.at(i, j) == weight_spec(
                            old(self).pheromone.at(i, j),
                            old(self).cfg.heuristic.at(i, j),
                            old(self).cfg.alpha,
                            old(self).cfg.beta,
                        ));
                    }
                }
            }
        }
        let ants = self.cfg.ants_num;
        let mut sols: Vec<Matrix> = Vec::new();
        let mut a: usize = 0;
        while a < ants
        invariant
            old(self).wf(),
            self.wf(),
            self.same_settings(*old(self)),
            self.pheromone == old(self).pheromone,
            self.best_sol == old(self).best_sol,
            ants == old(self).cfg.ants_num,
            prob.wf(),
            prob.n == old(self).pheromone.n,
            a <= ants,
            sols.len() == a,
            forall|k: int|
                0 <= k < sols.len() ==> {
                    &&& (#[trigger] sols[k]).wf()
                    &&& sols[k].n == old(self).pheromone.n
                    &&& sols[k].is_binary()
                    &&& (sols[k].is_zero() || is_tour_matrix(sols[k], old(self).n()))
                    &&& (positive_off_diagonal(prob) ==> is_tour_matrix(sols[k], old(self).n()))
                },
            decreases ants - a,
        {
            let m = run_ant(&prob, rng);
            if m.is_all_zero() {
                self.cfg.probe.on_degeneracy();
            }
            sols.push(m);
            a = a + 1;
        }
        sols
    }

    /// Grades a population of solution matrices against the weight matrix;
    /// each matrix is paired with its exact cost.
    pub fn grade(&self, sols_m: Vec<Matrix>) -> (sols: Vec<Solution>)
        requires
            self.wf(),
            forall|k: int|
                0 <= k < sols_m.len()
                    ==> (#[trigger] sols_m[k]).wf() && sols_m[k].n == self.cfg.weights.n
                        && sols_m[k].is_binary(),
        ensures
            sols.len() == sols_m.len(),
            forall|k: int|
                0 <= k < sols.len() ==> {
                    &&& (#[trigger] sols[k]).matrix == sols_m[k]
                    &&& sols[k].cost == cost_spec(sols_m[k], self.cfg.weights)
                },
    {
        let ghost orig = sols_m@;
        let mut rest = sols_m;
        let mut sols: Vec<Solution> = Vec::new();
        while rest.len() > 0
            invariant
                self.wf(),
                sols.len() + rest.len() == orig.len(),
                rest@ == orig.subrange(sols.len() as int, orig.len() as int),
                forall|k: int|
                    0 <= k < orig.len()
                        ==> (#[trigger] orig[k]).wf() && orig[k].n == self.cfg.weights.n
                            && orig[k].is_binary(),
                forall|k: int|
                    0 <= k < sols.len() ==> {
                        &&& (#[trigger] sols[k]).matrix == orig[k]
                        &&& sols[k].cost == cost_spec(orig[k], self.cfg.weights)
                    },
            decreases rest.len(),
        {
            let ghost done = sols.len() as int;
            assert(rest@[0] == orig[done]);
            let m = rest.remove(0);
            let c = grade_one(&m, &self.cfg.weights);
            sols.push(Solution { matrix: m, cost: c });
            proof {
                assert(rest@ =~= orig.subrange(sols.len() as int, orig.len() as int));
            }
        }
        sols
    }

    /// Index of the minimum-cost solution; ties resolve to the first
    /// encountered, in population order.
    pub fn find_best(&self, sols: &Vec<Solution>) -> (best: usize)
        requires
            sols.len() >= 1,
        ensures
            best < sols.len(),
            forall|k: int| 0 <= k < sols.len() ==> sols[best as int].cost <= (#[trigger] sols[k]).cost,
            forall|k: int| 0 <= k < best ==> (#[trigger] sols[k]).cost > sols[best as int].cost,
    {
        let mut best: usize = 0;
        let mut j: usize = 1;
        while j < sols.len()
            invariant
                sols.len() >= 1,
                best < j,
                j <= sols.len(),
                forall|k: int| 0 <= k < j ==> sols[best as int].cost <= (#[trigger] sols[k]).cost,
                forall|k: int| 0 <= k < best ==> (#[trigger] sols[k]).cost > sols[best as int].cost,
            decreases sols.len() - j,
        {
            if sols[j].cost < sols[best].cost {
                best = j;
            }
            j = j + 1;
        }
        best
    }

    /// Replaces the retained global best exactly when the candidate's cost
    /// is strictly lower; an improvement is reported to the probe. The best
    /// is kept as a value copy.
    pub fn update_best(&mut self, current_best: &Solution)
        requires
            old(self).wf(),
            current_best.wf(),
        ensures
            final(self).wf(),
            final(self).same_settings(*old(self)),
            final(self).pheromone == old(self).pheromone,
            final(self).best_sol.cost == (if current_best.cost < old(self).best_sol.cost {
                current_best.cost
            } else {
                old(self).best_sol.cost
            }),
            current_best.cost >= old(self).best_sol.cost
                ==> final(self).best_sol == old(self).best_sol,
            current_best.cost < old(self).best_sol.cost ==> {
                &&& final(self).best_sol.matrix.n == current_best.matrix.n
                &&& final(self).best_sol.matrix.data@ == current_best.matrix.data@
            },
    {
        if current_best.cost < self.best_sol.cost {
            self.cfg.probe.on_new_best(current_best);
            self.best_sol = current_best.duplicate();
        }
    }

    /// One full iteration: construct, grade, track the best, let the update
    /// strategy evolve the pheromone, and replace it — each step reported to
    /// the probe. The global best's cost never increases. A strategy
    /// returning a wrongly shaped matrix is fatal.
    pub fn iterate(&mut self, rng: &mut rand::rngs::StdRng) -> (r: Result<(), StrategyShapeError>)
        requires
            old(self).wf(),
        ensures
            final(self).wf(),
            final(self).same_settings(*old(self)),
            final(self).pheromone.n == old(self).pheromone.n,
            final(self).best_sol.cost <= old(self).best_sol.cost,
            final(self).best_sol == old(self).best_sol
                || graded_solution(final(self).best_sol, old(self).cfg.weights, old(self).n()),
            r matches Err(_) ==> final(self).pheromone == old(self).pheromone,
    {
        let sols_m = self.run_ants(rng);
        let sols = self.grade(sols_m);
        let best = self.find_best(&sols);
        self.cfg.probe.on_current_best(&sols[best]);
        self.update_best(&sols[best]);
        proof {
            // If the candidate replaced the retained best, the stored value
            // is an entry-for-entry copy of a genuinely graded solution.
            if self.best_sol != old(self).best_sol {
                let cand = sols@[best as int];
                assert(graded_solution(cand, old(self).cfg.weights, old(self).n()));
                lemma_cost_spec_congruent(
                    self.best_sol.matrix,
                    cand.matrix,
                    old(self).cfg.weights,
                );
                assert(self.best_sol.matrix.is_binary()) by {
                    assert forall|x: int, y: int|
                        0 <= x < self.best_sol.matrix.n && 0 <= y < self.best_sol.matrix.n
                        implies self.best_sol.matrix.at(x, y) <= 1 by {
                        assert(cand.matrix.at(x, y) <= 1);
                    }
                }
                if cand.matrix.is_zero() {
                    assert(self.best_sol.matrix.is_zero()) by {
                        assert forall|x: int, y: int|
                            0 <= x < self.best_sol.matrix.n && 0 <= y < self.best_sol.matrix.n
                            implies self.best_sol.matrix.at(x, y) == 0 by {
                            assert(cand.matrix.at(x, y) == 0);
                        }
                    }
                } else {
                    lemma_tour_matrix_congruent(
                        cand.matrix,
                        self.best_sol.matrix,
                        old(self).n(),
                    );
                }
                assert(graded_solution(self.best_sol, old(self).cfg.weights, old(self).n()));
            }
        }

        let new_pheromone = self.cfg.pheromone_update.apply(
            &self.pheromone,
            &sols,
            self.cfg.evaporation_rate,
        );
        if !(new_pheromone.check_wf() && new_pheromone.n == self.pheromone.n) {
            return Err(StrategyShapeError);
        }
        self.cfg.probe.on_pheromone_update(&self.pheromone, &new_pheromone);
        self.pheromone = new_pheromone;
        Ok(())
    }

    /// Final notification; hands the retained best back as the run's result.
    pub fn end(self) -> (s: Solution)
        ensures
            s == self.best_sol,
    {
        let AntSystem { cfg, pheromone, best_sol } = self;
        let mut cfg = cfg;
        cfg.probe.on_end();
        best_sol
    }

    /// Executes the algorithm: the configured number of iterations, then the
    /// end notification. Returns the best solution seen, which never costs
    /// more than the best the engine started with; a zero-iteration run
    /// constructs and grades nothing and returns that starting best
    /// unchanged. The only error is a wrongly shaped strategy result, which
    /// halts the run at once.
    pub fn run(self, rng: &mut rand::rngs::StdRng) -> (r: Result<Solution, StrategyShapeError>)
        requires
            self.wf(),
        ensures
            r matches Ok(s) ==> s.cost <= self.best_sol.cost,
            r matches Ok(s)
                ==> (s == self.best_sol
                    || graded_solution(s, self.cfg.weights, self.n())),
            self.cfg.iteration == 0 ==> (r matches Ok(s) && s == self.best_sol),
    {
        let ghost orig = self;
        let mut me = self;
        let iters = me.cfg.iteration;
        let mut i: usize = 0;
        let mut failed = false;
        while i < iters && !failed
            invariant
                me.wf(),
                i <= iters,
                me.cfg.iteration == iters,
                me.best_sol.cost <= orig.best_sol.cost,
                me.cfg.weights == orig.cfg.weights,
                me.pheromone.n == orig.pheromone.n,
                me.best_sol == orig.best_sol
                    || graded_solution(me.best_sol, orig.cfg.weights, orig.n()),
                iters == 0 ==> me == orig,
                failed ==> iters >= 1,
            decreases iters - i + (if failed { 0int } else { 1int }),
        {
            me.cfg.probe.on_iteration_start(i);
            let step = me.iterate(rng);
            if step.is_err() {
                failed = true;
            } else {
                me.cfg.probe.on_iteration_end(i);
                i = i + 1;
            }
        }
        if failed {
            return Err(StrategyShapeError);
        }
        Ok(me.end())
    }
}

} // verus!
