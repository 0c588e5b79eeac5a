use evo_core::ants_system::{
    AntSystem, AntSystemCfg, ConfigurationError, PheromoneUpdate, Probe, Solution,
    StrategyShapeError,
};
use evo_core::grading::DEGENERATE_COST;
use evo_core::matrix::Matrix;
use evo_core::rng::seeded_rng;

/// Keeps the pheromone matrix as it is.
struct IdentityUpdate;

impl PheromoneUpdate for IdentityUpdate {
    fn apply(&self, pheromone: &Matrix, _solutions: &Vec<Solution>, _evaporation_rate: u64) -> Matrix {
        pheromone.duplicate()
    }
}

/// Returns a matrix of the wrong dimension.
struct BrokenUpdate;

impl PheromoneUpdate for BrokenUpdate {
    fn apply(&self, pheromone: &Matrix, _solutions: &Vec<Solution>, _evaporation_rate: u64) -> Matrix {
        Matrix::zeros(pheromone.n + 1)
    }
}

/// Counts every notification.
#[derive(Default)]
struct CountingProbe {
    iteration_starts: usize,
    iteration_ends: usize,
    current_bests: usize,
    new_bests: usize,
    pheromone_updates: usize,
    degeneracies: usize,
    ends: usize,
    last_best_cost: Option<u128>,
}

impl Probe for CountingProbe {
    fn on_iteration_start(&mut self, _iteration: usize) {
        self.iteration_starts += 1;
    }
    fn on_iteration_end(&mut self, _iteration: usize) {
        self.iteration_ends += 1;
    }
    fn on_current_best(&mut self, solution: &Solution) {
        self.current_bests += 1;
        self.last_best_cost = Some(solution.cost);
    }
    fn on_new_best(&mut self, _solution: &Solution) {
        self.new_bests += 1;
    }
    fn on_pheromone_update(&mut self, _old_pheromone: &Matrix, _new_pheromone: &Matrix) {
        self.pheromone_updates += 1;
    }
    fn on_degeneracy(&mut self) {
        self.degeneracies += 1;
    }
    fn on_end(&mut self) {
        self.ends += 1;
    }
}

fn uniform_cfg<P: PheromoneUpdate>(
    n: usize,
    iteration: usize,
    ants_num: usize,
    update: P,
) -> AntSystemCfg<P, CountingProbe> {
    AntSystemCfg {
        weights: Matrix::filled(n, 1),
        heuristic: Matrix::filled(n, 1),
        alpha: 1,
        beta: 1,
        evaporation_rate: 10,
        ants_num,
        iteration,
        pheromone_update: update,
        probe: CountingProbe::default(),
    }
}

#[test]
fn mismatched_dimensions_are_rejected_at_construction() {
    let mut cfg = uniform_cfg(4, 3, 2, IdentityUpdate);
    cfg.heuristic = Matrix::filled(5, 1);
    let r = AntSystem::new(cfg, Matrix::filled(4, 1));
    assert!(matches!(r, Err(ConfigurationError::MismatchedDimensions)));
}

#[test]
fn zero_iterations_are_rejected_at_construction() {
    let cfg = uniform_cfg(4, 0, 2, IdentityUpdate);
    let r = AntSystem::new(cfg, Matrix::filled(4, 1));
    assert!(matches!(r, Err(ConfigurationError::NonPositiveIterations)));
}

#[test]
fn zero_ants_are_rejected_at_construction() {
    let cfg = uniform_cfg(4, 3, 0, IdentityUpdate);
    let r = AntSystem::new(cfg, Matrix::filled(4, 1));
    assert!(matches!(r, Err(ConfigurationError::NonPositiveAnts)));
}

#[test]
fn run_finds_a_tour_and_notifies_each_step() {
    let cfg = uniform_cfg(4, 3, 2, IdentityUpdate);
    let sys = AntSystem::new(cfg, Matrix::filled(4, 1)).ok().unwrap();
    let mut rng = seeded_rng(11);
    let best = sys.run(&mut rng).ok().unwrap();
    // Over all-ones weights every Hamiltonian cycle over four nodes costs
    // exactly 4.
    assert_eq!(best.cost, 4);
    let mut ones = 0;
    for i in 0..4 {
        for j in 0..4 {
            ones += best.matrix.get(i, j);
        }
    }
    assert_eq!(ones, 8);
}

#[test]
fn probe_sees_every_iteration_once() {
    let cfg = uniform_cfg(4, 3, 2, IdentityUpdate);
    let mut sys = AntSystem::new(cfg, Matrix::filled(4, 1)).ok().unwrap();
    let mut rng = seeded_rng(5);
    for _ in 0..3 {
        sys.cfg.probe.on_iteration_start(0);
        sys.iterate(&mut rng).ok().unwrap();
        sys.cfg.probe.on_iteration_end(0);
    }
    let probe = &sys.cfg.probe;
    assert_eq!(probe.iteration_starts, 3);
    assert_eq!(probe.iteration_ends, 3);
    assert_eq!(probe.current_bests, 3);
    assert_eq!(probe.pheromone_updates, 3);
    // The first real solution improves on the sentinel start.
    assert!(probe.new_bests >= 1);
    assert_eq!(probe.ends, 0);
}

#[test]
fn global_best_cost_never_increases_across_iterations() {
    let cfg = uniform_cfg(5, 1, 3, IdentityUpdate);
    let mut sys = AntSystem::new(cfg, Matrix::filled(5, 1)).ok().unwrap();
    let mut rng = seeded_rng(23);
    let mut previous = sys.best_sol.cost;
    for _ in 0..6 {
        sys.iterate(&mut rng).ok().unwrap();
        assert!(sys.best_sol.cost <= previous);
        previous = sys.best_sol.cost;
    }
}

/// Counts notifications through a shared handle that survives the engine.
#[derive(Default)]
struct SharedCounts {
    iteration_starts: usize,
    pheromone_updates: usize,
    ends: usize,
    current_bests: usize,
}

#[derive(Clone)]
struct SharedProbe(std::rc::Rc<std::cell::RefCell<SharedCounts>>);

impl SharedProbe {
    fn new() -> Self {
        SharedProbe(std::rc::Rc::new(std::cell::RefCell::new(SharedCounts::default())))
    }
}

impl Probe for SharedProbe {
    fn on_iteration_start(&mut self, _iteration: usize) {
        self.0.borrow_mut().iteration_starts += 1;
    }
    fn on_iteration_end(&mut self, _iteration: usize) {}
    fn on_current_best(&mut self, _solution: &Solution) {
        self.0.borrow_mut().current_bests += 1;
    }
    fn on_new_best(&mut self, _solution: &Solution) {}
    fn on_pheromone_update(&mut self, _old_pheromone: &Matrix, _new_pheromone: &Matrix) {
        self.0.borrow_mut().pheromone_updates += 1;
    }
    fn on_degeneracy(&mut self) {}
    fn on_end(&mut self) {
        self.0.borrow_mut().ends += 1;
    }
}

fn shared_cfg(
    n: usize,
    iteration: usize,
    probe: SharedProbe,
) -> AntSystemCfg<IdentityUpdate, SharedProbe> {
    AntSystemCfg {
        weights: Matrix::filled(n, 1),
        heuristic: Matrix::filled(n, 1),
        alpha: 1,
        beta: 1,
        evaporation_rate: 10,
        ants_num: 2,
        iteration,
        pheromone_update: IdentityUpdate,
        probe,
    }
}

#[test]
fn full_run_notifies_start_update_and_end_per_iteration() {
    let probe = SharedProbe::new();
    let handle = probe.clone();
    let cfg = shared_cfg(4, 3, probe);
    let sys = AntSystem::new(cfg, Matrix::filled(4, 1)).ok().unwrap();
    let mut rng = seeded_rng(13);
    sys.run(&mut rng).ok().unwrap();
    let counts = handle.0.borrow();
    assert_eq!(counts.iteration_starts, 3);
    assert_eq!(counts.current_bests, 3);
    assert_eq!(counts.pheromone_updates, 3);
    assert_eq!(counts.ends, 1);
}

#[test]
fn zero_iteration_run_only_fires_the_end_notification() {
    // The constructor refuses a zero iteration count, but the engine itself
    // is total in it: assembled directly, such a run constructs nothing,
    // grades nothing, touches no pheromone, and fires only the end
    // notification.
    let n = 4;
    let probe = SharedProbe::new();
    let handle = probe.clone();
    let cfg = shared_cfg(n, 0, probe);
    let sys = AntSystem {
        cfg,
        pheromone: Matrix::filled(n, 1),
        best_sol: Solution { matrix: Matrix::zeros(n), cost: DEGENERATE_COST },
    };
    let mut rng = seeded_rng(2);
    let best = sys.run(&mut rng).ok().unwrap();
    assert_eq!(best.cost, DEGENERATE_COST);
    assert!(best.matrix.is_all_zero());
    let counts = handle.0.borrow();
    assert_eq!(counts.iteration_starts, 0);
    assert_eq!(counts.current_bests, 0);
    assert_eq!(counts.pheromone_updates, 0);
    assert_eq!(counts.ends, 1);
}

#[test]
fn wrongly_shaped_strategy_result_halts_the_run() {
    let cfg = uniform_cfg(4, 3, 2, BrokenUpdate);
    let sys = AntSystem::new(cfg, Matrix::filled(4, 1)).ok().unwrap();
    let mut rng = seeded_rng(9);
    let r = sys.run(&mut rng);
    assert!(matches!(r, Err(StrategyShapeError)));
}

#[test]
fn all_zero_weights_degenerate_without_raising() {
    // A pheromone of zeros with alpha = 1 gives an all-zero weight row
    // toward every unvisited node: each ant aborts with the sentinel, the
    // probe hears a diagnostic, and the retained best keeps the worst price.
    let cfg = uniform_cfg(3, 1, 2, IdentityUpdate);
    let mut sys = AntSystem::new(cfg, Matrix::zeros(3)).ok().unwrap();
    let mut rng = seeded_rng(4);
    sys.iterate(&mut rng).ok().unwrap();
    assert_eq!(sys.cfg.probe.degeneracies, 2);
    assert_eq!(sys.cfg.probe.new_bests, 0);
    assert_eq!(sys.best_sol.cost, DEGENERATE_COST);
    assert_eq!(sys.cfg.probe.last_best_cost, Some(DEGENERATE_COST));
}

#[test]
fn update_best_replaces_only_on_strict_improvement() {
    let cfg = uniform_cfg(3, 1, 1, IdentityUpdate);
    let mut sys = AntSystem::new(cfg, Matrix::filled(3, 1)).ok().unwrap();
    let mut marked = Matrix::zeros(3);
    marked.set(0, 1, 1);
    sys.update_best(&Solution { matrix: marked, cost: 10 });
    assert_eq!(sys.best_sol.cost, 10);
    assert_eq!(sys.best_sol.matrix.get(0, 1), 1);

    // An equal-cost candidate does not replace the retained best.
    let mut other = Matrix::zeros(3);
    other.set(1, 2, 1);
    sys.update_best(&Solution { matrix: other, cost: 10 });
    assert_eq!(sys.best_sol.matrix.get(0, 1), 1);
    assert_eq!(sys.best_sol.matrix.get(1, 2), 0);

    // A strictly better one does.
    let mut better = Matrix::zeros(3);
    better.set(2, 0, 1);
    sys.update_best(&Solution { matrix: better, cost: 9 });
    assert_eq!(sys.best_sol.cost, 9);
    assert_eq!(sys.best_sol.matrix.get(2, 0), 1);
    assert_eq!(sys.cfg.probe.new_bests, 2);
}

#[test]
fn find_best_takes_the_first_minimum() {
    let cfg = uniform_cfg(2, 1, 1, IdentityUpdate);
    let sys = AntSystem::new(cfg, Matrix::filled(2, 1)).ok().unwrap();
    let sols = vec![
        Solution { matrix: Matrix::zeros(2), cost: 8 },
        Solution { matrix: Matrix::zeros(2), cost: 3 },
        Solution { matrix: Matrix::zeros(2), cost: 3 },
        Solution { matrix: Matrix::zeros(2), cost: 5 },
    ];
    assert_eq!(sys.find_best(&sols), 1);
}
