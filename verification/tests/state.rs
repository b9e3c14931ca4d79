//! Generation turnover, selection, and configuration reading, driven by a
//! floating-point backend.

use evoarm::arith::{GhostBytes, GhostInt, GhostWeights, WeightOps};
use evoarm::config::{ConfigError, ConfigKey, ExperimentConfig, Mode};
use evoarm::network::Activation;
use evoarm::state::ExperimentState;
use rand::rngs::StdRng;
use rand::SeedableRng;

/// The backend that interprets weight patterns as doubles.
struct RealOps;

impl WeightOps for RealOps {
    fn act(&self, a: Activation, x: u64) -> u64 {
        let v = f64::from_bits(x);
        let r = match a {
            Activation::Linear => v,
            Activation::ReLU => {
                if v < 0.0 {
                    0.0
                } else {
                    v
                }
            },
            Activation::Tanh => v.tanh(),
        };
        r.to_bits()
    }

    fn matvec(&self, w: &Vec<u64>, x: &Vec<u64>, nrows: usize, ncols: usize) -> Vec<u64> {
        let m = nalgebra::DMatrix::from_iterator(nrows, ncols, w.iter().map(|b| f64::from_bits(*b)));
        let v = nalgebra::DVector::from_iterator(nrows, x.iter().map(|b| f64::from_bits(*b)));
        let y = m.tr_mul(&v);
        y.iter().map(|f| f.to_bits()).collect()
    }

    fn fmt(&self, w: u64) -> Vec<u8> {
        f64::from_bits(w).to_string().into_bytes()
    }

    fn parse(&self, t: &[u8]) -> Option<u64> {
        std::str::from_utf8(t).ok()?.parse::<f64>().ok().map(|v| v.to_bits())
    }

    fn le(&self, a: u64, b: u64) -> bool {
        f64::from_bits(a) <= f64::from_bits(b)
    }

    fn to_fraction(&self, percent: u64) -> u64 {
        (f64::from_bits(percent) / 100.0).to_bits()
    }

    fn mut_count(&self, nweights: usize, fraction: u64) -> usize {
        (nweights as f64 * f64::from_bits(fraction)).round() as usize
    }

    fn uniform(&self, rng: &mut StdRng, low: u64, high: u64) -> u64 {
        let lo = f64::from_bits(low);
        let hi = f64::from_bits(high);
        if lo < hi + 1e-9 {
            rand::Rng::gen_range(rng, lo, hi + 1e-9).to_bits()
        } else {
            low
        }
    }

    fn gauss(&self, rng: &mut StdRng, mean: u64, stdev: u64) -> u64 {
        let m = f64::from_bits(mean);
        let s = f64::from_bits(stdev);
        if s >= 0.0 {
            rand::Rng::sample(rng, rand::distributions::Normal::new(m, s)).to_bits()
        } else {
            mean
        }
    }

    // The remaining items of the trait are specification-only: this build
    // erases them and nothing ever calls them.
    fn sact(&self, _a: Activation, _x: u64) -> u64 {
        unreachable!()
    }

    fn smatvec(
        &self,
        _w: GhostWeights,
        _x: GhostWeights,
        _nrows: GhostInt,
        _ncols: GhostInt,
    ) -> GhostWeights {
        unreachable!()
    }

    fn sfmt(&self, _w: u64) -> GhostBytes {
        unreachable!()
    }

    fn sparse(&self, _t: GhostBytes) -> Option<u64> {
        unreachable!()
    }

    fn sle(&self, _a: u64, _b: u64) -> bool {
        unreachable!()
    }

    fn sfraction(&self, _p: u64) -> u64 {
        unreachable!()
    }

    fn smut_count(&self, _n: usize, _f: u64) -> usize {
        unreachable!()
    }

    fn lemma_matvec_len(&self, _w: GhostWeights, _x: GhostWeights, _nrows: GhostInt, _ncols: GhostInt) {
    }

    fn lemma_fmt_token(&self, _w: u64) {
    }

    fn lemma_zero_fraction(&self, _n: usize) {
    }
}


/// An order-preserving key for a fitness score; an undefined score sinks
/// below every defined one.
fn fitness_key(f: f64) -> u64 {
    if f.is_nan() {
        return 0;
    }
    let b = f.to_bits();
    if b >> 63 == 1 {
        !b
    } else {
        b | 0x8000_0000_0000_0000
    }
}

fn approx_equal(a: f64, b: f64, decimal_places: u8) -> bool {
    let factor = 10.0f64.powi(decimal_places as i32);
    let a = (a * factor).trunc();
    let b = (b * factor).trunc();
    a == b
}

fn create_experiment_config(gensize: usize, nkeep: usize) -> ExperimentConfig {
    ExperimentConfig {
        nsteps_per_episode: 30,
        nepisodes: 2,
        mode: Mode::Genetic,
        comstr: "simulation".to_string(),
        generation_size: gensize,
        low: (-1.0f64).to_bits(),
        high: 1.0f64.to_bits(),
        nkeep,
        mutation_fraction: (2.0f64 / 100.0).to_bits(),
        mutation_stdev: 0.25f64.to_bits(),
        target_x: 0.0f64.to_bits(),
        target_y: 0.0f64.to_bits(),
        target_z: 0.0f64.to_bits(),
        urdfpath: "".to_string(),
        seed: 1234,
        weights: "".to_string(),
    }
}

fn build_input(input_length: usize) -> Vec<u64> {
    (0..input_length).map(|i| (i as f64).to_bits()).collect()
}

fn summed_output(net: &evoarm::network::MultilayerPerceptron, input: &Vec<u64>) -> f64 {
    net.forward(input, &RealOps).iter().map(|b| f64::from_bits(*b)).sum()
}

#[test]
fn test_next_generation_is_based_on_best_networks() {
    let gensize = 100;
    let nkeep = 1;
    let mut config = create_experiment_config(gensize, nkeep);
    config.mutation_fraction = 0.0f64.to_bits();
    let mut state = ExperimentState::new();
    let mut rng: StdRng = SeedableRng::seed_from_u64(23);

    // Make a generation of networks.
    state.create_next_generation(&config, &mut rng, &RealOps);

    // Assign a fitness to each network equal to its forward pass on the same
    // input, summed.
    let input = build_input(state.networks[0].input_length());
    let mut fitnesses = Vec::new();
    for net in state.networks.iter() {
        fitnesses.push(summed_output(net, &input));
    }
    for fitness in &fitnesses {
        state.add_fitness(fitness_key(*fitness));
    }
    let maxfitness = fitnesses.iter().cloned().fold(-1.0 / 0.0, f64::max);

    // Derive a second generation with no mutation and one survivor.
    state.create_next_generation(&config, &mut rng, &RealOps);

    // The output of each network equals the best of the last generation.
    let ndecimals = 3;
    for net in state.networks.iter() {
        let output = summed_output(net, &input);
        assert!(approx_equal(output, maxfitness, ndecimals));
    }
}

#[test]
fn population_size_is_kept() {
    let config = create_experiment_config(7, 3);
    let mut state = ExperimentState::new();
    let mut rng: StdRng = SeedableRng::seed_from_u64(77);
    state.create_next_generation(&config, &mut rng, &RealOps);
    assert_eq!(state.networks.len(), 7);
    assert_eq!(state.generation, 1);
    let keys: Vec<u64> = state
        .networks
        .iter()
        .map(|net| fitness_key(summed_output(net, &build_input(net.input_length()))))
        .collect();
    for k in keys {
        state.add_fitness(k);
    }
    state.create_next_generation(&config, &mut rng, &RealOps);
    assert_eq!(state.networks.len(), 7);
    assert_eq!(state.generation, 2);
    assert_eq!(state.evaluations.len(), 0);
}

#[test]
fn best_network_carries_the_highest_score() {
    let config = create_experiment_config(5, 1);
    let mut state = ExperimentState::new();
    let mut rng: StdRng = SeedableRng::seed_from_u64(99);
    state.create_next_generation(&config, &mut rng, &RealOps);
    let input = build_input(state.networks[0].input_length());
    let mut best = f64::NEG_INFINITY;
    let mut best_idx = 0;
    let scores: Vec<f64> = state.networks.iter().map(|net| summed_output(net, &input)).collect();
    for (i, f) in scores.iter().enumerate() {
        if *f > best {
            best = *f;
            best_idx = i;
        }
        state.add_fitness(fitness_key(*f));
    }
    let bn = state.best_network().unwrap();
    assert_eq!(
        summed_output(&bn, &input).to_bits(),
        summed_output(&state.networks[best_idx], &input).to_bits()
    );
}

#[test]
fn empty_generation_stays_empty() {
    let mut config = create_experiment_config(0, 0);
    config.mutation_fraction = 0.0f64.to_bits();
    let mut state = ExperimentState::new();
    let mut rng: StdRng = SeedableRng::seed_from_u64(5);
    state.create_next_generation(&config, &mut rng, &RealOps);
    assert_eq!(state.networks.len(), 0);
    state.create_next_generation(&config, &mut rng, &RealOps);
    assert_eq!(state.networks.len(), 0);
    assert_eq!(state.generation, 2);
}

fn pair(k: &str, v: &str) -> (String, String) {
    (k.to_string(), v.to_string())
}

fn genetic_settings() -> Vec<(String, String)> {
    vec![
        pair("mode", "genetic"),
        pair("seed", "1234"),
        pair("nsteps_per_episode", "30"),
        pair("nepisodes", "2"),
        pair("com", "simulation"),
        pair("arm_urdf", "arm.urdf"),
        pair("generation_size", "100"),
        pair("randomized_weights_low", "-1.0"),
        pair("randomized_weights_high", "1.0"),
        pair("nkeep_between_generations", "1"),
        pair("mutation_stdev", "0.25"),
        pair("percent_mutate", "2.0"),
        pair("target_x", "0.1"),
        pair("target_y", "0.0"),
        pair("target_z", "0.2"),
    ]
}

#[test]
fn settings_read_as_a_genetic_configuration() {
    let cfg = ExperimentConfig::from_settings(&genetic_settings(), &RealOps).unwrap();
    assert_eq!(cfg.mode, Mode::Genetic);
    assert_eq!(cfg.seed, 1234);
    assert_eq!(cfg.nsteps_per_episode, 30);
    assert_eq!(cfg.nepisodes, 2);
    assert_eq!(cfg.comstr, "simulation");
    assert_eq!(cfg.urdfpath, "arm.urdf");
    assert_eq!(cfg.generation_size, 100);
    assert_eq!(cfg.nkeep, 1);
    assert_eq!(f64::from_bits(cfg.low), -1.0);
    assert_eq!(f64::from_bits(cfg.high), 1.0);
    assert_eq!(f64::from_bits(cfg.mutation_stdev), 0.25);
    assert_eq!(f64::from_bits(cfg.mutation_fraction), 0.02);
    assert_eq!(f64::from_bits(cfg.target_x), 0.1);
    assert_eq!(f64::from_bits(cfg.target_z), 0.2);
    assert_eq!(cfg.weights, "");
}

#[test]
fn settings_missing_a_key_are_refused() {
    let mut s = genetic_settings();
    s.retain(|p| p.0 != "generation_size");
    let e = ExperimentConfig::from_settings(&s, &RealOps).unwrap_err();
    assert!(matches!(e, ConfigError::Missing(ConfigKey::GenerationSize)));
}

#[test]
fn settings_with_a_bad_number_are_refused() {
    let mut s = genetic_settings();
    for p in s.iter_mut() {
        if p.0 == "mutation_stdev" {
            p.1 = "often".to_string();
        }
    }
    let e = ExperimentConfig::from_settings(&s, &RealOps).unwrap_err();
    assert!(matches!(e, ConfigError::Invalid(ConfigKey::MutationStdev)));
}

#[test]
fn settings_with_a_percentage_out_of_range_are_refused() {
    let mut s = genetic_settings();
    for p in s.iter_mut() {
        if p.0 == "percent_mutate" {
            p.1 = "150".to_string();
        }
    }
    let e = ExperimentConfig::from_settings(&s, &RealOps).unwrap_err();
    assert!(matches!(e, ConfigError::PercentOutOfRange));
}

#[test]
fn settings_with_a_zero_keep_count_are_refused() {
    let mut s = genetic_settings();
    for p in s.iter_mut() {
        if p.0 == "nkeep_between_generations" {
            p.1 = "0".to_string();
        }
    }
    let e = ExperimentConfig::from_settings(&s, &RealOps).unwrap_err();
    assert!(matches!(e, ConfigError::BadKeepCount));
}

#[test]
fn settings_may_draw_a_random_seed() {
    let mut s = genetic_settings();
    for p in s.iter_mut() {
        if p.0 == "seed" {
            p.1 = "NONE".to_string();
        }
    }
    let cfg = ExperimentConfig::from_settings(&s, &RealOps).unwrap();
    assert_eq!(cfg.mode, Mode::Genetic);
}

#[test]
fn random_mode_skips_the_genetic_keys() {
    let s = vec![
        pair("mode", "random"),
        pair("seed", "7"),
        pair("nsteps_per_episode", "30"),
        pair("nepisodes", "4"),
        pair("com", "simulation"),
        pair("arm_urdf", "arm.urdf"),
    ];
    let cfg = ExperimentConfig::from_settings(&s, &RealOps).unwrap();
    assert_eq!(cfg.mode, Mode::Random);
    assert_eq!(cfg.generation_size, 0);
    assert_eq!(cfg.nkeep, 0);
}

/// The whole scenario: a hundred networks, one survivor, no mutation; after
/// the turnover every network reproduces the best summed output.
#[test]
fn generation_of_copies_reproduces_the_best_output() {
    let mut config = create_experiment_config(100, 1);
    config.mutation_fraction = 0.0f64.to_bits();
    let mut state = ExperimentState::new();
    let mut rng: StdRng = SeedableRng::seed_from_u64(123);
    state.create_next_generation(&config, &mut rng, &RealOps);
    let input = vec![0.0f64.to_bits(), 1.0f64.to_bits(), 2.0f64.to_bits()];
    let mut best = f64::NEG_INFINITY;
    let scores: Vec<f64> = state.networks.iter().map(|net| summed_output(net, &input)).collect();
    for f in scores {
        if f > best {
            best = f;
        }
        state.add_fitness(fitness_key(f));
    }
    state.create_next_generation(&config, &mut rng, &RealOps);
    assert_eq!(state.networks.len(), 100);
    for net in state.networks.iter() {
        assert!(approx_equal(summed_output(net, &input), best, 3));
    }
}

#[test]
fn recorder_files_logs_by_episode() {
    let mut r = evoarm::results::ExperimentResults::new();
    r.append(b"one");
    r.set_episode(1);
    r.append(b"two");
    r.finish();
    assert_eq!(r.log_of(0).unwrap().as_slice(), b"one");
    assert_eq!(r.log_of(1).unwrap().as_slice(), b"two");
    assert!(r.log_of(2).is_none());
    // Returning to a filed episode picks its log back up.
    r.set_episode(0);
    r.append(b" more");
    r.finish();
    assert_eq!(r.log_of(0).unwrap().as_slice(), b"one more");
}
