//! The experiment configuration.
//!
//! Settings arrive as key-value text pairs; [`ExperimentConfig::from_settings`]
//! reads them as the experiment's configuration.  Numeric values that are
//! floating-point in nature (weight bounds, the mutation percentage and
//! deviation, the target point) are read by the backend and carried as 64-bit
//! patterns; counts are plain integers.

use vstd::prelude::*;

use crate::arith::{WeightOps, BITS_HUNDRED, BITS_ONE, BITS_ZERO};
use crate::rng::fresh_seed;
use crate::text::{parse_u64, spec_parse_u64};
use crate::commands::spec_lower_eq;
use vstd::string::StringSliceAdditionalSpecFns;
use vstd::utf8::encode_utf8;

verus! {

/// The mode an experiment runs in.
#[derive(Clone, Copy, PartialEq, Eq, Structural, Debug)]
pub enum Mode {
    /// Joint deltas are drawn at random each step.
    Random,
    /// A genetic algorithm trains the controller network.
    Genetic,
    /// An already-trained network drives the arm.
    Inference,
}

/// An experiment configuration.
#[derive(Debug)]
pub struct ExperimentConfig {
    /// Number of steps in a single episode.
    pub nsteps_per_episode: u64,
    /// Number of episodes; with the genetic mode, also the generation count.
    pub nepisodes: u64,
    /// The mode of the experiment.
    pub mode: Mode,
    /// The communication port to find the robot on.
    pub comstr: String,
    /// The number of networks in a generation.
    pub generation_size: usize,
    /// A fresh network draws its weights from `[low, high]`.
    pub low: u64,
    /// A fresh network draws its weights from `[low, high]`.
    pub high: u64,
    /// How many networks seed the next generation.
    pub nkeep: usize,
    /// The fraction of a network's weights to perturb per mutation, already
    /// converted from the configured percentage.
    pub mutation_fraction: u64,
    /// The standard deviation of the Gaussian a mutated weight is drawn from.
    pub mutation_stdev: u64,
    /// The target point of the gripper.
    pub target_x: u64,
    /// The target point of the gripper.
    pub target_y: u64,
    /// The target point of the gripper.
    pub target_z: u64,
    /// Path of the arm's kinematic description.
    pub urdfpath: String,
    /// The seed of the random number generator.
    pub seed: u64,
    /// Path of the weights file, for the inference mode.
    pub weights: String,
}

/// The settings keys the configuration reads.
#[derive(Clone, Copy, PartialEq, Eq, Structural, Debug)]
pub enum ConfigKey {
    Mode,
    Seed,
    NstepsPerEpisode,
    Nepisodes,
    Com,
    ArmUrdf,
    GenerationSize,
    RandomizedWeightsLow,
    RandomizedWeightsHigh,
    NkeepBetweenGenerations,
    MutationStdev,
    PercentMutate,
    Weights,
    TargetX,
    TargetY,
    TargetZ,
}

/// Why a settings list does not make a configuration.
#[derive(Clone, Copy, PartialEq, Eq, Structural, Debug)]
pub enum ConfigError {
    /// The key is absent.
    Missing(ConfigKey),
    /// The key's value would not read as what the key needs.
    Invalid(ConfigKey),
    /// The mutation percentage lies outside zero to one hundred.
    PercentOutOfRange,
    /// With a non-empty generation, the keep count must be at least one and
    /// at most the generation size.
    BadKeepCount,
}

/// The text a settings key is written as.
pub open spec fn spec_key_bytes(k: ConfigKey) -> Seq<u8> {
    match k {
        ConfigKey::Mode => encode_utf8("mode"@),
        ConfigKey::Seed => encode_utf8("seed"@),
        ConfigKey::NstepsPerEpisode => encode_utf8("nsteps_per_episode"@),
        ConfigKey::Nepisodes => encode_utf8("nepisodes"@),
        ConfigKey::Com => encode_utf8("com"@),
        ConfigKey::ArmUrdf => encode_utf8("arm_urdf"@),
        ConfigKey::GenerationSize => encode_utf8("generation_size"@),
        ConfigKey::RandomizedWeightsLow => encode_utf8("randomized_weights_low"@),
        ConfigKey::RandomizedWeightsHigh => encode_utf8("randomized_weights_high"@),
        ConfigKey::NkeepBetweenGenerations => encode_utf8("nkeep_between_generations"@),
        ConfigKey::MutationStdev => encode_utf8("mutation_stdev"@),
        ConfigKey::PercentMutate => encode_utf8("percent_mutate"@),
        ConfigKey::Weights => encode_utf8("weights"@),
        ConfigKey::TargetX => encode_utf8("target_x"@),
        ConfigKey::TargetY => encode_utf8("target_y"@),
        ConfigKey::TargetZ => encode_utf8("target_z"@),
    }
}

fn key_str(k: ConfigKey) -> (r: &'static str)
    ensures
        r.spec_bytes() == spec_key_bytes(k),
{
    match k {
        ConfigKey::Mode => "mode",
        ConfigKey::Seed => "seed",
        ConfigKey::NstepsPerEpisode => "nsteps_per_episode",
        ConfigKey::Nepisodes => "nepisodes",
        ConfigKey::Com => "com",
        ConfigKey::ArmUrdf => "arm_urdf",
        ConfigKey::GenerationSize => "generation_size",
        ConfigKey::RandomizedWeightsLow => "randomized_weights_low",
        ConfigKey::RandomizedWeightsHigh => "randomized_weights_high",
        ConfigKey::NkeepBetweenGenerations => "nkeep_between_generations",
        ConfigKey::MutationStdev => "mutation_stdev",
        ConfigKey::PercentMutate => "percent_mutate",
        ConfigKey::Weights => "weights",
        ConfigKey::TargetX => "target_x",
        ConfigKey::TargetY => "target_y",
        ConfigKey::TargetZ => "target_z",
    }
}

/// The settings pairs, as bytes.
pub open spec fn spec_pairs(settings: Seq<(String, String)>) -> Seq<(Seq<u8>, Seq<u8>)> {
    settings.map_values(|p: (String, String)| (encode_utf8(p.0@), encode_utf8(p.1@)))
}

/// The value of the first pair carrying the key, if any.
pub open spec fn spec_lookup(pairs: Seq<(Seq<u8>, Seq<u8>)>, key: Seq<u8>) -> Option<Seq<u8>>
    decreases pairs.len(),
{
    if pairs.len() == 0 {
        None
    } else if pairs[0].0 == key {
        Some(pairs[0].1)
    } else {
        spec_lookup(pairs.drop_first(), key)
    }
}

fn eq_bytes(a: &[u8], b: &[u8]) -> (r: bool)
    ensures
        r == (a@ == b@),
{
    if a.len() != b.len() {
        proof {
            assert(a@.len() != b@.len());
        }
        return false;
    }
    let mut i: usize = 0;
    while i < a.len()
        invariant
            0 <= i <= a@.len(),
            a@.len() == b@.len(),
            forall|k: int| 0 <= k < i ==> a@[k] == b@[k],
        decreases a@.len() - i,
    {
        if a[i] != b[i] {
            return false;
        }
        i = i + 1;
    }
    proof {
        assert(a@ =~= b@);
    }
    true
}

/// Finds the first setting of the given key.
fn lookup<'a>(settings: &'a Vec<(String, String)>, k: ConfigKey) -> (r: Option<&'a String>)
    ensures
        match r {
            Option::Some(v) => spec_lookup(spec_pairs(settings@), spec_key_bytes(k)) == Some(
                encode_utf8(v@),
            ),
            Option::None => spec_lookup(spec_pairs(settings@), spec_key_bytes(k)) is None,
        },
{
    let key = key_str(k);
    let ghost pairs = spec_pairs(settings@);
    let mut i: usize = 0;
    proof {
        assert(pairs.skip(0) =~= pairs);
    }
    while i < settings.len()
        invariant
            0 <= i <= settings@.len(),
            pairs == spec_pairs(settings@),
            pairs.len() == settings@.len(),
            key.spec_bytes() == spec_key_bytes(k),
            spec_lookup(pairs, spec_key_bytes(k)) == spec_lookup(
                pairs.skip(i as int),
                spec_key_bytes(k),
            ),
        decreases settings@.len() - i,
    {
        proof {
            assert(pairs[i as int] == (encode_utf8(settings@[i as int].0@), encode_utf8(
                settings@[i as int].1@,
            )));
            assert(pairs.skip(i as int)[0] == pairs[i as int]);
            assert(pairs.skip(i as int).drop_first() =~= pairs.skip(i as int + 1));
        }
        if eq_bytes(settings[i].0.as_str().as_bytes(), key.as_bytes()) {
            return Some(&settings[i].1);
        }
        i = i + 1;
    }
    proof {
        assert(pairs.skip(i as int) =~= Seq::<(Seq<u8>, Seq<u8>)>::empty());
    }
    None
}

/// What the settings say, before any randomness: every field of the
/// configuration, with the seed left open when the settings ask for a random
/// one.
pub struct ConfigView {
    pub nsteps_per_episode: u64,
    pub nepisodes: u64,
    pub mode: Mode,
    pub comstr: Seq<u8>,
    pub generation_size: usize,
    pub low: u64,
    pub high: u64,
    pub nkeep: usize,
    pub mutation_fraction: u64,
    pub mutation_stdev: u64,
    pub target_x: u64,
    pub target_y: u64,
    pub target_z: u64,
    pub urdfpath: Seq<u8>,
    pub seed: Option<u64>,
    pub weights: Seq<u8>,
}

/// The configuration a settings list denotes under a backend, or the first
/// problem found, in the reading order of [`ExperimentConfig::from_settings`].
pub open spec fn spec_from_settings<W: WeightOps>(pairs: Seq<(Seq<u8>, Seq<u8>)>, ops: W) -> Result<
    ConfigView,
    ConfigError,
> {
    let modev = spec_lookup(pairs, spec_key_bytes(ConfigKey::Mode));
    if modev is None {
        Err(ConfigError::Missing(ConfigKey::Mode))
    } else if !(modev->Some_0 == encode_utf8("random"@) || modev->Some_0 == encode_utf8(
        "genetic"@,
    ) || modev->Some_0 == encode_utf8("inference"@)) {
        Err(ConfigError::Invalid(ConfigKey::Mode))
    } else {
        let mode = if modev->Some_0 == encode_utf8("random"@) {
            Mode::Random
        } else if modev->Some_0 == encode_utf8("genetic"@) {
            Mode::Genetic
        } else {
            Mode::Inference
        };
        let seedv = spec_lookup(pairs, spec_key_bytes(ConfigKey::Seed));
        if seedv is None {
            Err(ConfigError::Missing(ConfigKey::Seed))
        } else if !(spec_lower_eq(seedv->Some_0, encode_utf8("none"@)) || spec_parse_u64(
            seedv->Some_0,
        ) is Some) {
            Err(ConfigError::Invalid(ConfigKey::Seed))
        } else {
            let seed = if spec_lower_eq(seedv->Some_0, encode_utf8("none"@)) {
                Option::<u64>::None
            } else {
                spec_parse_u64(seedv->Some_0)
            };
            spec_from_settings_rest(pairs, ops, mode, seed)
        }
    }
}

/// The tail of [`spec_from_settings`], past the mode and the seed.
pub open spec fn spec_from_settings_rest<W: WeightOps>(
    pairs: Seq<(Seq<u8>, Seq<u8>)>,
    ops: W,
    mode: Mode,
    seed: Option<u64>,
) -> Result<ConfigView, ConfigError> {
    let genetic = mode == Mode::Genetic;
    match spec_u64_field(pairs, ConfigKey::NstepsPerEpisode, true) {
        Result::Err(e) => Err(e),
        Result::Ok(nsteps) => match spec_u64_field(pairs, ConfigKey::Nepisodes, mode != Mode::Inference) {
            Result::Err(e) => Err(e),
            Result::Ok(neps) => match spec_text_field(pairs, ConfigKey::Com) {
                Result::Err(e) => Err(e),
                Result::Ok(comstr) => match spec_text_field(pairs, ConfigKey::ArmUrdf) {
                    Result::Err(e) => Err(e),
                    Result::Ok(urdfpath) => match spec_usize_field(
                        pairs,
                        ConfigKey::GenerationSize,
                        genetic,
                    ) {
                        Result::Err(e) => Err(e),
                        Result::Ok(gensize) => match spec_weight_field(
                            pairs,
                            ops,
                            ConfigKey::RandomizedWeightsLow,
                            genetic,
                        ) {
                            Result::Err(e) => Err(e),
                            Result::Ok(low) => match spec_weight_field(
                                pairs,
                                ops,
                                ConfigKey::RandomizedWeightsHigh,
                                genetic,
                            ) {
                                Result::Err(e) => Err(e),
                                Result::Ok(high) => match spec_usize_field(
                                    pairs,
                                    ConfigKey::NkeepBetweenGenerations,
                                    genetic,
                                ) {
                                    Result::Err(e) => Err(e),
                                    Result::Ok(nkeep) => match spec_weight_field(
                                        pairs,
                                        ops,
                                        ConfigKey::MutationStdev,
                                        genetic,
                                    ) {
                                        Result::Err(e) => Err(e),
                                        Result::Ok(stdev) => match spec_percent_field(
                                            pairs,
                                            ops,
                                            genetic,
                                        ) {
                                            Result::Err(e) => Err(e),
                                            Result::Ok(fraction) => match spec_weights_path_field(
                                                pairs,
                                                mode,
                                            ) {
                                                Result::Err(e) => Err(e),
                                                Result::Ok(weights) => match spec_weight_field(
                                                    pairs,
                                                    ops,
                                                    ConfigKey::TargetX,
                                                    genetic,
                                                ) {
                                                    Result::Err(e) => Err(e),
                                                    Result::Ok(tx) => match spec_weight_field(
                                                        pairs,
                                                        ops,
                                                        ConfigKey::TargetY,
                                                        genetic,
                                                    ) {
                                                        Result::Err(e) => Err(e),
                                                        Result::Ok(ty) => match spec_weight_field(
                                                            pairs,
                                                            ops,
                                                            ConfigKey::TargetZ,
                                                            genetic,
                                                        ) {
                                                            Result::Err(e) => Err(e),
                                                            Result::Ok(tz) => if genetic && gensize
                                                                > 0 && !(1 <= nkeep <= gensize) {
                                                                Err(ConfigError::BadKeepCount)
                                                            } else {
                                                                Ok(
                                                                    ConfigView {
                                                                        nsteps_per_episode: nsteps,
                                                                        nepisodes: (if mode
                                                                            == Mode::Inference {
                                                                            1u64
                                                                        } else {
                                                                            neps
                                                                        }),
                                                                        mode,
                                                                        comstr,
                                                                        generation_size: gensize,
                                                                        low,
                                                                        high,
                                                                        nkeep,
                                                                        mutation_fraction: fraction,
                                                                        mutation_stdev: stdev,
                                                                        target_x: tx,
                                                                        target_y: ty,
                                                                        target_z: tz,
                                                                        urdfpath,
                                                                        seed,
                                                                        weights,
                                                                    },
                                                                )
                                                            },
                                                        },
                                                    },
                                                },
                                            },
                                        },
                                    },
                                },
                            },
                        },
                    },
                },
            },
        },
    }
}

/// A counted field: needed only when `wanted`; otherwise zero.
pub open spec fn spec_u64_field(pairs: Seq<(Seq<u8>, Seq<u8>)>, k: ConfigKey, wanted: bool) -> Result<
    u64,
    ConfigError,
> {
    if !wanted {
        Ok(0u64)
    } else {
        match spec_lookup(pairs, spec_key_bytes(k)) {
            Option::None => Err(ConfigError::Missing(k)),
            Option::Some(v) => match spec_parse_u64(v) {
                Option::None => Err(ConfigError::Invalid(k)),
                Option::Some(n) => Ok(n),
            },
        }
    }
}

/// A counted field that must also fit the machine's word.
pub open spec fn spec_usize_field(pairs: Seq<(Seq<u8>, Seq<u8>)>, k: ConfigKey, wanted: bool) -> Result<
    usize,
    ConfigError,
> {
    match spec_u64_field(pairs, k, wanted) {
        Result::Err(e) => Err(e),
        Result::Ok(n) => if n <= usize::MAX {
            Ok(n as usize)
        } else {
            Err(ConfigError::Invalid(k))
        },
    }
}

/// A weight-valued field: needed only when `wanted`; otherwise the zero value.
pub open spec fn spec_weight_field<W: WeightOps>(
    pairs: Seq<(Seq<u8>, Seq<u8>)>,
    ops: W,
    k: ConfigKey,
    wanted: bool,
) -> Result<u64, ConfigError> {
    if !wanted {
        Ok(BITS_ZERO)
    } else {
        match spec_lookup(pairs, spec_key_bytes(k)) {
            Option::None => Err(ConfigError::Missing(k)),
            Option::Some(v) => match ops.sparse(v) {
                Option::None => Err(ConfigError::Invalid(k)),
                Option::Some(w) => Ok(w),
            },
        }
    }
}

/// A text field, always needed.
pub open spec fn spec_text_field(pairs: Seq<(Seq<u8>, Seq<u8>)>, k: ConfigKey) -> Result<
    Seq<u8>,
    ConfigError,
> {
    match spec_lookup(pairs, spec_key_bytes(k)) {
        Option::None => Err(ConfigError::Missing(k)),
        Option::Some(v) => Ok(v),
    }
}

/// The weights path: needed only in the inference mode; otherwise empty.
pub open spec fn spec_weights_path_field(pairs: Seq<(Seq<u8>, Seq<u8>)>, mode: Mode) -> Result<
    Seq<u8>,
    ConfigError,
> {
    if mode == Mode::Inference {
        spec_text_field(pairs, ConfigKey::Weights)
    } else {
        Ok(Seq::empty())
    }
}

/// The mutation percentage: read, held to `[0, 100]`, and turned into a
/// fraction; the zero value outside the genetic mode.
pub open spec fn spec_percent_field<W: WeightOps>(
    pairs: Seq<(Seq<u8>, Seq<u8>)>,
    ops: W,
    wanted: bool,
) -> Result<u64, ConfigError> {
    if !wanted {
        Ok(BITS_ZERO)
    } else {
        match spec_lookup(pairs, spec_key_bytes(ConfigKey::PercentMutate)) {
            Option::None => Err(ConfigError::Missing(ConfigKey::PercentMutate)),
            Option::Some(v) => match ops.sparse(v) {
                Option::None => Err(ConfigError::Invalid(ConfigKey::PercentMutate)),
                Option::Some(p) => if ops.sle(BITS_ZERO, p) && ops.sle(p, BITS_HUNDRED) && ops.sle(
                    ops.sfraction(p),
                    crate::arith::BITS_ONE,
                ) {
                    Ok(ops.sfraction(p))
                } else {
                    Err(ConfigError::PercentOutOfRange)
                },
            },
        }
    }
}

/// A configuration matches its view when every field reads the same; a view
/// with an open seed lets any seed stand.
pub open spec fn spec_matches_view(c: ExperimentConfig, v: ConfigView) -> bool {
    &&& c.nsteps_per_episode == v.nsteps_per_episode
    &&& c.nepisodes == v.nepisodes
    &&& c.mode == v.mode
    &&& encode_utf8(c.comstr@) == v.comstr
    &&& c.generation_size == v.generation_size
    &&& c.low == v.low
    &&& c.high == v.high
    &&& c.nkeep == v.nkeep
    &&& c.mutation_fraction == v.mutation_fraction
    &&& c.mutation_stdev == v.mutation_stdev
    &&& c.target_x == v.target_x
    &&& c.target_y == v.target_y
    &&& c.target_z == v.target_z
    &&& encode_utf8(c.urdfpath@) == v.urdfpath
    &&& (v.seed matches Option::Some(s) ==> c.seed == s)
    &&& encode_utf8(c.weights@) == v.weights
}

impl ExperimentConfig {
    /// Reads the settings pairs as a configuration.
    ///
    /// The reading follows [`spec_from_settings`] exactly: the mode, then the
    /// seed (where `none`, in any case, draws a fresh one), then each field
    /// the mode needs, with the first missing or unreadable key reported.
    /// The mutation percentage must lie in `[0, 100]` and is converted to a
    /// fraction; with the genetic mode and a non-empty generation the keep
    /// count must be at least one and at most the generation size.
    pub fn from_settings<W: WeightOps>(settings: &Vec<(String, String)>, ops: &W) -> (r: Result<
        ExperimentConfig,
        ConfigError,
    >)
        ensures
            match r {
                Result::Ok(c) => (spec_from_settings(spec_pairs(settings@), *ops) matches
                    Result::Ok(v) && spec_matches_view(c, v)) && (c.mode == Mode::Genetic
                    ==> ops.sle(c.mutation_fraction, BITS_ONE)),
                Result::Err(e) => spec_from_settings(spec_pairs(settings@), *ops) == Result::<
                    ConfigView,
                    ConfigError,
                >::Err(e),
            },
    {
        let ghost pairs = spec_pairs(settings@);
        // The mode.
        let modev = match lookup(settings, ConfigKey::Mode) {
            Option::Some(v) => v,
            Option::None => {
                return Err(ConfigError::Missing(ConfigKey::Mode));
            },
        };
        let mode = if eq_bytes(modev.as_str().as_bytes(), "random".as_bytes()) {
            Mode::Random
        } else if eq_bytes(modev.as_str().as_bytes(), "genetic".as_bytes()) {
            Mode::Genetic
        } else if eq_bytes(modev.as_str().as_bytes(), "inference".as_bytes()) {
            Mode::Inference
        } else {
            return Err(ConfigError::Invalid(ConfigKey::Mode));
        };
        let genetic = match mode {
            Mode::Genetic => true,
            _ => false,
        };
        // The seed: `none`, in any case, asks for a fresh one.
        let seedv = match lookup(settings, ConfigKey::Seed) {
            Option::Some(v) => v,
            Option::None => {
                return Err(ConfigError::Missing(ConfigKey::Seed));
            },
        };
        let seed = if lower_eq_bytes(seedv.as_str().as_bytes(), "none".as_bytes()) {
            fresh_seed()
        } else {
            match parse_u64(seedv.as_str().as_bytes()) {
                Option::Some(s) => s,
                Option::None => {
                    return Err(ConfigError::Invalid(ConfigKey::Seed));
                },
            }
        };
        // The counted fields.
        let nsteps_per_episode = match u64_field(settings, ConfigKey::NstepsPerEpisode, true) {
            Result::Ok(n) => n,
            Result::Err(e) => {
                return Err(e);
            },
        };
        let nepisodes = match u64_field(
            settings,
            ConfigKey::Nepisodes,
            match mode {
                Mode::Inference => false,
                _ => true,
            },
        ) {
            Result::Ok(n) => n,
            Result::Err(e) => {
                return Err(e);
            },
        };
        let comstr = match lookup(settings, ConfigKey::Com) {
            Option::Some(v) => clone_string(v),
            Option::None => {
                return Err(ConfigError::Missing(ConfigKey::Com));
            },
        };
        let urdfpath = match lookup(settings, ConfigKey::ArmUrdf) {
            Option::Some(v) => clone_string(v),
            Option::None => {
                return Err(ConfigError::Missing(ConfigKey::ArmUrdf));
            },
        };
        let generation_size = match usize_field(settings, ConfigKey::GenerationSize, genetic) {
            Result::Ok(n) => n,
            Result::Err(e) => {
                return Err(e);
            },
        };
        let low = match weight_field(settings, ops, ConfigKey::RandomizedWeightsLow, genetic) {
            Result::Ok(w) => w,
            Result::Err(e) => {
                return Err(e);
            },
        };
        let high = match weight_field(settings, ops, ConfigKey::RandomizedWeightsHigh, genetic) {
            Result::Ok(w) => w,
            Result::Err(e) => {
                return Err(e);
            },
        };
        let nkeep = match usize_field(settings, ConfigKey::NkeepBetweenGenerations, genetic) {
            Result::Ok(n) => n,
            Result::Err(e) => {
                return Err(e);
            },
        };
        let mutation_stdev = match weight_field(settings, ops, ConfigKey::MutationStdev, genetic) {
            Result::Ok(w) => w,
            Result::Err(e) => {
                return Err(e);
            },
        };
        // The mutation percentage, held to its range and made a fraction.
        let mutation_fraction = if !genetic {
            0
        } else {
            match lookup(settings, ConfigKey::PercentMutate) {
                Option::None => {
                    return Err(ConfigError::Missing(ConfigKey::PercentMutate));
                },
                Option::Some(v) => {
                    match ops.parse(v.as_str().as_bytes()) {
                        Option::None => {
                            return Err(ConfigError::Invalid(ConfigKey::PercentMutate));
                        },
                        Option::Some(p) => {
                            if ops.le(BITS_ZERO, p) && ops.le(p, BITS_HUNDRED) {
                                let f = ops.to_fraction(p);
                                if ops.le(f, BITS_ONE) {
                                    f
                                } else {
                                    return Err(ConfigError::PercentOutOfRange);
                                }
                            } else {
                                return Err(ConfigError::PercentOutOfRange);
                            }
                        },
                    }
                },
            }
        };
        let weights = match mode {
            Mode::Inference => match lookup(settings, ConfigKey::Weights) {
                Option::Some(v) => clone_string(v),
                Option::None => {
                    return Err(ConfigError::Missing(ConfigKey::Weights));
                },
            },
            _ => empty_string(),
        };
        let target_x = match weight_field(settings, ops, ConfigKey::TargetX, genetic) {
            Result::Ok(w) => w,
            Result::Err(e) => {
                return Err(e);
            },
        };
        let target_y = match weight_field(settings, ops, ConfigKey::TargetY, genetic) {
            Result::Ok(w) => w,
            Result::Err(e) => {
                return Err(e);
            },
        };
        let target_z = match weight_field(settings, ops, ConfigKey::TargetZ, genetic) {
            Result::Ok(w) => w,
            Result::Err(e) => {
                return Err(e);
            },
        };
        if genetic && generation_size > 0 && !(1 <= nkeep && nkeep <= generation_size) {
            return Err(ConfigError::BadKeepCount);
        }
        let nepisodes_final = match mode {
            Mode::Inference => 1,
            _ => nepisodes,
        };
        Ok(
            ExperimentConfig {
                nsteps_per_episode,
                nepisodes: nepisodes_final,
                mode,
                comstr,
                generation_size,
                low,
                high,
                nkeep,
                mutation_fraction,
                mutation_stdev,
                target_x,
                target_y,
                target_z,
                urdfpath,
                seed,
                weights,
            },
        )
    }
}

fn lower_eq_bytes(a: &[u8], kw: &[u8]) -> (r: bool)
    ensures
        r == spec_lower_eq(a@, kw@),
{
    if a.len() != kw.len() {
        return false;
    }
    let mut i: usize = 0;
    while i < a.len()
        invariant
            0 <= i <= a@.len(),
            a@.len() == kw@.len(),
            forall|k: int|
                0 <= k < i ==> crate::commands::spec_lower(#[trigger] a@[k]) == kw@[k],
        decreases a@.len() - i,
    {
        let c = if 65 <= a[i] && a[i] <= 90 {
            a[i] + 32
        } else {
            a[i]
        };
        if c != kw[i] {
            return false;
        }
        i = i + 1;
    }
    true
}

/// Relies on String::new through the standard specification: the empty text.
fn empty_string() -> (r: String)
    ensures
        r@ == Seq::<char>::empty(),
        encode_utf8(r@) == Seq::<u8>::empty(),
{
    let r = String::new();
    proof {
        assert(encode_utf8(r@) =~= Seq::<u8>::empty());
    }
    r
}

fn clone_string(s: &String) -> (r: String)
    ensures
        r@ == s@,
{
    s.clone()
}

fn u64_field(settings: &Vec<(String, String)>, k: ConfigKey, wanted: bool) -> (r: Result<
    u64,
    ConfigError,
>)
    ensures
        r == spec_u64_field(spec_pairs(settings@), k, wanted),
{
    if !wanted {
        return Ok(0);
    }
    match lookup(settings, k) {
        Option::None => Err(ConfigError::Missing(k)),
        Option::Some(v) => match parse_u64(v.as_str().as_bytes()) {
            Option::None => Err(ConfigError::Invalid(k)),
            Option::Some(n) => Ok(n),
        },
    }
}

fn usize_field(settings: &Vec<(String, String)>, k: ConfigKey, wanted: bool) -> (r: Result<
    usize,
    ConfigError,
>)
    ensures
        r == spec_usize_field(spec_pairs(settings@), k, wanted),
{
    match u64_field(settings, k, wanted) {
        Result::Err(e) => Err(e),
        Result::Ok(n) => {
            if n <= usize::MAX as u64 {
                Ok(n as usize)
            } else {
                Err(ConfigError::Invalid(k))
            }
        },
    }
}

fn weight_field<W: WeightOps>(
    settings: &Vec<(String, String)>,
    ops: &W,
    k: ConfigKey,
    wanted: bool,
) -> (r: Result<u64, ConfigError>)
    ensures
        r == spec_weight_field(spec_pairs(settings@), *ops, k, wanted),
{
    if !wanted {
        return Ok(BITS_ZERO);
    }
    match lookup(settings, k) {
        Option::None => Err(ConfigError::Missing(k)),
        Option::Some(v) => match ops.parse(v.as_str().as_bytes()) {
            Option::None => Err(ConfigError::Invalid(k)),
            Option::Some(w) => Ok(w),
        },
    }
}

} // verus!
