//! Network construction, forward pass, weight counting, mutation and the
//! textual weight format, driven by a floating-point backend.

use evoarm::arith::{GhostBytes, GhostInt, GhostWeights, IntOps, WeightOps};
use evoarm::network::{build, build_network, Activation, LayerSpec, MultilayerPerceptron, TopologyError};
use rand::rngs::StdRng;
use rand::SeedableRng;

/// The backend that interprets weight patterns as doubles, as the experiment
/// runs them.
struct RealOps;

impl WeightOps for RealOps {
    fn act(&self, a: Activation, x: u64) -> u64 {
        let v = f64::from_bits(x);
        let r = match a {
            Activation::Linear => v,
            Activation::ReLU => {
                if v < 0.0 {
                    0.0
                } else {
                    v
                }
            },
            Activation::Tanh => v.tanh(),
        };
        r.to_bits()
    }

    fn matvec(&self, w: &Vec<u64>, x: &Vec<u64>, nrows: usize, ncols: usize) -> Vec<u64> {
        let m = nalgebra::DMatrix::from_iterator(nrows, ncols, w.iter().map(|b| f64::from_bits(*b)));
        let v = nalgebra::DVector::from_iterator(nrows, x.iter().map(|b| f64::from_bits(*b)));
        let y = m.tr_mul(&v);
        y.iter().map(|f| f.to_bits()).collect()
    }

    fn fmt(&self, w: u64) -> Vec<u8> {
        f64::from_bits(w).to_string().into_bytes()
    }

    fn parse(&self, t: &[u8]) -> Option<u64> {
        std::str::from_utf8(t).ok()?.parse::<f64>().ok().map(|v| v.to_bits())
    }

    fn le(&self, a: u64, b: u64) -> bool {
        f64::from_bits(a) <= f64::from_bits(b)
    }

    fn to_fraction(&self, percent: u64) -> u64 {
        (f64::from_bits(percent) / 100.0).to_bits()
    }

    fn mut_count(&self, nweights: usize, fraction: u64) -> usize {
        (nweights as f64 * f64::from_bits(fraction)).round() as usize
    }

    fn uniform(&self, rng: &mut StdRng, low: u64, high: u64) -> u64 {
        let lo = f64::from_bits(low);
        let hi = f64::from_bits(high);
        if lo < hi + 1e-9 {
            rand::Rng::gen_range(rng, lo, hi + 1e-9).to_bits()
        } else {
            low
        }
    }

    fn gauss(&self, rng: &mut StdRng, mean: u64, stdev: u64) -> u64 {
        let m = f64::from_bits(mean);
        let s = f64::from_bits(stdev);
        if s >= 0.0 {
            rand::Rng::sample(rng, rand::distributions::Normal::new(m, s)).to_bits()
        } else {
            mean
        }
    }

    // The remaining items of the trait are specification-only: this build
    // erases them and nothing ever calls them.
    fn sact(&self, _a: Activation, _x: u64) -> u64 {
        unreachable!()
    }

    fn smatvec(
        &self,
        _w: GhostWeights,
        _x: GhostWeights,
        _nrows: GhostInt,
        _ncols: GhostInt,
    ) -> GhostWeights {
        unreachable!()
    }

    fn sfmt(&self, _w: u64) -> GhostBytes {
        unreachable!()
    }

    fn sparse(&self, _t: GhostBytes) -> Option<u64> {
        unreachable!()
    }

    fn sle(&self, _a: u64, _b: u64) -> bool {
        unreachable!()
    }

    fn sfraction(&self, _p: u64) -> u64 {
        unreachable!()
    }

    fn smut_count(&self, _n: usize, _f: u64) -> usize {
        unreachable!()
    }

    fn lemma_matvec_len(&self, _w: GhostWeights, _x: GhostWeights, _nrows: GhostInt, _ncols: GhostInt) {
    }

    fn lemma_fmt_token(&self, _w: u64) {
    }

    fn lemma_zero_fraction(&self, _n: usize) {
    }
}


fn spec(nnodes: usize, activation: Activation, connect: Option<usize>) -> LayerSpec {
    LayerSpec { nnodes, activation, connect }
}

/// The large test network of the original experiments.
fn build_test_network(rng: &mut StdRng) -> MultilayerPerceptron {
    let specs = vec![
        spec(3, Activation::Linear, Some(125)),
        spec(125, Activation::ReLU, Some(75)),
        spec(75, Activation::ReLU, Some(3)),
        spec(3, Activation::Linear, None),
    ];
    build(&specs, (-10.0f64).to_bits(), 10.0f64.to_bits(), rng, &RealOps).unwrap()
}

/// A small network suitable for checking by hand.
fn build_small_network(rng: &mut StdRng) -> MultilayerPerceptron {
    let specs = vec![
        spec(2, Activation::Linear, Some(4)),
        spec(4, Activation::ReLU, Some(4)),
        spec(4, Activation::ReLU, Some(2)),
        spec(2, Activation::Linear, None),
    ];
    build(&specs, (-2.0f64).to_bits(), 2.0f64.to_bits(), rng, &RealOps).unwrap()
}

/// An input vector of the right length: 0, 1, 2, ...
fn build_input(net: &MultilayerPerceptron) -> Vec<u64> {
    (0..net.input_length()).map(|i| (i as f64).to_bits()).collect()
}

fn approx_equal(a: f64, b: f64, decimal_places: u8) -> bool {
    let factor = 10.0f64.powi(decimal_places as i32);
    let a = (a * factor).trunc();
    let b = (b * factor).trunc();
    a == b
}

#[test]
fn test_make_more_than_one_mlp() {
    let mut rng: StdRng = SeedableRng::seed_from_u64(7);
    let _net1 = build_test_network(&mut rng);
    let _net2 = build_test_network(&mut rng);
}

#[test]
fn test_get_nweights() {
    let mut rng: StdRng = SeedableRng::seed_from_u64(11);
    let xornet = build_small_network(&mut rng);
    let nweights = xornet.nweights();
    assert_eq!(nweights, (2 * 4) + (4 * 4) + (4 * 2));
}

#[test]
fn test_serde() {
    let mut rng: StdRng = SeedableRng::seed_from_u64(13);
    let net_before = build_small_network(&mut rng);
    let input = build_input(&net_before);
    let forward_before = net_before.forward(&input, &RealOps);
    let text = net_before.serialize_weights(&RealOps);

    let mut net_after = build_small_network(&mut rng);
    net_after.deserialize_weights(text.as_slice(), &RealOps).expect("Problem with loading weights");
    let forward_after = net_after.forward(&input, &RealOps);

    // The number of layers is the same before and after.
    assert_eq!(net_before.layers.len(), net_after.layers.len());

    // Each weight is about the same as it was before.
    let ndecimal_places = 3;
    for (layer_before, layer_after) in net_before.layers.iter().zip(net_after.layers.iter()) {
        for (w_before, w_after) in layer_before.weights.iter().zip(layer_after.weights.iter()) {
            assert!(
                approx_equal(f64::from_bits(*w_before), f64::from_bits(*w_after), ndecimal_places),
                "{} and {} are not equal within {} decimal places",
                f64::from_bits(*w_before),
                f64::from_bits(*w_after),
                ndecimal_places
            );
        }
    }

    // The forward pass produces the same values before and after.
    assert_eq!(forward_before, forward_after);
}

#[test]
fn test_forward_pass() {
    // A small net with known weights: the outputs must match the values
    // computed by hand.
    let mut rng: StdRng = SeedableRng::seed_from_u64(17);
    let specs = vec![
        spec(2, Activation::Linear, Some(2)),
        spec(2, Activation::Tanh, Some(1)),
        spec(1, Activation::Linear, None),
    ];
    let mut net = build(&specs, (-2.0f64).to_bits(), 2.0f64.to_bits(), &mut rng, &RealOps).unwrap();

    let text = b"0.6 1.1 0.6 1.1\n-2.0 1.1\n";
    net.deserialize_weights(text, &RealOps).unwrap();

    let fw = |a: f64, b: f64| -> f64 {
        let out = net.forward(&vec![a.to_bits(), b.to_bits()], &RealOps);
        f64::from_bits(out[0])
    };
    let zerozero = fw(0.0, 0.0);
    let zeroone = fw(0.0, 1.0);
    let onezero = fw(1.0, 0.0);
    let oneone = fw(1.0, 1.0);

    let decplaces = 4;
    assert!(approx_equal(zerozero, 0.00000, decplaces));
    assert!(approx_equal(zeroone, -0.72045, decplaces));
    assert!(approx_equal(onezero, -0.48334, decplaces));
    assert!(approx_equal(oneone, -0.84187, decplaces));
}

#[test]
fn forward_pass_is_deterministic() {
    let mut rng: StdRng = SeedableRng::seed_from_u64(19);
    let net = build_small_network(&mut rng);
    let input = build_input(&net);
    let first = net.forward(&input, &RealOps);
    let second = net.forward(&input, &RealOps);
    assert_eq!(first, second);
}

#[test]
fn mutate_refuses_a_fraction_above_one() {
    let mut rng: StdRng = SeedableRng::seed_from_u64(23);
    let net = build_small_network(&mut rng);
    let r = net.checked_mutate(&mut rng, 1.5f64.to_bits(), 0.25f64.to_bits(), &RealOps);
    assert!(r.is_none());
}

#[test]
fn mutate_accepts_a_fraction_within_one() {
    let mut rng: StdRng = SeedableRng::seed_from_u64(29);
    let net = build_small_network(&mut rng);
    let m = net.checked_mutate(&mut rng, 0.5f64.to_bits(), 0.25f64.to_bits(), &RealOps).unwrap();
    assert_eq!(m.layers.len(), net.layers.len());
    for (a, b) in m.layers.iter().zip(net.layers.iter()) {
        assert_eq!(a.nnodes, b.nnodes);
        assert_eq!(a.weights.len(), b.weights.len());
    }
}

#[test]
fn mutate_with_zero_fraction_copies_the_network() {
    let mut rng: StdRng = SeedableRng::seed_from_u64(31);
    let net = build_small_network(&mut rng);
    let m = net.mutate(&mut rng, 0.0f64.to_bits(), 0.25f64.to_bits(), &RealOps);
    for (a, b) in m.layers.iter().zip(net.layers.iter()) {
        assert_eq!(a.weights, b.weights);
    }
}

#[test]
fn build_reports_a_width_mismatch() {
    let mut rng: StdRng = SeedableRng::seed_from_u64(37);
    let specs = vec![
        spec(2, Activation::Linear, Some(3)),
        spec(4, Activation::ReLU, Some(2)),
        spec(2, Activation::Linear, None),
    ];
    let r = build(&specs, 0, 0, &mut rng, &RealOps);
    match r {
        Err(TopologyError::Mismatch { layer, connections, next_nodes }) => {
            assert_eq!(layer, 0);
            assert_eq!(connections, 3);
            assert_eq!(next_nodes, 4);
        },
        _ => panic!("expected a width mismatch"),
    }
}

#[test]
fn build_refuses_an_early_output_marker() {
    let mut rng: StdRng = SeedableRng::seed_from_u64(41);
    let specs = vec![spec(2, Activation::Linear, None), spec(2, Activation::Linear, None)];
    let r = build(&specs, 0, 0, &mut rng, &RealOps);
    assert!(matches!(r, Err(TopologyError::MisplacedOutput { layer: 0 })));
}

#[test]
fn build_refuses_an_empty_stack() {
    let mut rng: StdRng = SeedableRng::seed_from_u64(43);
    let specs: Vec<LayerSpec> = Vec::new();
    let r = build(&specs, 0, 0, &mut rng, &RealOps);
    assert!(matches!(r, Err(TopologyError::Empty)));
}

#[test]
fn controller_recipe_shape() {
    let mut rng: StdRng = SeedableRng::seed_from_u64(47);
    let net = build_network((-1.0f64).to_bits(), 1.0f64.to_bits(), &mut rng, &RealOps);
    assert_eq!(net.layers.len(), 4);
    assert_eq!(net.input_length(), 3);
    assert_eq!(net.nweights(), 3 * 25 + 25 * 25 + 25 * 3);
}

#[test]
fn serialization_round_trips_bit_for_bit() {
    let mut rng: StdRng = SeedableRng::seed_from_u64(53);
    let net = build_small_network(&mut rng);
    let text = net.serialize_weights(&RealOps);
    let mut other = build_small_network(&mut rng);
    other.deserialize_weights(text.as_slice(), &RealOps).unwrap();
    for (a, b) in net.layers.iter().zip(other.layers.iter()) {
        assert_eq!(a.weights, b.weights);
    }
}

#[test]
fn deserialize_reports_the_bad_token() {
    let mut rng: StdRng = SeedableRng::seed_from_u64(59);
    let specs = vec![spec(2, Activation::Linear, Some(1)), spec(1, Activation::Linear, None)];
    let mut net = build(&specs, 0, 0, &mut rng, &RealOps).unwrap();
    let before = net.layers[0].weights.clone();
    let e = net.deserialize_weights(b"0.5 oops\n", &RealOps).unwrap_err();
    assert_eq!(e.token, b"oops".to_vec());
    // The offending layer keeps its old weights.
    assert_eq!(net.layers[0].weights, before);
}

#[test]
fn deserialize_tolerates_missing_and_extra_lines() {
    let mut rng: StdRng = SeedableRng::seed_from_u64(61);
    let specs = vec![
        spec(1, Activation::Linear, Some(1)),
        spec(1, Activation::Linear, Some(1)),
        spec(1, Activation::Linear, None),
    ];
    let mut net = build(&specs, 0, 0, &mut rng, &RealOps).unwrap();
    let second = net.layers[1].weights.clone();
    // One line for two weight-carrying layers: the second keeps its weights.
    net.deserialize_weights(b"7.5\n", &RealOps).unwrap();
    assert_eq!(net.layers[0].weights, vec![7.5f64.to_bits()]);
    assert_eq!(net.layers[1].weights, second);
    // Extra lines beyond the layers are ignored.
    net.deserialize_weights(b"1.0\n2.0\n3.0\n4.0\n", &RealOps).unwrap();
    assert_eq!(net.layers[0].weights, vec![1.0f64.to_bits()]);
    assert_eq!(net.layers[1].weights, vec![2.0f64.to_bits()]);
}

#[test]
fn integer_backend_formats_and_reads_back() {
    // Sixteen letters per weight; parsing returns the very pattern, so a
    // backend that handed its argument back unchanged would fail here.
    let ops = IntOps;
    let t = ops.fmt(0x0123456789ABCDEF);
    assert_eq!(t.len(), 16);
    assert!(t.iter().all(|b| (b'A'..=b'P').contains(b)));
    assert_ne!(t, 0x0123456789ABCDEFu64.to_le_bytes().to_vec());
    assert_eq!(ops.parse(t.as_slice()), Some(0x0123456789ABCDEF));
    assert_eq!(ops.parse(b"QQQQQQQQQQQQQQQQ"), None);
    assert_eq!(ops.parse(b"AAA"), None);
}

#[test]
fn integer_backend_matvec_is_the_wrapping_product() {
    let ops = IntOps;
    // A 2 by 2 matrix stored column-major: columns (1, 2) and (3, 4).
    let w = vec![1u64, 2, 3, 4];
    let x = vec![10u64, 100];
    let y = ops.matvec(&w, &x, 2, 2);
    assert_eq!(y, vec![1 * 10 + 2 * 100, 3 * 10 + 4 * 100]);
    // Wrapping at the word size.
    let w2 = vec![u64::MAX, 0];
    let x2 = vec![2u64, 0];
    let y2 = ops.matvec(&w2, &x2, 2, 1);
    assert_eq!(y2, vec![u64::MAX.wrapping_mul(2)]);
}

#[test]
fn integer_backend_serializes_the_exact_format() {
    let mut rng: StdRng = SeedableRng::seed_from_u64(67);
    let ops = IntOps;
    let specs = vec![
        spec(1, Activation::Linear, Some(2)),
        spec(2, Activation::Linear, Some(1)),
        spec(1, Activation::Linear, None),
    ];
    // With the integer backend, uniform drawing returns `low`, so every
    // weight is zero and every token is sixteen letters A.
    let net = build(&specs, 0, 0, &mut rng, &ops).unwrap();
    let text = net.serialize_weights(&ops);
    let expected = b"AAAAAAAAAAAAAAAA AAAAAAAAAAAAAAAA \nAAAAAAAAAAAAAAAA AAAAAAAAAAAAAAAA \n";
    assert_eq!(text, expected.to_vec());
}

#[test]
fn decimal_reader_handles_the_word_boundaries() {
    assert_eq!(evoarm::text::parse_u64(b"0"), Some(0));
    assert_eq!(evoarm::text::parse_u64(b"18446744073709551615"), Some(u64::MAX));
    assert_eq!(evoarm::text::parse_u64(b"18446744073709551616"), None);
    assert_eq!(evoarm::text::parse_u64(b""), None);
    assert_eq!(evoarm::text::parse_u64(b"12a"), None);
}

#[test]
fn mutate_changes_at_most_the_drawn_number_of_weights() {
    let mut rng: StdRng = SeedableRng::seed_from_u64(71);
    let net = build_small_network(&mut rng);
    // Forty weights at a half fraction: twenty draws, so at most twenty
    // entries may differ.
    let m = net.mutate(&mut rng, 0.5f64.to_bits(), 0.25f64.to_bits(), &RealOps);
    let mut ndiff = 0;
    for (a, b) in m.layers.iter().zip(net.layers.iter()) {
        for (x, y) in a.weights.iter().zip(b.weights.iter()) {
            if x != y {
                ndiff += 1;
            }
        }
    }
    assert!(ndiff <= 20);
    assert!(ndiff > 0);
}
