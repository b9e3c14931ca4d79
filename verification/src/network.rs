//! The multilayer perceptron: a stack of fully-connected feed-forward layers.
//!
//! A network is built once from a list of layer specifications, evaluated with
//! [`MultilayerPerceptron::forward`], trained only by
//! [`MultilayerPerceptron::mutate`], and written to and read from a plain
//! textual weight format.  Weight values are opaque 64-bit patterns read by a
//! [`WeightOps`] backend; everything structural about them is proved here.

use vstd::prelude::*;

use crate::arith::{WeightOps, BITS_ONE};
use crate::rng::gen_index;
use crate::text::{spec_split, spec_is_sep};

verus! {

/// The closed set of activation functions a layer may use.
#[derive(Clone, Copy, PartialEq, Eq, Structural, Debug)]
pub enum Activation {
    Linear,
    ReLU,
    Tanh,
}

/// One layer: its node count, its activation, and the matrix of weights that
/// leaves it, stored column-major (`weights[col * nnodes + row]`).  The output
/// layer ends the network and carries no outgoing weights.
pub struct Layer {
    /// The number of nodes in this layer.
    pub nnodes: usize,
    /// The activation applied to each node's input.
    pub activation: Activation,
    /// Whether this is the output layer.
    pub output: bool,
    /// The width of the next layer; zero for the output layer.
    pub ncols: usize,
    /// The outgoing weight matrix, column-major, `nnodes * ncols` entries.
    pub weights: Vec<u64>,
}

impl Layer {
    /// The layer's weight storage agrees with its declared shape.
    pub open spec fn wf(&self) -> bool {
        if self.output {
            self.ncols == 0 && self.weights@.len() == 0
        } else {
            self.weights@.len() == self.nnodes * self.ncols
        }
    }
}

/// Two layers hold the same shape, activation and weight values.
pub open spec fn layer_eqv(a: Layer, b: Layer) -> bool {
    a.nnodes == b.nnodes && a.activation == b.activation && a.output == b.output && a.ncols
        == b.ncols && a.weights@ == b.weights@
}

/// Two layer stacks have the same shape and activations (weights may differ).
pub open spec fn spec_same_topology(a: Seq<Layer>, b: Seq<Layer>) -> bool {
    a.len() == b.len() && forall|i: int|
        0 <= i < a.len() ==> (#[trigger] a[i]).nnodes == b[i].nnodes && a[i].activation
            == b[i].activation && a[i].output == b[i].output && a[i].ncols == b[i].ncols
}

/// Two layer stacks are equal in shape, activations and weight values.
pub open spec fn spec_net_eqv(a: Seq<Layer>, b: Seq<Layer>) -> bool {
    a.len() == b.len() && forall|i: int| 0 <= i < a.len() ==> layer_eqv(#[trigger] a[i], b[i])
}

/// Total number of trainable weights in a layer stack.
pub open spec fn spec_nweights(layers: Seq<Layer>) -> int
    decreases layers.len(),
{
    if layers.len() == 0 {
        0
    } else {
        layers[0].weights@.len() + spec_nweights(layers.drop_first())
    }
}

pub proof fn lemma_nweights_nonneg(layers: Seq<Layer>)
    ensures
        spec_nweights(layers) >= 0,
    decreases layers.len(),
{
    if layers.len() > 0 {
        lemma_nweights_nonneg(layers.drop_first());
    }
}

pub proof fn lemma_nweights_push(layers: Seq<Layer>, l: Layer)
    ensures
        spec_nweights(layers.push(l)) == spec_nweights(layers) + l.weights@.len(),
    decreases layers.len(),
{
    let p = layers.push(l);
    if layers.len() == 0 {
        assert(p[0] == l);
        assert(p.drop_first() =~= Seq::<Layer>::empty());
        assert(spec_nweights(p) == p[0].weights@.len() + spec_nweights(p.drop_first()));
    } else {
        assert(p[0] == layers[0]);
        assert(p.drop_first() =~= layers.drop_first().push(l));
        lemma_nweights_push(layers.drop_first(), l);
        assert(spec_nweights(p) == p[0].weights@.len() + spec_nweights(p.drop_first()));
        assert(spec_nweights(layers) == layers[0].weights@.len() + spec_nweights(
            layers.drop_first(),
        ));
    }
}


/// Number of positions at which two weight vectors differ, pairing entries
/// from the front.
pub open spec fn spec_seq_diffs(x: Seq<u64>, y: Seq<u64>) -> int
    decreases x.len(),
{
    if x.len() == 0 {
        0
    } else {
        (if x[0] != y[0] {
            1int
        } else {
            0int
        }) + spec_seq_diffs(x.drop_first(), y.drop_first())
    }
}

/// Number of weight entries at which two layer stacks differ, layer by layer.
pub open spec fn spec_net_diffs(a: Seq<Layer>, b: Seq<Layer>) -> int
    decreases a.len(),
{
    if a.len() == 0 {
        0
    } else {
        spec_seq_diffs(a[0].weights@, b[0].weights@) + spec_net_diffs(
            a.drop_first(),
            b.drop_first(),
        )
    }
}

proof fn lemma_seq_diffs_eq(x: Seq<u64>, y: Seq<u64>)
    requires
        x == y,
    ensures
        spec_seq_diffs(x, y) == 0,
    decreases x.len(),
{
    if x.len() > 0 {
        lemma_seq_diffs_eq(x.drop_first(), y.drop_first());
    }
}

/// Value-equal stacks differ in no weight entry.
pub proof fn lemma_net_diffs_eqv(a: Seq<Layer>, b: Seq<Layer>)
    requires
        spec_net_eqv(a, b),
    ensures
        spec_net_diffs(a, b) == 0,
    decreases a.len(),
{
    if a.len() > 0 {
        assert(layer_eqv(a[0], b[0]));
        lemma_seq_diffs_eq(a[0].weights@, b[0].weights@);
        assert forall|i: int| 0 <= i < a.drop_first().len() implies layer_eqv(
            #[trigger] a.drop_first()[i],
            b.drop_first()[i],
        ) by {
            assert(a.drop_first()[i] == a[i + 1] && b.drop_first()[i] == b[i + 1]);
            assert(layer_eqv(a[i + 1], b[i + 1]));
        }
        lemma_net_diffs_eqv(a.drop_first(), b.drop_first());
    }
}

proof fn lemma_seq_diffs_update(x: Seq<u64>, y: Seq<u64>, i: int, v: u64)
    requires
        0 <= i < x.len(),
    ensures
        spec_seq_diffs(x.update(i, v), y) <= spec_seq_diffs(x, y) + 1,
    decreases x.len(),
{
    let xu = x.update(i, v);
    if i == 0 {
        assert(xu.drop_first() =~= x.drop_first());
    } else {
        assert(xu[0] == x[0]);
        assert(xu.drop_first() =~= x.drop_first().update(i - 1, v));
        lemma_seq_diffs_update(x.drop_first(), y.drop_first(), i - 1, v);
    }
}

/// Replacing one weight entry of one layer changes the stack's difference
/// from any other stack by at most one.
proof fn lemma_net_diffs_update(a: Seq<Layer>, a2: Seq<Layer>, b: Seq<Layer>, li: int, idx: int, v: u64)
    requires
        a.len() == a2.len(),
        0 <= li < a.len(),
        forall|t: int| 0 <= t < a.len() && t != li ==> #[trigger] a2[t] == a[t],
        0 <= idx < a[li].weights@.len(),
        a2[li].weights@ == a[li].weights@.update(idx, v),
    ensures
        spec_net_diffs(a2, b) <= spec_net_diffs(a, b) + 1,
    decreases a.len(),
{
    if li == 0 {
        lemma_seq_diffs_update(a[0].weights@, b[0].weights@, idx, v);
        assert(a2.drop_first() =~= a.drop_first());
    } else {
        assert(a2[0] == a[0]);
        assert forall|t: int|
            0 <= t < a.drop_first().len() && t != li - 1 implies #[trigger] a2.drop_first()[t]
            == a.drop_first()[t] by {
            assert(a2.drop_first()[t] == a2[t + 1] && a.drop_first()[t] == a[t + 1]);
            assert(a2[t + 1] == a[t + 1]);
        }
        assert(a2.drop_first()[li - 1] == a2[li] && a.drop_first()[li - 1] == a[li]);
        lemma_net_diffs_update(a.drop_first(), a2.drop_first(), b.drop_first(), li - 1, idx, v);
    }
}

/// A multilayer perceptron.
pub struct MultilayerPerceptron {
    /// The layers, input first, the output layer last.
    pub layers: Vec<Layer>,
}

impl MultilayerPerceptron {
    /// The structural invariant: at least one layer, the output marker on the
    /// last layer only, widths chained, weight storage sized to shape, and a
    /// total weight count the machine can hold.
    pub open spec fn wf(&self) -> bool {
        &&& self.layers@.len() >= 1
        &&& forall|i: int| 0 <= i < self.layers@.len() ==> (#[trigger] self.layers@[i]).wf()
        &&& forall|i: int|
            0 <= i < self.layers@.len() ==> ((#[trigger] self.layers@[i]).output <==> i
                == self.layers@.len() - 1)
        &&& forall|i: int, j: int|
            0 <= i && j == i + 1 && j < self.layers@.len() ==> (#[trigger] self.layers@[i]).ncols
                == (#[trigger] self.layers@[j]).nnodes
        &&& spec_nweights(self.layers@) <= usize::MAX
    }

    /// Every layer that carries weights carries at least one; mutation draws
    /// coordinates only from such networks.
    pub open spec fn mutable(&self) -> bool {
        forall|i: int|
            0 <= i < self.layers@.len() - 1 ==> (#[trigger] self.layers@[i]).weights@.len() > 0
    }

    /// The length of the input vectors this network expects.
    pub open spec fn spec_input_length(&self) -> usize {
        if self.layers@.len() > 0 {
            self.layers@[0].nnodes
        } else {
            0
        }
    }

    /// Returns the length of the input vectors this network expects.
    pub fn input_length(&self) -> (r: usize)
        ensures
            r == self.spec_input_length(),
    {
        if self.layers.len() > 0 {
            self.layers[0].nnodes
        } else {
            0
        }
    }

    /// Returns the total number of trainable weights in this network.
    #[verifier::rlimit(50)]
    pub fn nweights(&self) -> (r: usize)
        requires
            self.wf(),
        ensures
            r == spec_nweights(self.layers@),
    {
        let mut total: usize = 0;
        let mut i: usize = 0;
        proof {
            assert(self.layers@.take(0) =~= Seq::<Layer>::empty());
        }
        while i < self.layers.len()
            invariant
                0 <= i <= self.layers@.len(),
                self.wf(),
                total == spec_nweights(self.layers@.take(i as int)),
            decreases self.layers@.len() - i,
        {
            proof {
                assert(self.layers@.take(i as int).push(self.layers@[i as int]) =~= self.layers@
                    .take(i as int + 1));
                lemma_nweights_push(self.layers@.take(i as int), self.layers@[i as int]);
                lemma_take_le_total(self.layers@, i as int + 1);
            }
            total = total + self.layers[i].weights.len();
            i = i + 1;
        }
        proof {
            assert(self.layers@.take(i as int) =~= self.layers@);
        }
        total
    }
}

/// The weight count of a prefix never exceeds the whole stack's count.
proof fn lemma_take_le_total(layers: Seq<Layer>, i: int)
    requires
        0 <= i <= layers.len(),
    ensures
        spec_nweights(layers.take(i)) <= spec_nweights(layers),
{
    lemma_nweights_take_rest(layers, i);
    lemma_nweights_nonneg(layers.skip(i));
}

/// Splitting a stack at any point splits its weight count.
proof fn lemma_nweights_take_rest(layers: Seq<Layer>, i: int)
    requires
        0 <= i <= layers.len(),
    ensures
        spec_nweights(layers) == spec_nweights(layers.take(i)) + spec_nweights(layers.skip(i)),
    decreases i,
{
    if i == 0 {
        assert(layers.take(0) =~= Seq::<Layer>::empty());
        assert(layers.skip(0) =~= layers);
    } else {
        lemma_nweights_take_rest(layers, i - 1);
        assert(layers.take(i - 1).push(layers[i - 1]) =~= layers.take(i));
        lemma_nweights_push(layers.take(i - 1), layers[i - 1]);
        assert(layers.skip(i - 1).drop_first() =~= layers.skip(i));
        assert(layers.skip(i - 1)[0] == layers[i - 1]);
        assert(spec_nweights(layers.skip(i - 1)) == layers[i - 1].weights@.len() + spec_nweights(
            layers.skip(i),
        ));
    }
}

fn clone_weights(w: &Vec<u64>) -> (r: Vec<u64>)
    ensures
        r@ == w@,
{
    let mut r: Vec<u64> = Vec::new();
    let mut i: usize = 0;
    while i < w.len()
        invariant
            0 <= i <= w@.len(),
            r@ =~= w@.take(i as int),
        decreases w@.len() - i,
    {
        r.push(w[i]);
        proof {
            assert(r@ =~= w@.take(i as int + 1));
        }
        i = i + 1;
    }
    proof {
        assert(r@ =~= w@);
    }
    r
}

impl Clone for Layer {
    /// Cloning copies the shape and every weight value.
    fn clone(&self) -> (r: Self)
        ensures
            layer_eqv(r, *self),
    {
        Layer {
            nnodes: self.nnodes,
            activation: self.activation,
            output: self.output,
            ncols: self.ncols,
            weights: clone_weights(&self.weights),
        }
    }
}

impl Clone for MultilayerPerceptron {
    /// Cloning produces a fully independent network with equal shape and
    /// weight values.
    fn clone(&self) -> (r: Self)
        ensures
            spec_net_eqv(r.layers@, self.layers@),
    {
        let mut layers: Vec<Layer> = Vec::new();
        let mut i: usize = 0;
        while i < self.layers.len()
            invariant
                0 <= i <= self.layers@.len(),
                layers@.len() == i,
                forall|k: int| 0 <= k < i ==> layer_eqv(#[trigger] layers@[k], self.layers@[k]),
            decreases self.layers@.len() - i,
        {
            layers.push(self.layers[i].clone());
            i = i + 1;
        }
        MultilayerPerceptron { layers }
    }
}

/// Equal layer stacks have equal weight counts.
pub proof fn lemma_nweights_eqv(a: Seq<Layer>, b: Seq<Layer>)
    requires
        spec_net_eqv(a, b),
    ensures
        spec_nweights(a) == spec_nweights(b),
    decreases a.len(),
{
    if a.len() > 0 {
        assert(layer_eqv(a[0], b[0]));
        assert(spec_net_eqv(a.drop_first(), b.drop_first())) by {
            assert(forall|i: int|
                0 <= i < a.len() - 1 ==> a.drop_first()[i] == a[i + 1] && b.drop_first()[i] == b[i
                    + 1]);
        }
        lemma_nweights_eqv(a.drop_first(), b.drop_first());
    }
}

/// What one layer of a network should look like: its node count, its
/// activation, and either the width it connects to or the output marker.
pub struct LayerSpec {
    /// The number of nodes in the layer.
    pub nnodes: usize,
    /// The activation applied at the layer.
    pub activation: Activation,
    /// `Some(width)` connects the layer to a following layer of that width;
    /// `None` makes it the output layer.
    pub connect: Option<usize>,
}

/// Why a list of layer specifications does not make a network.
#[derive(Clone, Copy, PartialEq, Eq, Structural, Debug)]
pub enum TopologyError {
    /// No layers were given.
    Empty,
    /// A layer declares a connection width that disagrees with the node count
    /// of the following layer.
    Mismatch { layer: usize, connections: usize, next_nodes: usize },
    /// The output marker is missing from the last layer or present before it.
    MisplacedOutput { layer: usize },
    /// The total weight count does not fit in the machine's word.
    TooLarge,
}

/// The first shape error at or after position `i`, if any.
pub open spec fn spec_shape_err_from(specs: Seq<LayerSpec>, i: int) -> Option<TopologyError>
    decreases specs.len() - i,
{
    if i >= specs.len() {
        None
    } else if i < specs.len() - 1 {
        match specs[i].connect {
            Option::None => Some(TopologyError::MisplacedOutput { layer: i as usize }),
            Option::Some(c) => if c != specs[i + 1].nnodes {
                Some(
                    TopologyError::Mismatch {
                        layer: i as usize,
                        connections: c,
                        next_nodes: specs[i + 1].nnodes,
                    },
                )
            } else {
                spec_shape_err_from(specs, i + 1)
            },
        }
    } else {
        if specs[i].connect is Some {
            Some(TopologyError::MisplacedOutput { layer: i as usize })
        } else {
            None
        }
    }
}

/// Total weight count a list of layer specifications asks for.
pub open spec fn spec_specs_total(specs: Seq<LayerSpec>) -> int
    decreases specs.len(),
{
    if specs.len() == 0 {
        0
    } else {
        (match specs[0].connect {
            Option::Some(c) => specs[0].nnodes * c,
            Option::None => 0,
        }) + spec_specs_total(specs.drop_first())
    }
}

/// The verdict on a list of layer specifications: the error [`build`] reports,
/// or `None` when a network can be made of it.
pub open spec fn spec_build_err(specs: Seq<LayerSpec>) -> Option<TopologyError> {
    if specs.len() == 0 {
        Some(TopologyError::Empty)
    } else if spec_shape_err_from(specs, 0) is Some {
        spec_shape_err_from(specs, 0)
    } else if spec_specs_total(specs) > usize::MAX {
        Some(TopologyError::TooLarge)
    } else {
        None
    }
}

/// The layer carries exactly the shape the specification asked for.
pub open spec fn layer_matches(l: Layer, s: LayerSpec) -> bool {
    &&& l.nnodes == s.nnodes
    &&& l.activation == s.activation
    &&& (l.output <==> s.connect is None)
    &&& (s.connect is Some ==> l.ncols == s.connect->0)
}

/// The built layers carry exactly the shape the specifications asked for.
pub open spec fn spec_matches_specs(layers: Seq<Layer>, specs: Seq<LayerSpec>) -> bool {
    &&& layers.len() == specs.len()
    &&& forall|i: int| 0 <= i < layers.len() ==> #[trigger] layer_matches(layers[i], specs[i])
}

proof fn lemma_specs_total_nonneg(specs: Seq<LayerSpec>)
    ensures
        spec_specs_total(specs) >= 0,
    decreases specs.len(),
{
    if specs.len() > 0 {
        lemma_specs_total_nonneg(specs.drop_first());
        let c = specs[0].connect;
        if c is Some {
            assert(specs[0].nnodes * c->0 >= 0) by (nonlinear_arith);
        }
    }
}

proof fn lemma_specs_total_push(specs: Seq<LayerSpec>, s: LayerSpec)
    ensures
        spec_specs_total(specs.push(s)) == spec_specs_total(specs) + (match s.connect {
            Option::Some(c) => s.nnodes * c,
            Option::None => 0,
        }),
    decreases specs.len(),
{
    let p = specs.push(s);
    if specs.len() == 0 {
        assert(p[0] == s);
        assert(p.drop_first() =~= Seq::<LayerSpec>::empty());
        assert(spec_specs_total(p) == (match p[0].connect {
            Option::Some(c) => p[0].nnodes * c,
            Option::None => 0,
        }) + spec_specs_total(p.drop_first()));
    } else {
        assert(p[0] == specs[0]);
        assert(p.drop_first() =~= specs.drop_first().push(s));
        lemma_specs_total_push(specs.drop_first(), s);
        assert(spec_specs_total(p) == (match p[0].connect {
            Option::Some(c) => p[0].nnodes * c,
            Option::None => 0,
        }) + spec_specs_total(p.drop_first()));
        assert(spec_specs_total(specs) == (match specs[0].connect {
            Option::Some(c) => specs[0].nnodes * c,
            Option::None => 0,
        }) + spec_specs_total(specs.drop_first()));
    }
}

proof fn lemma_specs_total_take_le(specs: Seq<LayerSpec>, i: int)
    requires
        0 <= i <= specs.len(),
    ensures
        spec_specs_total(specs.take(i)) <= spec_specs_total(specs),
    decreases specs.len() - i,
{
    if i == specs.len() {
        assert(specs.take(i) =~= specs);
    } else {
        lemma_specs_total_take_le(specs, i + 1);
        assert(specs.take(i).push(specs[i]) =~= specs.take(i + 1));
        lemma_specs_total_push(specs.take(i), specs[i]);
        let c = specs[i].connect;
        if c is Some {
            assert(specs[i].nnodes * c->0 >= 0) by (nonlinear_arith);
        }
    }
}

/// Makes a network from an ordered list of layer specifications, drawing each
/// weight from the uniform distribution over `[low, high]`.
///
/// Fails, with the first problem found, exactly when the list is empty, when a
/// declared connection width disagrees with the following layer's node count,
/// when the output marker is missing or early, or when the machine cannot
/// hold the weight count.
#[verifier::rlimit(100)]
pub fn build<W: WeightOps>(
    specs: &Vec<LayerSpec>,
    low: u64,
    high: u64,
    rng: &mut rand::rngs::StdRng,
    ops: &W,
) -> (r: Result<MultilayerPerceptron, TopologyError>)
    ensures
        match r {
            Result::Ok(net) => spec_build_err(specs@) is None && net.wf() && spec_matches_specs(
                net.layers@,
                specs@,
            ) && spec_nweights(net.layers@) == spec_specs_total(specs@),
            Result::Err(e) => spec_build_err(specs@) == Some(e),
        },
{
    if specs.len() == 0 {
        return Err(TopologyError::Empty);
    }
    if let Option::Some(e) = shape_check(specs) {
        return Err(e);
    }
    if total_check(specs).is_none() {
        return Err(TopologyError::TooLarge);
    }
    let layers = assemble(specs, low, high, rng, ops);
    proof {
        lemma_assembled_wf(specs@, layers@);
    }
    Ok(MultilayerPerceptron { layers })
}

/// The shape validation pass of [`build`], in layer order.
fn shape_check(specs: &Vec<LayerSpec>) -> (r: Option<TopologyError>)
    requires
        specs@.len() >= 1,
    ensures
        r == spec_shape_err_from(specs@, 0),
{
    let mut i: usize = 0;
    while i < specs.len()
        invariant
            0 <= i <= specs@.len(),
            specs@.len() >= 1,
            spec_shape_err_from(specs@, 0) == spec_shape_err_from(specs@, i as int),
        decreases specs@.len() - i,
    {
        if i < specs.len() - 1 {
            match specs[i].connect {
                Option::None => {
                    return Some(TopologyError::MisplacedOutput { layer: i });
                },
                Option::Some(c) => {
                    if c != specs[i + 1].nnodes {
                        return Some(
                            TopologyError::Mismatch {
                                layer: i,
                                connections: c,
                                next_nodes: specs[i + 1].nnodes,
                            },
                        );
                    }
                },
            }
        } else {
            if specs[i].connect.is_some() {
                return Some(TopologyError::MisplacedOutput { layer: i });
            }
        }
        i = i + 1;
    }
    None
}

/// The size pass of [`build`]: the total weight count, if the machine's word
/// holds it.
fn total_check(specs: &Vec<LayerSpec>) -> (r: Option<usize>)
    ensures
        match r {
            Option::Some(t) => t == spec_specs_total(specs@),
            Option::None => spec_specs_total(specs@) > usize::MAX,
        },
{
    let mut total: usize = 0;
    let mut k: usize = 0;
    proof {
        assert(specs@.take(0) =~= Seq::<LayerSpec>::empty());
    }
    while k < specs.len()
        invariant
            0 <= k <= specs@.len(),
            total == spec_specs_total(specs@.take(k as int)),
        decreases specs@.len() - k,
    {
        proof {
            assert(specs@.take(k as int).push(specs@[k as int]) =~= specs@.take(k as int + 1));
            lemma_specs_total_push(specs@.take(k as int), specs@[k as int]);
        }
        let n = match specs[k].connect {
            Option::Some(c) => {
                match specs[k].nnodes.checked_mul(c) {
                    Option::Some(n) => n,
                    Option::None => {
                        proof {
                            lemma_specs_total_take_le(specs@, k as int + 1);
                            lemma_specs_total_nonneg(specs@.take(k as int));
                        }
                        return None;
                    },
                }
            },
            Option::None => 0,
        };
        total = match total.checked_add(n) {
            Option::Some(t) => t,
            Option::None => {
                proof {
                    lemma_specs_total_take_le(specs@, k as int + 1);
                }
                return None;
            },
        };
        k = k + 1;
    }
    proof {
        assert(specs@.take(specs@.len() as int) =~= specs@);
    }
    Some(total)
}

/// The assembly pass of [`build`]: shape-checked specifications become layers
/// with freshly drawn weights.
/// Weight count one layer specification asks for.
pub open spec fn spec_item_weights(s: LayerSpec) -> int {
    match s.connect {
        Option::Some(c) => s.nnodes * c,
        Option::None => 0,
    }
}

fn assemble<W: WeightOps>(
    specs: &Vec<LayerSpec>,
    low: u64,
    high: u64,
    rng: &mut rand::rngs::StdRng,
    ops: &W,
) -> (layers: Vec<Layer>)
    requires
        specs@.len() >= 1,
        spec_shape_err_from(specs@, 0) is None,
        spec_specs_total(specs@) <= usize::MAX,
    ensures
        layers@.len() == specs@.len(),
        forall|t: int|
            0 <= t < layers@.len() ==> #[trigger] layer_matches(layers@[t], specs@[t])
                && layers@[t].wf(),
        spec_nweights(layers@) == spec_specs_total(specs@),
{
    let mut layers: Vec<Layer> = Vec::new();
    let mut j: usize = 0;
    proof {
        assert(specs@.take(0) =~= Seq::<LayerSpec>::empty());
    }
    while j < specs.len()
        invariant
            0 <= j <= specs@.len(),
            specs@.len() >= 1,
            layers@.len() == j,
            spec_shape_err_from(specs@, 0) is None,
            spec_specs_total(specs@) <= usize::MAX,
            forall|t: int|
                0 <= t < j ==> #[trigger] layer_matches(layers@[t], specs@[t]) && layers@[t].wf(),
            spec_nweights(layers@) == spec_specs_total(specs@.take(j as int)),
        decreases specs@.len() - j,
    {
        let layer = make_layer(specs, j, low, high, rng, ops);
        proof {
            lemma_nweights_push(layers@, layer);
            assert(specs@.take(j as int).push(specs@[j as int]) =~= specs@.take(j as int + 1));
            lemma_specs_total_push(specs@.take(j as int), specs@[j as int]);
        }
        layers.push(layer);
        j = j + 1;
    }
    proof {
        assert(specs@.take(specs@.len() as int) =~= specs@);
    }
    layers
}

/// Makes one layer of the shape asked for at position `j`, with fresh weights.
fn make_layer<W: WeightOps>(
    specs: &Vec<LayerSpec>,
    j: usize,
    low: u64,
    high: u64,
    rng: &mut rand::rngs::StdRng,
    ops: &W,
) -> (layer: Layer)
    requires
        j < specs@.len(),
        spec_shape_err_from(specs@, 0) is None,
        spec_specs_total(specs@) <= usize::MAX,
    ensures
        layer_matches(layer, specs@[j as int]),
        layer.wf(),
        layer.weights@.len() == spec_item_weights(specs@[j as int]),
{
    let output = j == specs.len() - 1;
    proof {
        lemma_shape_err_none(specs@, j as int);
        assert(specs@.take(j as int).push(specs@[j as int]) =~= specs@.take(j as int + 1));
        lemma_specs_total_push(specs@.take(j as int), specs@[j as int]);
        lemma_specs_total_take_le(specs@, j as int + 1);
        lemma_specs_total_nonneg(specs@.take(j as int));
    }
    let ncols = match specs[j].connect {
        Option::Some(c) => c,
        Option::None => 0,
    };
    let nw = if output {
        0
    } else {
        specs[j].nnodes * ncols
    };
    let w = draw_weights(nw, low, high, rng, ops);
    Layer {
        nnodes: specs[j].nnodes,
        activation: specs[j].activation,
        output,
        ncols: if output {
            0
        } else {
            ncols
        },
        weights: w,
    }
}

/// The assembled layer stack is a well-formed network body that matches its
/// specifications.
#[verifier::spinoff_prover]
proof fn lemma_assembled_wf(specs: Seq<LayerSpec>, layers: Seq<Layer>)
    requires
        specs.len() >= 1,
        layers.len() == specs.len(),
        spec_shape_err_from(specs, 0) is None,
        spec_specs_total(specs) <= usize::MAX,
        forall|t: int|
            0 <= t < layers.len() ==> #[trigger] layer_matches(layers[t], specs[t])
                && layers[t].wf(),
        spec_nweights(layers) == spec_specs_total(specs),
    ensures
        spec_matches_specs(layers, specs),
        layers.len() >= 1,
        forall|i: int| 0 <= i < layers.len() ==> (#[trigger] layers[i]).wf(),
        forall|i: int| 0 <= i < layers.len() ==> ((#[trigger] layers[i]).output <==> i == layers.len() - 1),
        forall|i: int, j: int|
            0 <= i && j == i + 1 && j < layers.len() ==> (#[trigger] layers[i]).ncols
                == (#[trigger] layers[j]).nnodes,
        spec_nweights(layers) <= usize::MAX,
{
    assert forall|i: int| 0 <= i < layers.len() implies (#[trigger] layers[i]).wf() by {
        assert(layer_matches(layers[i], specs[i]) && layers[i].wf());
    }
    lemma_shape_links(specs, layers);
}

/// Draws `n` fresh weights from the uniform distribution over `[low, high]`.
fn draw_weights<W: WeightOps>(
    n: usize,
    low: u64,
    high: u64,
    rng: &mut rand::rngs::StdRng,
    ops: &W,
) -> (w: Vec<u64>)
    ensures
        w@.len() == n,
{
    let mut w: Vec<u64> = Vec::new();
    let mut t: usize = 0;
    while t < n
        invariant
            0 <= t <= n,
            w@.len() == t,
        decreases n - t,
    {
        w.push(ops.uniform(rng, low, high));
        t = t + 1;
    }
    w
}

/// With no shape error, every non-final specification connects to the next
/// layer's node count and the final one is the output.
proof fn lemma_shape_err_none(specs: Seq<LayerSpec>, i: int)
    requires
        0 <= i < specs.len(),
        spec_shape_err_from(specs, 0) is None,
    ensures
        i < specs.len() - 1 ==> specs[i].connect == Some(specs[i + 1].nnodes),
        i == specs.len() - 1 ==> specs[i].connect is None,
{
    lemma_shape_err_none_from(specs, 0, i);
}

proof fn lemma_shape_err_none_from(specs: Seq<LayerSpec>, j: int, i: int)
    requires
        0 <= j <= i < specs.len(),
        spec_shape_err_from(specs, j) is None,
    ensures
        i < specs.len() - 1 ==> specs[i].connect == Some(specs[i + 1].nnodes),
        i == specs.len() - 1 ==> specs[i].connect is None,
    decreases i - j,
{
    if j < i {
        lemma_shape_err_none_from(specs, j + 1, i);
    }
}

/// A layer stack that matches a shape-correct specification list is a
/// well-formed network body.
proof fn lemma_shape_links(specs: Seq<LayerSpec>, layers: Seq<Layer>)
    requires
        specs.len() >= 1,
        spec_shape_err_from(specs, 0) is None,
        spec_matches_specs(layers, specs),
        forall|t: int| 0 <= t < layers.len() ==> (#[trigger] layers[t]).wf(),
    ensures
        forall|i: int|
            0 <= i < layers.len() ==> ((#[trigger] layers[i]).output <==> i == layers.len() - 1),
        forall|i: int, j: int|
            0 <= i && j == i + 1 && j < layers.len() ==> (#[trigger] layers[i]).ncols
                == (#[trigger] layers[j]).nnodes,
{
    assert forall|i: int| 0 <= i < layers.len() implies ((#[trigger] layers[i]).output <==> i
        == layers.len() - 1) by {
        lemma_shape_err_none(specs, i);
        assert(layer_matches(layers[i], specs[i]));
    }
    assert forall|i: int, j: int|
        0 <= i && j == i + 1 && j < layers.len() implies (#[trigger] layers[i]).ncols == (
    #[trigger] layers[j]).nnodes by {
        lemma_shape_err_none(specs, i);
        assert(layer_matches(layers[i], specs[i]));
        assert(layer_matches(layers[j], specs[j]));
    }
}

/// One activation applied elementwise.
pub open spec fn spec_activated<W: WeightOps>(ops: W, a: Activation, x: Seq<u64>) -> Seq<u64> {
    Seq::new(x.len(), |i: int| ops.sact(a, x[i]))
}

/// The forward pass: each layer applies its activation elementwise, then a
/// non-output layer multiplies the running vector by its weight matrix.  The
/// output layer emits the activated vector as it stands.
pub open spec fn spec_forward<W: WeightOps>(ops: W, layers: Seq<Layer>, x: Seq<u64>) -> Seq<u64>
    decreases layers.len(),
{
    if layers.len() == 0 {
        x
    } else {
        let y = spec_activated(ops, layers[0].activation, x);
        if layers[0].output {
            spec_forward(ops, layers.drop_first(), y)
        } else {
            spec_forward(
                ops,
                layers.drop_first(),
                ops.smatvec(layers[0].weights@, y, layers[0].nnodes as int, layers[0].ncols as int),
            )
        }
    }
}

/// The forward pass is deterministic: its result is a function of the
/// backend, the network and the input alone, so two passes over the same
/// network and input return identical output vectors.
pub proof fn lemma_forward_deterministic<W: WeightOps>(
    ops: W,
    layers: Seq<Layer>,
    input: Seq<u64>,
    r1: Seq<u64>,
    r2: Seq<u64>,
)
    requires
        r1 == spec_forward(ops, layers, input),
        r2 == spec_forward(ops, layers, input),
    ensures
        r1 == r2,
{
}

impl MultilayerPerceptron {
    /// Does a forward pass through the network.
    ///
    /// The input must be as long as the input layer; the result is as long as
    /// the output layer, and is exactly the pass [`spec_forward`] describes.
    pub fn forward<W: WeightOps>(&self, input: &Vec<u64>, ops: &W) -> (r: Vec<u64>)
        requires
            self.wf(),
            input@.len() == self.layers@[0].nnodes,
        ensures
            r@ == spec_forward(*ops, self.layers@, input@),
            r@.len() == self.layers@[self.layers@.len() - 1].nnodes,
    {
        let ghost whole = self.layers@;
        let mut x = clone_weights(input);
        let mut i: usize = 0;
        proof {
            assert(self.layers@.skip(0) =~= self.layers@);
        }
        while i < self.layers.len()
            invariant
                0 <= i <= self.layers@.len(),
                self.wf(),
                x@.len() == (if i < self.layers@.len() {
                    self.layers@[i as int].nnodes
                } else {
                    self.layers@[self.layers@.len() - 1].nnodes
                }),
                spec_forward(*ops, self.layers@, input@) == spec_forward(
                    *ops,
                    self.layers@.skip(i as int),
                    x@,
                ),
            decreases self.layers@.len() - i,
        {
            let ghost rest = self.layers@.skip(i as int);
            let a = self.layers[i].activation;
            let mut y: Vec<u64> = Vec::new();
            let mut k: usize = 0;
            while k < x.len()
                invariant
                    0 <= k <= x@.len(),
                    y@.len() == k,
                    a == self.layers@[i as int].activation,
                    i < self.layers@.len(),
                    forall|t: int| 0 <= t < k ==> y@[t] == ops.sact(a, x@[t]),
                decreases x@.len() - k,
            {
                y.push(ops.act(a, x[k]));
                k = k + 1;
            }
            proof {
                assert(y@ =~= spec_activated(*ops, a, x@));
                assert(rest[0] == self.layers@[i as int]);
                assert(rest.drop_first() =~= self.layers@.skip(i as int + 1));
            }
            if self.layers[i].output {
                proof {
                    assert(i == self.layers@.len() - 1);
                }
                x = y;
            } else {
                let nrows = self.layers[i].nnodes;
                let ncols = self.layers[i].ncols;
                proof {
                    ops.lemma_matvec_len(self.layers@[i as int].weights@, y@, nrows as int, ncols as int);
                }
                x = ops.matvec(&self.layers[i].weights, &y, nrows, ncols);
            }
            i = i + 1;
        }
        proof {
            assert(self.layers@.skip(self.layers@.len() as int) =~= Seq::<Layer>::empty());
        }
        x
    }

    /// Clones this network and perturbs the clone's weights.
    ///
    /// The backend turns the fraction into a number of draws; each draw picks
    /// a layer among those that carry weights, then a row and a column, all
    /// uniformly, and replaces that entry of the clone with a Gaussian sample
    /// centred on the entry's value in `self` (so duplicate picks are each
    /// computed against the original weights; the last write wins).  The
    /// fraction may not exceed one: that is the caller's contract, and
    /// [`MultilayerPerceptron::checked_mutate`] is the total form that tests
    /// it first.
    pub fn mutate<W: WeightOps>(
        &self,
        rng: &mut rand::rngs::StdRng,
        fraction: u64,
        stdev: u64,
        ops: &W,
    ) -> (m: Self)
        requires
            self.wf(),
            self.mutable(),
            ops.sle(fraction, BITS_ONE),
        ensures
            m.wf(),
            m.mutable(),
            spec_same_topology(m.layers@, self.layers@),
            spec_net_diffs(m.layers@, self.layers@) <= ops.smut_count(
                spec_nweights(self.layers@) as usize,
                fraction,
            ),
            ops.smut_count(spec_nweights(self.layers@) as usize, fraction) == 0 ==> spec_net_eqv(
                m.layers@,
                self.layers@,
            ),
    {
        let mut m = self.clone();
        proof {
            lemma_eqv_wf(m.layers@, self.layers@);
            lemma_net_diffs_eqv(m.layers@, self.layers@);
        }
        let total = self.nweights();
        let n = ops.mut_count(total, fraction);
        if n == 0 || self.layers.len() <= 1 {
            return m;
        }
        let mut d: usize = 0;
        while d < n
            invariant
                self.wf(),
                self.mutable(),
                self.layers@.len() >= 2,
                m.wf(),
                m.mutable(),
                spec_same_topology(m.layers@, self.layers@),
                0 <= d <= n,
                n == ops.smut_count(spec_nweights(self.layers@) as usize, fraction),
                spec_net_diffs(m.layers@, self.layers@) <= d,
            decreases n - d,
        {
            let li = gen_index(rng, self.layers.len() - 1);
            let nrows = self.layers[li].nnodes;
            let ncols = self.layers[li].ncols;
            proof {
                assert(self.layers@[li as int].weights@.len() > 0);
                assert(nrows > 0 && ncols > 0) by (nonlinear_arith)
                    requires
                        nrows * ncols > 0,
                        nrows >= 0,
                        ncols >= 0,
                ;
            }
            let row = gen_index(rng, nrows);
            let col = gen_index(rng, ncols);
            let wlen = self.layers[li].weights.len();
            proof {
                assert(col * nrows + row < nrows * ncols) by (nonlinear_arith)
                    requires
                        0 <= row < nrows,
                        0 <= col < ncols,
                ;
                assert(nrows * ncols == wlen);
            }
            let idx = col * nrows + row;
            let orig = self.layers[li].weights[idx];
            let val = ops.gauss(rng, orig, stdev);
            let ghost prev = m.layers@;
            set_weight(&mut m, li, idx, val);
            proof {
                lemma_update_keeps_shape(prev, m.layers@, li as int);
                lemma_net_diffs_update(
                    prev,
                    m.layers@,
                    self.layers@,
                    li as int,
                    idx as int,
                    val,
                );
            }
            d = d + 1;
        }
        m
    }

    /// [`MultilayerPerceptron::mutate`], with its fraction bound tested at
    /// run time: a fraction above one is refused, never clamped.
    pub fn checked_mutate<W: WeightOps>(
        &self,
        rng: &mut rand::rngs::StdRng,
        fraction: u64,
        stdev: u64,
        ops: &W,
    ) -> (r: Option<Self>)
        requires
            self.wf(),
            self.mutable(),
        ensures
            r is Some <==> ops.sle(fraction, BITS_ONE),
            match r {
                Option::Some(m) => m.wf() && m.mutable() && spec_same_topology(
                    m.layers@,
                    self.layers@,
                ) && spec_net_diffs(m.layers@, self.layers@) <= ops.smut_count(
                    spec_nweights(self.layers@) as usize,
                    fraction,
                ) && (ops.smut_count(spec_nweights(self.layers@) as usize, fraction) == 0
                    ==> spec_net_eqv(m.layers@, self.layers@)),
                Option::None => true,
            },
    {
        if ops.le(fraction, BITS_ONE) {
            Some(self.mutate(rng, fraction, stdev, ops))
        } else {
            None
        }
    }
}

/// Replaces one weight entry of one layer, leaving every shape as it is.
fn set_weight(m: &mut MultilayerPerceptron, li: usize, idx: usize, val: u64)
    requires
        li < old(m).layers@.len(),
        idx < old(m).layers@[li as int].weights@.len(),
    ensures
        final(m).layers@.len() == old(m).layers@.len(),
        final(m).layers@[li as int].nnodes == old(m).layers@[li as int].nnodes,
        final(m).layers@[li as int].activation == old(m).layers@[li as int].activation,
        final(m).layers@[li as int].output == old(m).layers@[li as int].output,
        final(m).layers@[li as int].ncols == old(m).layers@[li as int].ncols,
        final(m).layers@[li as int].weights@ == old(m).layers@[li as int].weights@.update(
            idx as int,
            val,
        ),
        forall|t: int|
            0 <= t < final(m).layers@.len() && t != li ==> #[trigger] final(m).layers@[t] == old(
                m,
            ).layers@[t],
{
    let ghost before = m.layers@;
    let mut layer = m.layers.remove(li);
    let ghost old_w = layer.weights@;
    let mut ws = layer.weights;
    let _removed: u64 = ws.remove(idx);
    ws.insert(idx, val);
    proof {
        assert(ws@ =~= old_w.update(idx as int, val));
    }
    let layer2 = Layer {
        nnodes: layer.nnodes,
        activation: layer.activation,
        output: layer.output,
        ncols: layer.ncols,
        weights: ws,
    };
    m.layers.insert(li, layer2);
    proof {
        assert(forall|t: int|
            0 <= t < m.layers@.len() && t != li ==> #[trigger] m.layers@[t] == before[t]);
    }
}

/// A stack that differs from a well-formed one only in the weight values of
/// one layer is well formed in the same way.
proof fn lemma_update_keeps_shape(b: Seq<Layer>, a: Seq<Layer>, li: int)
    requires
        a.len() == b.len(),
        0 <= li < b.len(),
        forall|t: int| 0 <= t < a.len() && t != li ==> #[trigger] a[t] == b[t],
        a[li].nnodes == b[li].nnodes,
        a[li].activation == b[li].activation,
        a[li].output == b[li].output,
        a[li].ncols == b[li].ncols,
        a[li].weights@.len() == b[li].weights@.len(),
        forall|i: int| 0 <= i < b.len() ==> (#[trigger] b[i]).wf(),
        forall|i: int| 0 <= i < b.len() ==> ((#[trigger] b[i]).output <==> i == b.len() - 1),
        forall|i: int, j: int|
            0 <= i && j == i + 1 && j < b.len() ==> (#[trigger] b[i]).ncols == (
        #[trigger] b[j]).nnodes,
        forall|i: int| 0 <= i < b.len() - 1 ==> (#[trigger] b[i]).weights@.len() > 0,
        spec_nweights(b) <= usize::MAX,
        spec_same_topology(b, b),
    ensures
        forall|i: int| 0 <= i < a.len() ==> (#[trigger] a[i]).wf(),
        forall|i: int| 0 <= i < a.len() ==> ((#[trigger] a[i]).output <==> i == a.len() - 1),
        forall|i: int, j: int|
            0 <= i && j == i + 1 && j < a.len() ==> (#[trigger] a[i]).ncols == (
        #[trigger] a[j]).nnodes,
        forall|i: int| 0 <= i < a.len() - 1 ==> (#[trigger] a[i]).weights@.len() > 0,
        spec_nweights(a) <= usize::MAX,
        spec_same_topology(a, b),
{
    assert forall|i: int| 0 <= i < a.len() implies (#[trigger] a[i]).wf() by {
        assert(b[i].wf());
    }
    assert forall|i: int| 0 <= i < a.len() implies ((#[trigger] a[i]).output <==> i == a.len()
        - 1) by {
        assert(b[i].output <==> i == b.len() - 1);
    }
    assert forall|i: int, j: int|
        0 <= i && j == i + 1 && j < a.len() implies (#[trigger] a[i]).ncols == (
    #[trigger] a[j]).nnodes by {
        assert(b[i].ncols == b[j].nnodes);
    }
    assert forall|i: int| 0 <= i < a.len() - 1 implies (#[trigger] a[i]).weights@.len() > 0 by {
        assert(b[i].weights@.len() > 0);
    }
    lemma_nweights_lens(a, b);
}

/// Stacks whose layers store equally many weights have equal weight counts.
proof fn lemma_nweights_lens(a: Seq<Layer>, b: Seq<Layer>)
    requires
        a.len() == b.len(),
        forall|i: int| 0 <= i < a.len() ==> (#[trigger] a[i]).weights@.len() == b[i].weights@.len(),
    ensures
        spec_nweights(a) == spec_nweights(b),
    decreases a.len(),
{
    if a.len() > 0 {
        assert(a[0].weights@.len() == b[0].weights@.len());
        assert forall|i: int|
            0 <= i < a.drop_first().len() implies (#[trigger] a.drop_first()[i]).weights@.len()
            == b.drop_first()[i].weights@.len() by {
            assert(a.drop_first()[i] == a[i + 1] && b.drop_first()[i] == b[i + 1]);
            assert(a[i + 1].weights@.len() == b[i + 1].weights@.len());
        }
        lemma_nweights_lens(a.drop_first(), b.drop_first());
    }
}

/// Equal stacks carry well-formedness across.
pub proof fn lemma_eqv_wf(a: Seq<Layer>, b: Seq<Layer>)
    requires
        spec_net_eqv(a, b),
        forall|i: int| 0 <= i < b.len() ==> (#[trigger] b[i]).wf(),
        forall|i: int| 0 <= i < b.len() ==> ((#[trigger] b[i]).output <==> i == b.len() - 1),
        forall|i: int, j: int|
            0 <= i && j == i + 1 && j < b.len() ==> (#[trigger] b[i]).ncols == (#[trigger] b[j]).nnodes,
    ensures
        spec_same_topology(a, b),
        forall|i: int| 0 <= i < a.len() ==> (#[trigger] a[i]).wf(),
        forall|i: int| 0 <= i < a.len() ==> ((#[trigger] a[i]).output <==> i == a.len() - 1),
        forall|i: int, j: int|
            0 <= i && j == i + 1 && j < a.len() ==> (#[trigger] a[i]).ncols == (#[trigger] a[j]).nnodes,
        spec_nweights(a) == spec_nweights(b),
{
    assert forall|i: int| 0 <= i < a.len() implies (#[trigger] a[i]).wf() by {
        assert(layer_eqv(a[i], b[i]));
    }
    assert forall|i: int| 0 <= i < a.len() implies ((#[trigger] a[i]).output <==> i == a.len()
        - 1) by {
        assert(layer_eqv(a[i], b[i]));
    }
    assert forall|i: int, j: int|
        0 <= i && j == i + 1 && j < a.len() implies (#[trigger] a[i]).ncols == (
    #[trigger] a[j]).nnodes by {
        assert(layer_eqv(a[i], b[i]));
        assert(layer_eqv(a[j], b[j]));
    }
    assert forall|i: int| 0 <= i < a.len() implies (#[trigger] a[i]).nnodes == b[i].nnodes
        && a[i].activation == b[i].activation && a[i].output == b[i].output && a[i].ncols
        == b[i].ncols by {
        assert(layer_eqv(a[i], b[i]));
    }
    lemma_nweights_eqv(a, b);
}

/// A mutation fraction the backend places above one is refused, never
/// clamped: any result [`MultilayerPerceptron::checked_mutate`]'s contract
/// admits for such a fraction is the refusal, and
/// [`MultilayerPerceptron::mutate`]'s own precondition excludes the fraction
/// outright.
pub proof fn lemma_mutate_refuses_large_fraction<W: WeightOps>(
    ops: W,
    fraction: u64,
    r: Option<MultilayerPerceptron>,
)
    requires
        !ops.sle(fraction, BITS_ONE),
        r is Some <==> ops.sle(fraction, BITS_ONE),
    ensures
        r is None,
{
}

/// The controller recipe: three inputs passed through linearly, two hidden
/// layers of twenty-five nodes under the hyperbolic tangent, and three linear
/// output nodes - 775 trainable weights in all.
pub open spec fn spec_controller_recipe(net: MultilayerPerceptron) -> bool {
    &&& net.wf()
    &&& net.mutable()
    &&& net.layers@.len() == 4
    &&& net.layers@[0].nnodes == 3
    &&& net.layers@[1].nnodes == 25
    &&& net.layers@[2].nnodes == 25
    &&& net.layers@[3].nnodes == 3
    &&& net.layers@[0].activation == Activation::Linear
    &&& net.layers@[1].activation == Activation::Tanh
    &&& net.layers@[2].activation == Activation::Tanh
    &&& net.layers@[3].activation == Activation::Linear
    &&& net.spec_input_length() == 3
    &&& spec_nweights(net.layers@) == 775
}

/// Builds the controller network of the experiment, to the recipe
/// [`spec_controller_recipe`] states, with every trainable weight drawn from
/// the uniform distribution over `[low, high]`.
pub fn build_network<W: WeightOps>(
    low: u64,
    high: u64,
    rng: &mut rand::rngs::StdRng,
    ops: &W,
) -> (net: MultilayerPerceptron)
    ensures
        spec_controller_recipe(net),
{
    let mut specs: Vec<LayerSpec> = Vec::new();
    specs.push(LayerSpec { nnodes: 3, activation: Activation::Linear, connect: Some(25) });
    specs.push(LayerSpec { nnodes: 25, activation: Activation::Tanh, connect: Some(25) });
    specs.push(LayerSpec { nnodes: 25, activation: Activation::Tanh, connect: Some(3) });
    specs.push(LayerSpec { nnodes: 3, activation: Activation::Linear, connect: None });
    proof {
        assert(spec_shape_err_from(specs@, 0) is None) by {
            reveal_with_fuel(spec_shape_err_from, 5);
        }
        assert(spec_specs_total(specs@) == 775) by {
            reveal_with_fuel(spec_specs_total, 5);
            assert(specs@.drop_first()[0] == specs@[1]);
            assert(specs@.drop_first().drop_first()[0] == specs@[2]);
            assert(specs@.drop_first().drop_first().drop_first()[0] == specs@[3]);
            assert(specs@.drop_first().drop_first().drop_first().drop_first()
                =~= Seq::<LayerSpec>::empty());
        }
    }
    let net = match build(&specs, low, high, rng, ops) {
        Result::Ok(net) => net,
        Result::Err(_) => {
            proof {
                assert(false);
            }
            MultilayerPerceptron { layers: Vec::new() }
        },
    };
    proof {
        assert(layer_matches(net.layers@[0], specs@[0]));
        assert(layer_matches(net.layers@[1], specs@[1]));
        assert(layer_matches(net.layers@[2], specs@[2]));
        assert(layer_matches(net.layers@[3], specs@[3]));
        assert(net.layers@[0].wf() && net.layers@[1].wf() && net.layers@[2].wf());
        assert(net.layers@[0].weights@.len() == 75);
        assert(net.layers@[1].weights@.len() == 625);
        assert(net.layers@[2].weights@.len() == 75);
    }
    net
}

} // verus!
