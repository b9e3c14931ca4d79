//! The textual weight format.
//!
//! One line per non-output layer, in layer order: the layer's weights in
//! column-major order, each written by the backend and followed by one space,
//! the line closed by one newline.  The output layer contributes nothing.
//! Reading is forgiving: missing lines or missing tokens leave the remaining
//! weights as they were, extra lines and extra tokens are ignored; only a
//! malformed token among those consumed is an error, reported with the token.

use vstd::prelude::*;

use crate::arith::WeightOps;
use crate::network::{Layer, MultilayerPerceptron, spec_nweights, spec_same_topology};
use crate::text::{lemma_split_join_trailing, spec_is_sep, spec_join_trailing, spec_split, split_runs};

verus! {

/// A malformed numeric token found while reading weights.
#[derive(Debug)]
pub struct SerializationError {
    /// The offending token.
    pub token: Vec<u8>,
}

/// One layer's line: each weight written by the backend, a space after each.
pub open spec fn spec_line<W: WeightOps>(ops: W, ws: Seq<u64>) -> Seq<u8>
    decreases ws.len(),
{
    if ws.len() == 0 {
        Seq::empty()
    } else {
        ops.sfmt(ws[0]) + seq![32u8] + spec_line(ops, ws.drop_first())
    }
}

/// The whole text: the non-output layers' lines, a newline after each.
pub open spec fn spec_serialized<W: WeightOps>(ops: W, layers: Seq<Layer>) -> Seq<u8>
    decreases layers.len(),
{
    if layers.len() == 0 {
        Seq::empty()
    } else if layers[0].output {
        spec_serialized(ops, layers.drop_first())
    } else {
        spec_line(ops, layers[0].weights@) + seq![10u8] + spec_serialized(
            ops,
            layers.drop_first(),
        )
    }
}

/// The tokens a layer of `nw` weights consumes from its line.
pub open spec fn spec_consumed(toks: Seq<Seq<u8>>, nw: int) -> Seq<Seq<u8>> {
    if toks.len() <= nw {
        toks
    } else {
        toks.take(nw)
    }
}

/// The first token the backend cannot read, if any.
pub open spec fn spec_first_bad<W: WeightOps>(ops: W, toks: Seq<Seq<u8>>) -> Option<Seq<u8>>
    decreases toks.len(),
{
    if toks.len() == 0 {
        None
    } else if ops.sparse(toks[0]) is None {
        Some(toks[0])
    } else {
        spec_first_bad(ops, toks.drop_first())
    }
}

/// The weights a layer holds after reading its tokens: each consumed token
/// that the backend reads replaces the weight at its position; the rest stay.
pub open spec fn spec_patched<W: WeightOps>(ops: W, ws: Seq<u64>, toks: Seq<Seq<u8>>) -> Seq<u64> {
    Seq::new(
        ws.len(),
        |i: int|
            if 0 <= i < toks.len() && ops.sparse(toks[i]) is Some {
                ops.sparse(toks[i])->Some_0
            } else {
                ws[i]
            },
    )
}

/// The line a layer reads, as tokens: its own line if the text has one.
pub open spec fn spec_layer_toks(lines: Seq<Seq<u8>>, k: int) -> Seq<Seq<u8>> {
    if 0 <= k < lines.len() {
        spec_split(lines[k], false)
    } else {
        Seq::empty()
    }
}

/// The first malformed consumed token over the non-output layers from
/// position `k` on, if any.
pub open spec fn spec_net_bad<W: WeightOps>(
    ops: W,
    layers: Seq<Layer>,
    lines: Seq<Seq<u8>>,
    k: int,
) -> Option<Seq<u8>>
    decreases layers.len() - k,
{
    if k >= layers.len() - 1 {
        None
    } else {
        let c = spec_consumed(spec_layer_toks(lines, k), layers[k].weights@.len() as int);
        match spec_first_bad(ops, c) {
            Option::Some(t) => Some(t),
            Option::None => spec_net_bad(ops, layers, lines, k + 1),
        }
    }
}

/// The first non-output layer whose consumed tokens hold a malformed one,
/// looking from position `k` on.
pub open spec fn spec_bad_layer<W: WeightOps>(
    ops: W,
    layers: Seq<Layer>,
    lines: Seq<Seq<u8>>,
    k: int,
) -> Option<int>
    decreases layers.len() - k,
{
    if k >= layers.len() - 1 {
        None
    } else {
        let c = spec_consumed(spec_layer_toks(lines, k), layers[k].weights@.len() as int);
        match spec_first_bad(ops, c) {
            Option::Some(_) => Some(k),
            Option::None => spec_bad_layer(ops, layers, lines, k + 1),
        }
    }
}

proof fn lemma_first_bad_none<W: WeightOps>(ops: W, toks: Seq<Seq<u8>>)
    requires
        forall|i: int| 0 <= i < toks.len() ==> ops.sparse(#[trigger] toks[i]) is Some,
    ensures
        spec_first_bad(ops, toks) is None,
    decreases toks.len(),
{
    if toks.len() > 0 {
        assert forall|i: int|
            0 <= i < toks.drop_first().len() implies ops.sparse(
            #[trigger] toks.drop_first()[i],
        ) is Some by {
            assert(toks.drop_first()[i] == toks[i + 1]);
        }
        lemma_first_bad_none(ops, toks.drop_first());
    }
}

proof fn lemma_first_bad_at<W: WeightOps>(ops: W, toks: Seq<Seq<u8>>, i: int)
    requires
        0 <= i < toks.len(),
        forall|t: int| 0 <= t < i ==> ops.sparse(#[trigger] toks[t]) is Some,
        ops.sparse(toks[i]) is None,
    ensures
        spec_first_bad(ops, toks) == Some(toks[i]),
    decreases i,
{
    if i > 0 {
        assert forall|t: int|
            0 <= t < i - 1 implies ops.sparse(#[trigger] toks.drop_first()[t]) is Some by {
            assert(toks.drop_first()[t] == toks[t + 1]);
        }
        assert(toks.drop_first()[i - 1] == toks[i]);
        lemma_first_bad_at(ops, toks.drop_first(), i - 1);
    }
}

impl Layer {
    /// Writes this layer's weights as one line: each weight in column-major
    /// order, a space after each.
    pub fn serialize_weights<W: WeightOps>(&self, ops: &W) -> (r: Vec<u8>)
        ensures
            r@ == spec_line(*ops, self.weights@),
    {
        let mut r: Vec<u8> = Vec::new();
        let mut i: usize = 0;
        proof {
            assert(self.weights@.take(0) =~= Seq::<u64>::empty());
        }
        while i < self.weights.len()
            invariant
                0 <= i <= self.weights@.len(),
                r@ == spec_line(*ops, self.weights@.take(i as int)),
            decreases self.weights@.len() - i,
        {
            proof {
                assert(self.weights@.take(i as int).push(self.weights@[i as int])
                    =~= self.weights@.take(i as int + 1));
                lemma_line_push(*ops, self.weights@.take(i as int), self.weights@[i as int]);
            }
            let mut tok = ops.fmt(self.weights[i]);
            r.append(&mut tok);
            r.push(32);
            proof {
                assert(r@ =~= spec_line(*ops, self.weights@.take(i as int)) + ops.sfmt(
                    self.weights@[i as int],
                ) + seq![32u8]);
            }
            i = i + 1;
        }
        proof {
            assert(self.weights@.take(i as int) =~= self.weights@);
        }
        r
    }

    /// Reads one line's tokens into this layer's weights.
    ///
    /// Consumed tokens replace the leading weights one for one; missing
    /// tokens leave the rest untouched, extra tokens are ignored.  On the
    /// first malformed consumed token nothing changes and the token is
    /// returned.
    pub fn deserialize_weights<W: WeightOps>(&mut self, line: &[u8], ops: &W) -> (r: Result<
        (),
        SerializationError,
    >)
        ensures
            final(self).nnodes == old(self).nnodes,
            final(self).activation == old(self).activation,
            final(self).output == old(self).output,
            final(self).ncols == old(self).ncols,
            final(self).weights@.len() == old(self).weights@.len(),
            match r {
                Result::Ok(()) => spec_first_bad(
                    *ops,
                    spec_consumed(spec_split(line@, false), old(self).weights@.len() as int),
                ) is None && final(self).weights@ == spec_patched(
                    *ops,
                    old(self).weights@,
                    spec_split(line@, false),
                ),
                Result::Err(e) => spec_first_bad(
                    *ops,
                    spec_consumed(spec_split(line@, false), old(self).weights@.len() as int),
                ) == Some(e.token@) && *final(self) == *old(self),
            },
    {
        let toks = split_runs(line, false);
        let ghost stoks = spec_split(line@, false);
        let ghost consumed = spec_consumed(stoks, self.weights@.len() as int);
        let nw = self.weights.len();
        let mut w: Vec<u64> = Vec::new();
        let mut i: usize = 0;
        while i < nw
            invariant
                0 <= i <= nw,
                *self == *old(self),
                nw == self.weights@.len(),
                stoks == spec_split(line@, false),
                stoks == toks@.map_values(|t: Vec<u8>| t@),
                consumed == spec_consumed(stoks, nw as int),
                w@.len() == i,
                forall|t: int|
                    0 <= t < i ==> #[trigger] w@[t] == spec_patched(*ops, self.weights@, stoks)[t],
                forall|t: int| 0 <= t < i && t < stoks.len() ==> ops.sparse(#[trigger] stoks[t]) is Some,
            decreases nw - i,
        {
            if i < toks.len() {
                proof {
                    assert(stoks[i as int] == toks@.map_values(|t: Vec<u8>| t@)[i as int]);
                }
                match ops.parse(toks[i].as_slice()) {
                    Option::Some(v) => {
                        w.push(v);
                    },
                    Option::None => {
                        proof {
                            assert(consumed.len() > i);
                            assert forall|t: int|
                                0 <= t < i implies ops.sparse(#[trigger] consumed[t]) is Some by {
                                assert(consumed[t] == stoks[t]);
                            }
                            assert(consumed[i as int] == stoks[i as int]);
                            assert(ops.sparse(stoks[i as int]) is None);
                            lemma_first_bad_at(*ops, consumed, i as int);
                            assert(spec_first_bad(*ops, consumed) == Some(stoks[i as int]));
                        }
                        let tokc = clone_token(&toks[i]);
                        proof {
                            assert(tokc@ == stoks[i as int]);
                        }
                        return Err(SerializationError { token: tokc });
                    },
                }
            } else {
                w.push(self.weights[i]);
            }
            i = i + 1;
        }
        proof {
            assert(w@ =~= spec_patched(*ops, self.weights@, stoks));
            assert forall|t: int|
                0 <= t < consumed.len() implies ops.sparse(#[trigger] consumed[t]) is Some by {
                assert(consumed[t] == stoks[t]);
            }
            lemma_first_bad_none(*ops, consumed);
        }
        self.weights = w;
        Ok(())
    }
}

fn clone_token(t: &Vec<u8>) -> (r: Vec<u8>)
    ensures
        r@ == t@,
{
    let mut r: Vec<u8> = Vec::new();
    let mut i: usize = 0;
    while i < t.len()
        invariant
            0 <= i <= t@.len(),
            r@ =~= t@.take(i as int),
        decreases t@.len() - i,
    {
        r.push(t[i]);
        proof {
            assert(r@ =~= t@.take(i as int + 1));
        }
        i = i + 1;
    }
    proof {
        assert(r@ =~= t@);
    }
    r
}

proof fn lemma_line_push<W: WeightOps>(ops: W, ws: Seq<u64>, w: u64)
    ensures
        spec_line(ops, ws.push(w)) == spec_line(ops, ws) + ops.sfmt(w) + seq![32u8],
    decreases ws.len(),
{
    let p = ws.push(w);
    if ws.len() == 0 {
        assert(p[0] == w);
        assert(p.drop_first() =~= Seq::<u64>::empty());
        assert(spec_line(ops, p) == ops.sfmt(p[0]) + seq![32u8] + spec_line(ops, p.drop_first()));
        assert(spec_line(ops, p) =~= Seq::<u8>::empty() + ops.sfmt(w) + seq![32u8]);
    } else {
        assert(p[0] == ws[0]);
        assert(p.drop_first() =~= ws.drop_first().push(w));
        lemma_line_push(ops, ws.drop_first(), w);
        assert(spec_line(ops, p) == ops.sfmt(p[0]) + seq![32u8] + spec_line(ops, p.drop_first()));
        assert(spec_line(ops, ws) == ops.sfmt(ws[0]) + seq![32u8] + spec_line(
            ops,
            ws.drop_first(),
        ));
        assert(ops.sfmt(ws[0]) + seq![32u8] + (spec_line(ops, ws.drop_first()) + ops.sfmt(w)
            + seq![32u8]) =~= (ops.sfmt(ws[0]) + seq![32u8] + spec_line(ops, ws.drop_first()))
            + ops.sfmt(w) + seq![32u8]);
    }
}

proof fn lemma_serialized_push_line<W: WeightOps>(ops: W, layers: Seq<Layer>, l: Layer)
    requires
        forall|i: int| 0 <= i < layers.len() ==> !(#[trigger] layers[i]).output,
        !l.output,
    ensures
        spec_serialized(ops, layers.push(l)) == spec_serialized(ops, layers) + spec_line(
            ops,
            l.weights@,
        ) + seq![10u8],
    decreases layers.len(),
{
    let p = layers.push(l);
    if layers.len() == 0 {
        assert(p[0] == l);
        assert(p.drop_first() =~= Seq::<Layer>::empty());
        assert(spec_serialized(ops, p.drop_first()) =~= Seq::<u8>::empty());
        assert(spec_serialized(ops, p) == spec_line(ops, p[0].weights@) + seq![10u8]
            + spec_serialized(ops, p.drop_first()));
        assert(spec_serialized(ops, layers) =~= Seq::<u8>::empty());
        assert(spec_line(ops, l.weights@) + seq![10u8] + spec_serialized(ops, p.drop_first())
            =~= spec_serialized(ops, layers) + spec_line(ops, l.weights@) + seq![10u8]);
    } else {
        assert(p[0] == layers[0]);
        assert(!layers[0].output);
        assert(p.drop_first() =~= layers.drop_first().push(l));
        assert forall|i: int|
            0 <= i < layers.drop_first().len() implies !(#[trigger] layers.drop_first()[i]).output by {
            assert(layers.drop_first()[i] == layers[i + 1]);
        }
        lemma_serialized_push_line(ops, layers.drop_first(), l);
        assert(spec_serialized(ops, p) == spec_line(ops, p[0].weights@) + seq![10u8]
            + spec_serialized(ops, p.drop_first()));
        assert(spec_serialized(ops, layers) == spec_line(ops, layers[0].weights@) + seq![10u8]
            + spec_serialized(ops, layers.drop_first()));
        assert(spec_line(ops, layers[0].weights@) + seq![10u8] + (spec_serialized(
            ops,
            layers.drop_first(),
        ) + spec_line(ops, l.weights@) + seq![10u8]) =~= (spec_line(ops, layers[0].weights@)
            + seq![10u8] + spec_serialized(ops, layers.drop_first())) + spec_line(ops, l.weights@)
            + seq![10u8]);
    }
}

/// A final output layer adds nothing to the text.
proof fn lemma_serialized_output_end<W: WeightOps>(ops: W, layers: Seq<Layer>)
    requires
        layers.len() >= 1,
        layers[layers.len() - 1].output,
        forall|i: int| 0 <= i < layers.len() - 1 ==> !(#[trigger] layers[i]).output,
    ensures
        spec_serialized(ops, layers) == spec_serialized(ops, layers.take(layers.len() - 1)),
    decreases layers.len(),
{
    if layers.len() == 1 {
        assert(layers.take(0) =~= Seq::<Layer>::empty());
        assert(layers.drop_first() =~= Seq::<Layer>::empty());
    } else {
        assert(!layers[0].output);
        let d = layers.drop_first();
        assert(d[d.len() - 1] == layers[layers.len() - 1]);
        assert forall|i: int| 0 <= i < d.len() - 1 implies !(#[trigger] d[i]).output by {
            assert(d[i] == layers[i + 1]);
        }
        lemma_serialized_output_end(ops, d);
        assert(d.take(d.len() - 1) =~= layers.take(layers.len() - 1).drop_first());
        assert(layers.take(layers.len() - 1)[0] == layers[0]);
        assert(spec_serialized(ops, layers.take(layers.len() - 1)) == spec_line(
            ops,
            layers[0].weights@,
        ) + seq![10u8] + spec_serialized(ops, layers.take(layers.len() - 1).drop_first()));
    }
}

impl MultilayerPerceptron {
    /// Writes this network's weights in the textual format: one line per
    /// non-output layer, in layer order; the output layer contributes
    /// nothing.
    pub fn serialize_weights<W: WeightOps>(&self, ops: &W) -> (r: Vec<u8>)
        requires
            self.wf(),
        ensures
            r@ == spec_serialized(*ops, self.layers@),
    {
        let mut r: Vec<u8> = Vec::new();
        let mut k: usize = 0;
        let n1 = self.layers.len() - 1;
        proof {
            assert(self.layers@.take(0) =~= Seq::<Layer>::empty());
        }
        while k < n1
            invariant
                0 <= k <= n1,
                n1 == self.layers@.len() - 1,
                self.wf(),
                r@ == spec_serialized(*ops, self.layers@.take(k as int)),
            decreases n1 - k,
        {
            proof {
                assert(self.layers@.take(k as int).push(self.layers@[k as int])
                    =~= self.layers@.take(k as int + 1));
                assert forall|i: int|
                    0 <= i < self.layers@.take(k as int).len() implies !(#[trigger] self.layers@
                    .take(k as int)[i]).output by {
                    assert(self.layers@.take(k as int)[i] == self.layers@[i]);
                }
                assert(!self.layers@[k as int].output);
                lemma_serialized_push_line(
                    *ops,
                    self.layers@.take(k as int),
                    self.layers@[k as int],
                );
            }
            let mut line = self.layers[k].serialize_weights(ops);
            r.append(&mut line);
            r.push(10);
            proof {
                assert(r@ =~= spec_serialized(*ops, self.layers@.take(k as int)) + spec_line(
                    *ops,
                    self.layers@[k as int].weights@,
                ) + seq![10u8]);
            }
            k = k + 1;
        }
        proof {
            assert forall|i: int|
                0 <= i < self.layers@.len() - 1 implies !(#[trigger] self.layers@[i]).output by {
            }
            lemma_serialized_output_end(*ops, self.layers@);
        }
        r
    }

    /// Reads the textual weight format into this network's weights, line by
    /// line in layer order.
    ///
    /// Missing lines leave the later layers untouched; extra lines are
    /// ignored.  The first malformed consumed token stops the read: the
    /// layers before it keep their newly read weights, the offending layer
    /// and those after it keep their old ones, and the token is returned.
    pub fn deserialize_weights<W: WeightOps>(&mut self, text: &[u8], ops: &W) -> (r: Result<
        (),
        SerializationError,
    >)
        requires
            old(self).wf(),
        ensures
            final(self).wf(),
            final(self).mutable() == old(self).mutable(),
            spec_same_topology(final(self).layers@, old(self).layers@),
            final(self).layers@.len() == old(self).layers@.len(),
            final(self).layers@[final(self).layers@.len() - 1] == old(self).layers@[old(
                self,
            ).layers@.len() - 1],
            match r {
                Result::Ok(()) => spec_net_bad(
                    *ops,
                    old(self).layers@,
                    spec_split(text@, true),
                    0,
                ) is None && (forall|k: int|
                    0 <= k < old(self).layers@.len() - 1
                        ==> (#[trigger] final(self).layers@[k]).weights@ == spec_patched(
                        *ops,
                        old(self).layers@[k].weights@,
                        spec_layer_toks(spec_split(text@, true), k),
                    )),
                Result::Err(e) => spec_net_bad(*ops, old(self).layers@, spec_split(text@, true), 0)
                    == Some(e.token@) && (spec_bad_layer(
                    *ops,
                    old(self).layers@,
                    spec_split(text@, true),
                    0,
                ) matches Option::Some(kb) && (forall|k: int|
                    0 <= k < kb ==> (#[trigger] final(self).layers@[k]).weights@ == spec_patched(
                        *ops,
                        old(self).layers@[k].weights@,
                        spec_layer_toks(spec_split(text@, true), k),
                    )) && (forall|k: int|
                    kb <= k < old(self).layers@.len() ==> #[trigger] final(self).layers@[k] == old(
                        self,
                    ).layers@[k])),
            },
    {
        let ghost orig = self.layers@;
        let ghost slines = spec_split(text@, true);
        let lines = split_runs(text, true);
        let n1 = self.layers.len() - 1;
        let mut k: usize = 0;
        while k < n1
            invariant
                0 <= k <= n1,
                n1 == self.layers@.len() - 1,
                orig == old(self).layers@,
                self.layers@.len() == orig.len(),
                orig.len() >= 1,
                forall|i: int| 0 <= i < orig.len() ==> (#[trigger] orig[i]).wf(),
                forall|i: int|
                    0 <= i < orig.len() ==> ((#[trigger] orig[i]).output <==> i == orig.len() - 1),
                forall|i: int, j: int|
                    0 <= i && j == i + 1 && j < orig.len() ==> (#[trigger] orig[i]).ncols == (
                #[trigger] orig[j]).nnodes,
                spec_nweights(orig) <= usize::MAX,
                slines == spec_split(text@, true),
                slines == lines@.map_values(|t: Vec<u8>| t@),
                spec_net_bad(*ops, orig, slines, 0) == spec_net_bad(*ops, orig, slines, k as int),
                spec_bad_layer(*ops, orig, slines, 0) == spec_bad_layer(
                    *ops,
                    orig,
                    slines,
                    k as int,
                ),
                forall|t: int|
                    k <= t < orig.len() ==> #[trigger] self.layers@[t] == orig[t],
                forall|t: int|
                    0 <= t < k ==> (#[trigger] self.layers@[t]).weights@ == spec_patched(
                        *ops,
                        orig[t].weights@,
                        spec_layer_toks(slines, t),
                    ),
                forall|t: int|
                    0 <= t < k ==> (#[trigger] self.layers@[t]).nnodes == orig[t].nnodes
                        && self.layers@[t].activation == orig[t].activation
                        && self.layers@[t].output == orig[t].output && self.layers@[t].ncols
                        == orig[t].ncols && self.layers@[t].weights@.len() == orig[t].weights@.len(),
            decreases n1 - k,
        {
            let ghost before = self.layers@;
            let mut layer = self.layers.remove(k);
            let res = if k < lines.len() {
                proof {
                    assert(slines[k as int] == lines@.map_values(|t: Vec<u8>| t@)[k as int]);
                }
                layer.deserialize_weights(lines[k].as_slice(), ops)
            } else {
                proof {
                    assert(spec_layer_toks(slines, k as int) =~= Seq::<Seq<u8>>::empty());
                    assert(spec_consumed(Seq::<Seq<u8>>::empty(), layer.weights@.len() as int)
                        =~= Seq::<Seq<u8>>::empty());
                    assert(spec_patched(*ops, layer.weights@, Seq::<Seq<u8>>::empty())
                        =~= layer.weights@);
                }
                Ok(())
            };
            self.layers.insert(k, layer);
            proof {
                assert(self.layers@ =~= before.update(k as int, layer));
                assert(before[k as int] == orig[k as int]);
            }
            match res {
                Result::Ok(()) => {
                    proof {
                        if k < lines.len() {
                            assert(spec_layer_toks(slines, k as int) == spec_split(
                                slines[k as int],
                                false,
                            ));
                        }
                        assert(spec_net_bad(*ops, orig, slines, k as int) == spec_net_bad(
                            *ops,
                            orig,
                            slines,
                            k as int + 1,
                        ));
                        assert(spec_bad_layer(*ops, orig, slines, k as int) == spec_bad_layer(
                            *ops,
                            orig,
                            slines,
                            k as int + 1,
                        ));
                    }
                },
                Result::Err(e) => {
                    proof {
                        assert(spec_net_bad(*ops, orig, slines, k as int) == Some(e.token@));
                        assert(spec_bad_layer(*ops, orig, slines, k as int) == Some(k as int));
                        assert(self.layers@ =~= before);
                        assert forall|t: int|
                            0 <= t < self.layers@.len() implies (#[trigger] self.layers@[t]).nnodes
                            == orig[t].nnodes && self.layers@[t].activation == orig[t].activation
                            && self.layers@[t].output == orig[t].output && self.layers@[t].ncols
                            == orig[t].ncols && self.layers@[t].weights@.len()
                            == orig[t].weights@.len() by {
                            if t > k {
                                assert(self.layers@[t] == orig[t]);
                            }
                        }
                        lemma_deser_keeps_shape(orig, self.layers@);
                    }
                    return Err(e);
                },
            }
            k = k + 1;
        }
        proof {
            assert(spec_net_bad(*ops, orig, slines, n1 as int) is None);
            assert(self.layers@[n1 as int] == orig[n1 as int]);
            assert forall|t: int|
                0 <= t < self.layers@.len() implies (#[trigger] self.layers@[t]).nnodes
                == orig[t].nnodes && self.layers@[t].activation == orig[t].activation
                && self.layers@[t].output == orig[t].output && self.layers@[t].ncols
                == orig[t].ncols && self.layers@[t].weights@.len() == orig[t].weights@.len() by {
                if t >= n1 {
                    assert(self.layers@[t] == orig[t]);
                }
            }
            lemma_deser_keeps_shape(orig, self.layers@);
        }
        Ok(())
    }
}

/// A stack read from text keeps the original's whole shape.
proof fn lemma_deser_keeps_shape(b: Seq<Layer>, a: Seq<Layer>)
    requires
        a.len() == b.len(),
        b.len() >= 1,
        forall|t: int|
            0 <= t < a.len() ==> (#[trigger] a[t]).nnodes == b[t].nnodes && a[t].activation
                == b[t].activation && a[t].output == b[t].output && a[t].ncols == b[t].ncols
                && a[t].weights@.len() == b[t].weights@.len(),
        forall|i: int| 0 <= i < b.len() ==> (#[trigger] b[i]).wf(),
        forall|i: int| 0 <= i < b.len() ==> ((#[trigger] b[i]).output <==> i == b.len() - 1),
        forall|i: int, j: int|
            0 <= i && j == i + 1 && j < b.len() ==> (#[trigger] b[i]).ncols == (
        #[trigger] b[j]).nnodes,
        spec_nweights(b) <= usize::MAX,
    ensures
        spec_same_topology(a, b),
        forall|i: int| 0 <= i < a.len() ==> (#[trigger] a[i]).wf(),
        forall|i: int| 0 <= i < a.len() ==> ((#[trigger] a[i]).output <==> i == a.len() - 1),
        forall|i: int, j: int|
            0 <= i && j == i + 1 && j < a.len() ==> (#[trigger] a[i]).ncols == (
        #[trigger] a[j]).nnodes,
        spec_nweights(a) <= usize::MAX,
        (forall|i: int| 0 <= i < a.len() - 1 ==> (#[trigger] a[i]).weights@.len() > 0) <==> (
        forall|j: int| 0 <= j < b.len() - 1 ==> (#[trigger] b[j]).weights@.len() > 0),
{
    assert forall|i: int| 0 <= i < a.len() implies (#[trigger] a[i]).wf() by {
        assert(b[i].wf());
    }
    assert forall|i: int| 0 <= i < a.len() implies ((#[trigger] a[i]).output <==> i == a.len()
        - 1) by {
        assert(b[i].output <==> i == b.len() - 1);
    }
    assert forall|i: int, j: int|
        0 <= i && j == i + 1 && j < a.len() implies (#[trigger] a[i]).ncols == (
    #[trigger] a[j]).nnodes by {
        assert(b[i].ncols == b[j].nnodes);
    }
    lemma_nweights_lens_pub(a, b);
    if forall|i: int| 0 <= i < a.len() - 1 ==> (#[trigger] a[i]).weights@.len() > 0 {
        assert forall|i: int| 0 <= i < b.len() - 1 implies (#[trigger] b[i]).weights@.len() > 0 by {
            assert(a[i].weights@.len() > 0);
        }
    }
    if forall|i: int| 0 <= i < b.len() - 1 ==> (#[trigger] b[i]).weights@.len() > 0 {
        assert forall|i: int| 0 <= i < a.len() - 1 implies (#[trigger] a[i]).weights@.len() > 0 by {
            assert(b[i].weights@.len() > 0);
        }
    }
}

/// Stacks whose layers store equally many weights have equal weight counts.
proof fn lemma_nweights_lens_pub(a: Seq<Layer>, b: Seq<Layer>)
    requires
        a.len() == b.len(),
        forall|i: int| 0 <= i < a.len() ==> (#[trigger] a[i]).weights@.len() == b[i].weights@.len(),
    ensures
        spec_nweights(a) == spec_nweights(b),
    decreases a.len(),
{
    if a.len() > 0 {
        assert(a[0].weights@.len() == b[0].weights@.len());
        assert forall|i: int|
            0 <= i < a.drop_first().len() implies (#[trigger] a.drop_first()[i]).weights@.len()
            == b.drop_first()[i].weights@.len() by {
            assert(a.drop_first()[i] == a[i + 1] && b.drop_first()[i] == b[i + 1]);
            assert(a[i + 1].weights@.len() == b[i + 1].weights@.len());
        }
        lemma_nweights_lens_pub(a.drop_first(), b.drop_first());
    }
}

/// Every byte of a layer's line is a format byte or a space: never a newline,
/// and the line of a non-empty weight vector is non-empty.
proof fn lemma_line_bytes<W: WeightOps>(ops: W, ws: Seq<u64>)
    ensures
        ws.len() > 0 ==> spec_line(ops, ws).len() > 0,
        forall|i: int|
            0 <= i < spec_line(ops, ws).len() ==> !spec_is_sep(#[trigger] spec_line(ops, ws)[i], true),
    decreases ws.len(),
{
    if ws.len() > 0 {
        ops.lemma_fmt_token(ws[0]);
        lemma_line_bytes(ops, ws.drop_first());
        let t = ops.sfmt(ws[0]);
        let rest = spec_line(ops, ws.drop_first());
        let line = spec_line(ops, ws);
        assert(line == t + seq![32u8] + rest);
        assert forall|i: int| 0 <= i < line.len() implies !spec_is_sep(#[trigger] line[i], true) by {
            if i < t.len() {
                assert(line[i] == t[i]);
            } else if i == t.len() {
                assert(line[i] == 32u8);
            } else {
                assert(line[i] == rest[i - t.len() - 1]);
            }
        }
    }
}

/// A stack of weight-carrying layers writes exactly one line per layer.
proof fn lemma_serialized_join<W: WeightOps>(ops: W, c: Seq<Layer>)
    requires
        forall|i: int| 0 <= i < c.len() ==> !(#[trigger] c[i]).output,
    ensures
        spec_serialized(ops, c) == spec_join_trailing(
            Seq::new(c.len(), |k: int| spec_line(ops, c[k].weights@)),
            10u8,
        ),
    decreases c.len(),
{
    let lines = Seq::new(c.len(), |k: int| spec_line(ops, c[k].weights@));
    if c.len() == 0 {
        assert(lines =~= Seq::<Seq<u8>>::empty());
    } else {
        assert(!c[0].output);
        assert forall|i: int| 0 <= i < c.drop_first().len() implies !(#[trigger] c.drop_first()[i]).output by {
            assert(c.drop_first()[i] == c[i + 1]);
        }
        lemma_serialized_join(ops, c.drop_first());
        let dlines = Seq::new(
            c.drop_first().len(),
            |k: int| spec_line(ops, c.drop_first()[k].weights@),
        );
        assert(lines.drop_first() =~= dlines);
        assert(lines[0] == spec_line(ops, c[0].weights@));
        assert(spec_join_trailing(lines, 10u8) == lines[0] + seq![10u8] + spec_join_trailing(
            lines.drop_first(),
            10u8,
        ));
    }
}

/// A layer's line is its formatted weights joined with trailing spaces.
proof fn lemma_line_is_join<W: WeightOps>(ops: W, ws: Seq<u64>)
    ensures
        spec_line(ops, ws) == spec_join_trailing(ws.map_values(|w: u64| ops.sfmt(w)), 32u8),
    decreases ws.len(),
{
    let parts = ws.map_values(|w: u64| ops.sfmt(w));
    if ws.len() == 0 {
        assert(parts =~= Seq::<Seq<u8>>::empty());
    } else {
        lemma_line_is_join(ops, ws.drop_first());
        assert(parts.drop_first() =~= ws.drop_first().map_values(|w: u64| ops.sfmt(w)));
        assert(parts[0] == ops.sfmt(ws[0]));
        assert(spec_join_trailing(parts, 32u8) == parts[0] + seq![32u8] + spec_join_trailing(
            parts.drop_first(),
            32u8,
        ));
    }
}

/// When no layer's consumed tokens hold a malformed one, the whole read is
/// clean.
proof fn lemma_net_bad_none<W: WeightOps>(ops: W, layers: Seq<Layer>, lines: Seq<Seq<u8>>, k: int)
    requires
        forall|j: int|
            k <= j < layers.len() - 1 ==> spec_first_bad(
                ops,
                spec_consumed(spec_layer_toks(lines, j), (#[trigger] layers[j]).weights@.len() as int),
            ) is None,
    ensures
        spec_net_bad(ops, layers, lines, k) is None,
    decreases layers.len() - k,
{
    if k < layers.len() - 1 {
        lemma_net_bad_none(ops, layers, lines, k + 1);
    }
}

/// The serialization round trip.
///
/// Reading the text a network `a` writes back into any network `b` of the
/// same shape succeeds and makes every layer's weights equal to `a`'s, bit
/// for bit - provided the backend's format obeys its token law and every
/// weight-carrying layer of `a` carries at least one weight (a layer with no
/// weights writes an empty line, which the forgiving reader drops).  Together
/// with [`crate::network::spec_forward`] being a function of the weights, the
/// restored network reproduces `a`'s forward pass on every input.
pub proof fn lemma_serialize_round_trip<W: WeightOps>(ops: W, a: Seq<Layer>, b: Seq<Layer>)
    requires
        a.len() >= 1,
        forall|i: int| 0 <= i < a.len() ==> ((#[trigger] a[i]).output <==> i == a.len() - 1),
        forall|i: int| 0 <= i < a.len() - 1 ==> (#[trigger] a[i]).weights@.len() > 0,
        b.len() == a.len(),
        forall|i: int| 0 <= i < b.len() ==> (#[trigger] b[i]).weights@.len() == a[i].weights@.len(),
    ensures
        spec_net_bad(ops, b, spec_split(spec_serialized(ops, a), true), 0) is None,
        forall|k: int|
            0 <= k < a.len() - 1 ==> spec_patched(
                ops,
                b[k].weights@,
                spec_layer_toks(spec_split(spec_serialized(ops, a), true), k),
            ) == (#[trigger] a[k]).weights@,
{
    let text = spec_serialized(ops, a);
    let front = a.take(a.len() - 1);
    let lines = Seq::new(front.len(), |k: int| spec_line(ops, front[k].weights@));
    assert forall|i: int| 0 <= i < a.len() - 1 implies !(#[trigger] a[i]).output by {}
    assert forall|i: int| 0 <= i < front.len() implies !(#[trigger] front[i]).output by {
        assert(front[i] == a[i]);
    }
    lemma_serialized_output_end(ops, a);
    lemma_serialized_join(ops, front);
    assert(text == spec_join_trailing(lines, 10u8));
    assert forall|k: int| 0 <= k < lines.len() implies (#[trigger] lines[k]).len() > 0 by {
        assert(front[k] == a[k]);
        lemma_line_bytes(ops, front[k].weights@);
    }
    assert forall|k: int, i: int|
        0 <= k < lines.len() && 0 <= i < lines[k].len() implies !spec_is_sep(
        #[trigger] lines[k][i],
        true,
    ) by {
        lemma_line_bytes(ops, front[k].weights@);
    }
    lemma_split_join_trailing(lines, true);
    assert(spec_split(text, true) == lines);
    // Each line splits back into the layer's formatted tokens, and each token
    // reads back as the weight it came from.
    assert forall|k: int|
        0 <= k < a.len() - 1 implies spec_layer_toks(lines, k) == (#[trigger] a[k]).weights@
        .map_values(|w: u64| ops.sfmt(w)) by {
        assert(front[k] == a[k]);
        let ws = a[k].weights@;
        let parts = ws.map_values(|w: u64| ops.sfmt(w));
        lemma_line_is_join(ops, ws);
        assert forall|t: int| 0 <= t < parts.len() implies (#[trigger] parts[t]).len() > 0 by {
            ops.lemma_fmt_token(ws[t]);
            assert(parts[t] == ops.sfmt(ws[t]));
        }
        assert forall|t: int, i: int|
            0 <= t < parts.len() && 0 <= i < parts[t].len() implies !spec_is_sep(
            #[trigger] parts[t][i],
            false,
        ) by {
            ops.lemma_fmt_token(ws[t]);
            assert(parts[t] == ops.sfmt(ws[t]));
        }
        lemma_split_join_trailing(parts, false);
        assert(lines[k] == spec_line(ops, ws));
        assert(spec_layer_toks(lines, k) == spec_split(lines[k], false));
    }
    assert forall|k: int|
        0 <= k < a.len() - 1 implies spec_first_bad(
        ops,
        spec_consumed(spec_layer_toks(lines, k), (#[trigger] b[k]).weights@.len() as int),
    ) is None && spec_patched(ops, b[k].weights@, spec_layer_toks(lines, k)) == a[k].weights@ by {
        let ws = a[k].weights@;
        let toks = spec_layer_toks(lines, k);
        assert(toks == ws.map_values(|w: u64| ops.sfmt(w)));
        assert(toks.len() == ws.len());
        assert(b[k].weights@.len() == ws.len());
        assert forall|i: int| 0 <= i < toks.len() implies ops.sparse(#[trigger] toks[i]) is Some by {
            ops.lemma_fmt_token(ws[i]);
            assert(toks[i] == ops.sfmt(ws[i]));
        }
        assert(spec_consumed(toks, b[k].weights@.len() as int) == toks);
        lemma_first_bad_none(ops, toks);
        assert forall|i: int|
            0 <= i < ws.len() implies spec_patched(ops, b[k].weights@, toks)[i] == ws[i] by {
            ops.lemma_fmt_token(ws[i]);
            assert(toks[i] == ops.sfmt(ws[i]));
            assert(ops.sparse(toks[i]) == Some(ws[i]));
        }
        assert(spec_patched(ops, b[k].weights@, toks) =~= ws);
    }
    lemma_net_bad_none(ops, b, lines, 0);
}

} // verus!
