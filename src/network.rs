use vstd::prelude::*;

use vstd::arithmetic::div_mod::lemma_fundamental_div_mod_converse;

use crate::neuron::{HiddenNeuron, NeuronBase, OutputNeuron};

verus! {

/// A vector whose length differs from the one a layer or a unit expects.
#[derive(Debug, Clone, Copy, PartialEq, Eq, Structural)]
pub struct ShapeMismatch {
    pub expected: usize,
    pub found: usize,
}

/// One hidden layer and one output layer. Every hidden unit has one weight per
/// network input; every output unit has one weight per hidden unit.
#[derive(Debug, PartialEq)]
pub struct Network<W> {
    num_inputs: usize,
    hidden_layer: Vec<HiddenNeuron<W>>,
    outputs: Vec<OutputNeuron<W>>,
}

/// A vector of `n` copies of `v`.
pub open spec fn constant_seq<W>(n: nat, v: W) -> Seq<W> {
    Seq::new(n, |_i: int| v)
}

/// The hidden layer fits `num_inputs` inputs and the output layer fits the
/// hidden layer.
pub open spec fn layers_fit<W: Copy>(
    num_inputs: nat,
    hidden: Seq<HiddenNeuron<W>>,
    outputs: Seq<OutputNeuron<W>>,
) -> bool {
    &&& forall|i: int| 0 <= i < hidden.len() ==> (#[trigger] hidden[i]).weights@.len() == num_inputs
    &&& forall|j: int| 0 <= j < outputs.len() ==> (#[trigger] outputs[j]).weights@.len() == hidden.len()
}

/// `outs` holds, for each unit of `neurons` in order, a value that `activate`
/// may return on that unit and `inputs`.
pub open spec fn layer_activations<W, N, F: Fn(&N, &Vec<W>) -> W>(
    activate: F,
    neurons: Seq<N>,
    inputs: Vec<W>,
    outs: Seq<W>,
) -> bool {
    &&& outs.len() == neurons.len()
    &&& forall|i: int|
        0 <= i < neurons.len() ==> call_ensures(activate, (&neurons[i], &inputs), #[trigger] outs[i])
}

/// Applies `activate` to each unit of a layer, in order, on the same inputs.
pub fn feed_forward_neurons<W, N, F: Fn(&N, &Vec<W>) -> W>(
    neurons: &Vec<N>,
    inputs: &Vec<W>,
    activate: F,
) -> (r: Vec<W>)
    requires
        forall|i: int| 0 <= i < neurons@.len() ==> activate.requires((&neurons@[i], inputs)),
    ensures
        layer_activations(activate, neurons@, *inputs, r@),
{
    let mut r: Vec<W> = Vec::new();
    let mut i: usize = 0;
    while i < neurons.len()
        invariant
            i <= neurons@.len(),
            r@.len() == i,
            forall|m: int| 0 <= m < neurons@.len() ==> activate.requires((&neurons@[m], inputs)),
            forall|k: int| 0 <= k < i ==> call_ensures(activate, (&neurons@[k], inputs), #[trigger] r@[k]),
        decreases neurons@.len() - i,
    {
        let out = activate(&neurons[i], inputs);
        r.push(out);
        i += 1;
    }
    r
}

/// How many samples one epoch visits: a sample is an input with its label.
pub open spec fn paired_len(num_inputs: nat, num_labels: nat) -> nat {
    if num_inputs < num_labels {
        num_inputs
    } else {
        num_labels
    }
}

/// The first `n` inputs fit `net`'s input width and their labels its output
/// width.
pub open spec fn samples_fit<W: Copy>(net: Network<W>, data: Seq<Vec<W>>, labels: Seq<Vec<W>>, n: nat) -> bool {
    forall|i: int|
        0 <= i < n ==> (#[trigger] data[i])@.len() == net.input_width() && labels[i]@.len()
            == net.outputs_view().len()
}

/// `trace` records online training over `n` samples for `epochs` epochs: one
/// network more than there are steps, and step `k` hands the network reached so
/// far with sample `k mod n` to `step`, whose result follows it.
pub open spec fn training_run<W, F: Fn(&Network<W>, &Vec<W>, &Vec<W>) -> Network<W>>(
    step: F,
    data: Seq<Vec<W>>,
    labels: Seq<Vec<W>>,
    n: nat,
    epochs: nat,
    trace: Seq<Network<W>>,
) -> bool {
    &&& trace.len() == epochs * n + 1
    &&& forall|k: int|
        0 < k < trace.len() ==> call_ensures(
            step,
            (&trace[k - 1], &data[(k - 1) % (n as int)], &labels[(k - 1) % (n as int)]),
            #[trigger] trace[k],
        )
}

/// Training with no sample to visit, or for no epoch, ends where it started.
pub proof fn lemma_training_without_steps<W, F: Fn(&Network<W>, &Vec<W>, &Vec<W>) -> Network<W>>(
    step: F,
    data: Seq<Vec<W>>,
    labels: Seq<Vec<W>>,
    n: nat,
    epochs: nat,
    trace: Seq<Network<W>>,
)
    requires
        training_run(step, data, labels, n, epochs, trace),
        n == 0 || epochs == 0,
    ensures
        trace.last() == trace[0],
{
    assert(epochs * n == 0) by (nonlinear_arith)
        requires
            n == 0 || epochs == 0,
    ;
}

/// `out` is a possible result of the forward pass of `net` on `inputs`: some
/// hidden values come from `hidden_fn` on each hidden unit and `inputs`, and
/// `out` from `output_fn` on each output unit and those hidden values.
pub open spec fn forward_result<W: Copy, F, G>(
    net: Network<W>,
    inputs: Vec<W>,
    hidden_fn: F,
    output_fn: G,
    out: Seq<W>,
) -> bool where F: Fn(&HiddenNeuron<W>, &Vec<W>) -> W, G: Fn(&OutputNeuron<W>, &Vec<W>) -> W {
    exists|hidden: Vec<W>|
        #[trigger] layer_activations(hidden_fn, net.hidden_view(), inputs, hidden@)
            && layer_activations(output_fn, net.outputs_view(), hidden, out)
}

/// What `activate` returns is fixed by the unit and the values of the inputs.
pub open spec fn depends_on_values<W, N, F: Fn(&N, &Vec<W>) -> W>(activate: F) -> bool {
    forall|n: N, x: Vec<W>, y: Vec<W>, a: W, b: W|
        x@ == y@ && #[trigger] call_ensures(activate, (&n, &x), a) && #[trigger] call_ensures(
            activate,
            (&n, &y),
            b,
        ) ==> a == b
}

/// When both activations are functions of their arguments, the forward pass
/// is too: two runs on the same network and the same inputs agree.
pub proof fn lemma_feed_forward_deterministic<W: Copy, F, G>(
    net: Network<W>,
    inputs: Vec<W>,
    hidden_fn: F,
    output_fn: G,
    out1: Seq<W>,
    out2: Seq<W>,
) where F: Fn(&HiddenNeuron<W>, &Vec<W>) -> W, G: Fn(&OutputNeuron<W>, &Vec<W>) -> W
    requires
        depends_on_values(hidden_fn),
        depends_on_values(output_fn),
        forward_result(net, inputs, hidden_fn, output_fn, out1),
        forward_result(net, inputs, hidden_fn, output_fn, out2),
    ensures
        out1 == out2,
{
    let h1 = choose|h: Vec<W>|
        #[trigger] layer_activations(hidden_fn, net.hidden_view(), inputs, h@)
            && layer_activations(output_fn, net.outputs_view(), h, out1);
    let h2 = choose|h: Vec<W>|
        #[trigger] layer_activations(hidden_fn, net.hidden_view(), inputs, h@)
            && layer_activations(output_fn, net.outputs_view(), h, out2);
    assert forall|i: int| 0 <= i < h1@.len() implies h1@[i] == h2@[i] by {
        assert(call_ensures(hidden_fn, (&net.hidden_view()[i], &inputs), h1@[i]));
        assert(call_ensures(hidden_fn, (&net.hidden_view()[i], &inputs), h2@[i]));
    }
    assert(h1@ =~= h2@);
    assert forall|j: int| 0 <= j < out1.len() implies out1[j] == out2[j] by {
        assert(call_ensures(output_fn, (&net.outputs_view()[j], &h1), out1[j]));
        assert(call_ensures(output_fn, (&net.outputs_view()[j], &h2), out2[j]));
    }
    assert(out1 =~= out2);
}

/// Whether two vectors that are combined element by element have the same
/// length.
pub fn check_lengths<W>(xs: &[W], ys: &[W]) -> (r: Result<(), ShapeMismatch>)
    ensures
        r is Ok <==> xs@.len() == ys@.len(),
        r matches Err(e) ==> e.expected == xs@.len() && e.found == ys@.len(),
{
    if xs.len() == ys.len() {
        Ok(())
    } else {
        Err(ShapeMismatch { expected: xs.len(), found: ys.len() })
    }
}

fn filled<W: Copy>(n: usize, v: W) -> (r: Vec<W>)
    ensures
        r@ == constant_seq(n as nat, v),
{
    let mut r: Vec<W> = Vec::new();
    let mut i: usize = 0;
    while i < n
        invariant
            i <= n,
            r@ == constant_seq(i as nat, v),
        decreases n - i,
    {
        r.push(v);
        i += 1;
        assert(r@ =~= constant_seq(i as nat, v));
    }
    r
}

impl<W: Copy> Network<W> {
    /// The number of inputs that the network takes.
    pub closed spec fn input_width(&self) -> nat {
        self.num_inputs as nat
    }

    /// The hidden units, in order.
    pub closed spec fn hidden_view(&self) -> Seq<HiddenNeuron<W>> {
        self.hidden_layer@
    }

    /// The output units, in order.
    pub closed spec fn outputs_view(&self) -> Seq<OutputNeuron<W>> {
        self.outputs@
    }

    /// Every weight vector has the length that its layer's inputs have.
    pub open spec fn wf(&self) -> bool {
        layers_fit(self.input_width(), self.hidden_view(), self.outputs_view())
    }

    /// A network of `num_hidden` hidden units and `num_outputs` output units,
    /// each starting with all weights equal to `weight` and its bias equal to
    /// `bias`.
    pub fn new(num_inputs: usize, num_hidden: usize, num_outputs: usize, weight: W, bias: W) -> (r: Self)
        ensures
            r.wf(),
            r.input_width() == num_inputs,
            r.hidden_view().len() == num_hidden,
            r.outputs_view().len() == num_outputs,
            forall|i: int|
                0 <= i < num_hidden ==> (#[trigger] r.hidden_view()[i]).weights@ == constant_seq(
                    num_inputs as nat,
                    weight,
                ) && r.hidden_view()[i].bias == bias,
            forall|j: int|
                0 <= j < num_outputs ==> (#[trigger] r.outputs_view()[j]).weights@ == constant_seq(
                    num_hidden as nat,
                    weight,
                ) && r.outputs_view()[j].bias == bias,
    {
        let mut hidden_layer: Vec<HiddenNeuron<W>> = Vec::new();
        let mut i: usize = 0;
        while i < num_hidden
            invariant
                i <= num_hidden,
                hidden_layer@.len() == i,
                forall|k: int|
                    0 <= k < i ==> (#[trigger] hidden_layer@[k]).weights@ == constant_seq(
                        num_inputs as nat,
                        weight,
                    ) && hidden_layer@[k].bias == bias,
            decreases num_hidden - i,
        {
            hidden_layer.push(HiddenNeuron::new(filled(num_inputs, weight), bias));
            i += 1;
        }
        let mut outputs: Vec<OutputNeuron<W>> = Vec::new();
        let mut j: usize = 0;
        while j < num_outputs
            invariant
                j <= num_outputs,
                outputs@.len() == j,
                forall|k: int|
                    0 <= k < j ==> (#[trigger] outputs@[k]).weights@ == constant_seq(
                        num_hidden as nat,
                        weight,
                    ) && outputs@[k].bias == bias,
            decreases num_outputs - j,
        {
            outputs.push(OutputNeuron::new(filled(num_hidden, weight), bias));
            j += 1;
        }
        Network { num_inputs, hidden_layer, outputs }
    }

    /// A network made of the given layers, or the first length that does not
    /// fit: a hidden unit's weight count against `num_inputs`, then an output
    /// unit's weight count against the number of hidden units.
    pub fn from_layers(
        num_inputs: usize,
        hidden_layer: Vec<HiddenNeuron<W>>,
        outputs: Vec<OutputNeuron<W>>,
    ) -> (r: Result<Self, ShapeMismatch>)
        ensures
            r is Ok <==> layers_fit(num_inputs as nat, hidden_layer@, outputs@),
            r matches Ok(n) ==> n.wf() && n.input_width() == num_inputs && n.hidden_view() == hidden_layer@
                && n.outputs_view() == outputs@,
            r matches Err(e) ==> e.expected != e.found && ((e.expected == num_inputs && exists|i: int|
                0 <= i < hidden_layer@.len() && (#[trigger] hidden_layer@[i]).weights@.len() == e.found)
                || (e.expected == hidden_layer@.len() && exists|j: int|
                0 <= j < outputs@.len() && (#[trigger] outputs@[j]).weights@.len() == e.found)),
    {
        let mut i: usize = 0;
        while i < hidden_layer.len()
            invariant
                i <= hidden_layer@.len(),
                forall|k: int| 0 <= k < i ==> (#[trigger] hidden_layer@[k]).weights@.len() == num_inputs,
            decreases hidden_layer@.len() - i,
        {
            let found = hidden_layer[i].weights.len();
            if found != num_inputs {
                return Err(ShapeMismatch { expected: num_inputs, found });
            }
            i += 1;
        }
        let mut j: usize = 0;
        while j < outputs.len()
            invariant
                j <= outputs@.len(),
                forall|k: int| 0 <= k < j ==> (#[trigger] outputs@[k]).weights@.len() == hidden_layer@.len(),
            decreases outputs@.len() - j,
        {
            let found = outputs[j].weights.len();
            if found != hidden_layer.len() {
                return Err(ShapeMismatch { expected: hidden_layer.len(), found });
            }
            j += 1;
        }
        Ok(Network { num_inputs, hidden_layer, outputs })
    }

    /// The number of inputs that the network takes.
    pub fn num_inputs(&self) -> (r: usize)
        ensures
            r == self.input_width(),
    {
        self.num_inputs
    }

    /// The hidden units, in order.
    pub fn hidden_layer(&self) -> (r: &Vec<HiddenNeuron<W>>)
        ensures
            r@ == self.hidden_view(),
    {
        &self.hidden_layer
    }

    /// The output units, in order.
    pub fn outputs(&self) -> (r: &Vec<OutputNeuron<W>>)
        ensures
            r@ == self.outputs_view(),
    {
        &self.outputs
    }

    /// Whether `inputs` has one value per network input.
    pub fn check_input(&self, inputs: &Vec<W>) -> (r: Result<(), ShapeMismatch>)
        ensures
            r is Ok <==> inputs@.len() == self.input_width(),
            r matches Err(e) ==> e.expected == self.input_width() && e.found == inputs@.len(),
    {
        if inputs.len() == self.num_inputs {
            Ok(())
        } else {
            Err(ShapeMismatch { expected: self.num_inputs, found: inputs.len() })
        }
    }
    /// Whether `inputs` fits the input width and `label` the output width;
    /// the input is looked at first.
    pub fn check_sample(&self, inputs: &Vec<W>, label: &Vec<W>) -> (r: Result<(), ShapeMismatch>)
        ensures
            r is Ok <==> inputs@.len() == self.input_width() && label@.len() == self.outputs_view().len(),
            r matches Err(e) ==> if inputs@.len() != self.input_width() {
                e.expected == self.input_width() && e.found == inputs@.len()
            } else {
                e.expected == self.outputs_view().len() && e.found == label@.len()
            },
    {
        match self.check_input(inputs) {
            Err(e) => Err(e),
            Ok(()) => {
                if label.len() == self.outputs.len() {
                    Ok(())
                } else {
                    Err(ShapeMismatch { expected: self.outputs.len(), found: label.len() })
                }
            },
        }
    }

    /// The network's outputs on `inputs`: `hidden_fn` applied to each hidden
    /// unit on `inputs`, then `output_fn` applied to each output unit on the
    /// hidden values so obtained. Inputs of the wrong length are refused.
    pub fn feed_forward<F, G>(&self, inputs: &Vec<W>, hidden_fn: F, output_fn: G) -> (r: Result<
        Vec<W>,
        ShapeMismatch,
    >) where F: Fn(&HiddenNeuron<W>, &Vec<W>) -> W, G: Fn(&OutputNeuron<W>, &Vec<W>) -> W
        requires
            forall|n: HiddenNeuron<W>, x: Vec<W>| hidden_fn.requires((&n, &x)),
            forall|n: OutputNeuron<W>, x: Vec<W>| output_fn.requires((&n, &x)),
        ensures
            r is Ok <==> inputs@.len() == self.input_width(),
            r matches Err(e) ==> e.expected == self.input_width() && e.found == inputs@.len(),
            r matches Ok(out) ==> forward_result(*self, *inputs, hidden_fn, output_fn, out@),
    {
        match self.check_input(inputs) {
            Err(e) => Err(e),
            Ok(()) => {
                let hidden = feed_forward_neurons(&self.hidden_layer, inputs, hidden_fn);
                let out = feed_forward_neurons(&self.outputs, &hidden, output_fn);
                assert(layer_activations(hidden_fn, self.hidden_view(), *inputs, hidden@)
                    && layer_activations(output_fn, self.outputs_view(), hidden, out@));
                Ok(out)
            },
        }
    }
    /// Online training: for each of `epochs` epochs, for each input of `data`
    /// with the label at the same place in `labels`, in order, the network is
    /// replaced by what `step` returns for it and that sample. Samples past the
    /// shorter of the two lists are not visited. When a visited sample does not
    /// fit the network, nothing is trained and the network stays as it was.
    pub fn train<F>(&mut self, data: &[Vec<W>], labels: &[Vec<W>], epochs: usize, step: F) -> (r:
        Result<(), ShapeMismatch>) where F: Fn(&Network<W>, &Vec<W>, &Vec<W>) -> Network<W>
        requires
            forall|net: Network<W>, x: Vec<W>, y: Vec<W>| step.requires((&net, &x, &y)),
        ensures
            r is Ok <==> samples_fit(*old(self), data@, labels@, paired_len(data@.len(), labels@.len())),
            r matches Err(e) ==> e.expected != e.found && *final(self) == *old(self),
            r is Ok ==> exists|trace: Seq<Network<W>>|
                #[trigger] training_run(
                    step,
                    data@,
                    labels@,
                    paired_len(data@.len(), labels@.len()),
                    epochs as nat,
                    trace,
                ) && trace[0] == *old(self) && trace.last() == *final(self),
    {
        let n: usize = if data.len() < labels.len() {
            data.len()
        } else {
            labels.len()
        };
        let mut i: usize = 0;
        while i < n
            invariant
                n == paired_len(data@.len(), labels@.len()),
                i <= n,
                samples_fit(*self, data@, labels@, i as nat),
            decreases n - i,
        {
            match self.check_sample(&data[i], &labels[i]) {
                Err(e) => {
                    return Err(e);
                },
                Ok(()) => {},
            }
            i += 1;
        }
        let ghost start = *self;
        let ghost mut trace: Seq<Network<W>> = seq![*self];
        let mut e: usize = 0;
        while e < epochs
            invariant
                n == paired_len(data@.len(), labels@.len()),
                forall|net: Network<W>, x: Vec<W>, y: Vec<W>| step.requires((&net, &x, &y)),
                e <= epochs,
                trace.len() == e * n + 1,
                trace[0] == start,
                trace.last() == *self,
                forall|k: int|
                    0 < k < trace.len() ==> call_ensures(
                        step,
                        (&trace[k - 1], &data@[(k - 1) % (n as int)], &labels@[(k - 1) % (n as int)]),
                        #[trigger] trace[k],
                    ),
            decreases epochs - e,
        {
            let mut j: usize = 0;
            while j < n
                invariant
                    n == paired_len(data@.len(), labels@.len()),
                    forall|net: Network<W>, x: Vec<W>, y: Vec<W>| step.requires((&net, &x, &y)),
                    e < epochs,
                    j <= n,
                    trace.len() == e * n + j + 1,
                    trace[0] == start,
                    trace.last() == *self,
                    forall|k: int|
                        0 < k < trace.len() ==> call_ensures(
                            step,
                            (&trace[k - 1], &data@[(k - 1) % (n as int)], &labels@[(k - 1) % (n as int)]),
                            #[trigger] trace[k],
                        ),
                decreases n - j,
            {
                let next = step(self, &data[j], &labels[j]);
                proof {
                    lemma_fundamental_div_mod_converse(e * n + j, n as int, e as int, j as int);
                    let old_trace = trace;
                    trace = trace.push(next);
                    assert forall|k: int| 0 < k < trace.len() implies call_ensures(
                        step,
                        (&trace[k - 1], &data@[(k - 1) % (n as int)], &labels@[(k - 1) % (n as int)]),
                        #[trigger] trace[k],
                    ) by {
                        if k < old_trace.len() {
                            assert(trace[k] == old_trace[k]);
                            assert(trace[k - 1] == old_trace[k - 1]);
                        }
                    }
                }
                *self = next;
                j += 1;
            }
            proof {
                assert((e + 1) * n == e * n + n) by (nonlinear_arith);
            }
            e += 1;
        }
        assert(training_run(step, data@, labels@, n as nat, epochs as nat, trace));
        Ok(())
    }
}

} // verus!
