use vstd::prelude::*;

verus! {

/// Access to a unit's weight vector and bias, shared by both layers.
pub trait NeuronBase<W: Copy>: Sized {
    spec fn weights_view(&self) -> Seq<W>;

    spec fn bias_view(&self) -> W;

    fn new(weights: Vec<W>, bias: W) -> (r: Self)
        ensures
            r.weights_view() == weights@,
            r.bias_view() == bias,
    ;

    fn get_weights(&self) -> (r: &Vec<W>)
        ensures
            r@ == self.weights_view(),
    ;

    fn get_bias(&self) -> (r: W)
        ensures
            r == self.bias_view(),
    ;
}

/// A unit of the hidden layer: one weight per network input, and a bias.
#[derive(Debug, PartialEq)]
pub struct HiddenNeuron<W> {
    pub weights: Vec<W>,
    pub bias: W,
}

/// A unit of the output layer: one weight per hidden unit, and a bias.
#[derive(Debug, PartialEq)]
pub struct OutputNeuron<W> {
    pub weights: Vec<W>,
    pub bias: W,
}

impl<W: Copy> NeuronBase<W> for HiddenNeuron<W> {
    open spec fn weights_view(&self) -> Seq<W> {
        self.weights@
    }

    open spec fn bias_view(&self) -> W {
        self.bias
    }

    fn new(weights: Vec<W>, bias: W) -> (r: Self) {
        HiddenNeuron { weights, bias }
    }

    fn get_weights(&self) -> (r: &Vec<W>) {
        &self.weights
    }

    fn get_bias(&self) -> (r: W) {
        self.bias
    }
}

impl<W: Copy> NeuronBase<W> for OutputNeuron<W> {
    open spec fn weights_view(&self) -> Seq<W> {
        self.weights@
    }

    open spec fn bias_view(&self) -> W {
        self.bias
    }

    fn new(weights: Vec<W>, bias: W) -> (r: Self) {
        OutputNeuron { weights, bias }
    }

    fn get_weights(&self) -> (r: &Vec<W>) {
        &self.weights
    }

    fn get_bias(&self) -> (r: W) {
        self.bias
    }
}

} // verus!
