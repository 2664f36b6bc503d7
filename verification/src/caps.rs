//! Fixed-capacity storage for a network's neurons and connections, backed by
//! `arrayvec::ArrayVec` with a capacity of 16.
//!
//! The two holders are opaque to the verifier; their contents are named by
//! the spec functions `neuron_seq` and `conn_seq`, and every operation the
//! library uses is a trusted wrapper whose contract speaks over those names.

use vstd::prelude::*;

use crate::neural_network::{NeuralConnection, Neuron};

verus! {

/// A list of at most 16 neurons, in insertion order.
#[verifier::external_body]
pub struct NeuronVec {
    inner: arrayvec::ArrayVec<Neuron, 16>,
}

/// The neurons a `NeuronVec` holds, in order.
pub uninterp spec fn neuron_seq(v: NeuronVec) -> Seq<Neuron>;

impl NeuronVec {
    /// Relies on ArrayVec::new: an empty vector.
    #[verifier::external_body]
    pub(crate) fn new() -> (r: Self)
        ensures
            neuron_seq(r) == Seq::<Neuron>::empty(),
    {
        NeuronVec { inner: arrayvec::ArrayVec::new() }
    }

    /// Relies on ArrayVec::len: the number of elements held.
    #[verifier::external_body]
    pub(crate) fn len(&self) -> (r: usize)
        ensures
            r == neuron_seq(*self).len(),
    {
        self.inner.len()
    }

    /// Relies on ArrayVec::push: appends at the end; it panics only when the
    /// vector is full.
    #[verifier::external_body]
    pub(crate) fn push(&mut self, n: Neuron)
        requires
            neuron_seq(*old(self)).len() < 16,
        ensures
            neuron_seq(*final(self)) == neuron_seq(*old(self)).push(n),
    {
        self.inner.push(n);
    }

    /// Relies on ArrayVec's Index impl: the element at `i`; it panics only
    /// when `i` is out of bounds.
    #[verifier::external_body]
    pub(crate) fn get(&self, i: usize) -> (r: Neuron)
        requires
            i < neuron_seq(*self).len(),
        ensures
            r == neuron_seq(*self)[i as int],
    {
        self.inner[i]
    }
}

/// A set of at most 16 directed connections, in insertion order.
#[verifier::external_body]
pub struct ConnVec {
    inner: arrayvec::ArrayVec<NeuralConnection, 16>,
}

/// The connections a `ConnVec` holds, in order.
pub uninterp spec fn conn_seq(v: ConnVec) -> Seq<NeuralConnection>;

impl ConnVec {
    /// Relies on ArrayVec::new: an empty vector.
    #[verifier::external_body]
    pub(crate) fn new() -> (r: Self)
        ensures
            conn_seq(r) == Seq::<NeuralConnection>::empty(),
    {
        ConnVec { inner: arrayvec::ArrayVec::new() }
    }

    /// Relies on ArrayVec::len: the number of elements held.
    #[verifier::external_body]
    pub(crate) fn len(&self) -> (r: usize)
        ensures
            r == conn_seq(*self).len(),
    {
        self.inner.len()
    }

    /// Relies on ArrayVec::push: appends at the end; it panics only when the
    /// vector is full.
    #[verifier::external_body]
    pub(crate) fn push(&mut self, c: NeuralConnection)
        requires
            conn_seq(*old(self)).len() < 16,
        ensures
            conn_seq(*final(self)) == conn_seq(*old(self)).push(c),
    {
        self.inner.push(c);
    }

    /// Relies on ArrayVec's Index impl: the element at `i`; it panics only
    /// when `i` is out of bounds.
    #[verifier::external_body]
    pub(crate) fn get(&self, i: usize) -> (r: NeuralConnection)
        requires
            i < conn_seq(*self).len(),
        ensures
            r == conn_seq(*self)[i as int],
    {
        self.inner[i]
    }
}

} // verus!
