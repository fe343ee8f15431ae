//! The value store of one signal: its current value, the computations that
//! observe it, and whether a write to it is still propagating.

use std::rc::Rc;
use vstd::prelude::*;

verus! {

/// What a signal holds, as a mathematical value.
pub ghost struct SignalView<V> {
    pub value: V,
    /// Ids of the subscribed computations, in subscription order (duplicates kept).
    pub observers: Seq<usize>,
    /// True while a write to this signal is propagating to its observers.
    pub writing: bool,
}

impl<V> SignalView<V> {
    pub open spec fn fresh(value: V) -> SignalView<V> {
        SignalView { value, observers: Seq::empty(), writing: false }
    }

    pub open spec fn observed_by(self, c: usize) -> SignalView<V> {
        SignalView { observers: self.observers.push(c), ..self }
    }

    pub open spec fn written(self, value: V) -> SignalView<V> {
        SignalView { value, writing: true, ..self }
    }

    pub open spec fn released(self) -> SignalView<V> {
        SignalView { writing: false, ..self }
    }
}

/// One signal's value cell and its ordered list of observers.
pub struct Signal<V> {
    value: Rc<V>,
    observers: Vec<usize>,
    writing: bool,
}

impl<V> View for Signal<V> {
    type V = SignalView<V>;

    closed spec fn view(&self) -> SignalView<V> {
        SignalView { value: *self.value, observers: self.observers@, writing: self.writing }
    }
}

impl<V> Signal<V> {
    pub fn new(value: V) -> (s: Self)
        ensures
            s@ == SignalView::fresh(value),
    {
        Signal { value: Rc::new(value), observers: Vec::new(), writing: false }
    }

    /// Subscribes computation `c`; a computation already present is added again.
    pub fn observe(&mut self, c: usize)
        ensures
            final(self)@ == old(self)@.observed_by(c),
    {
        self.observers.push(c);
    }

    /// Replaces the value and holds the cell open until `release`.
    pub fn update(&mut self, value: V)
        ensures
            final(self)@ == old(self)@.written(value),
    {
        self.value = Rc::new(value);
        self.writing = true;
    }

    pub fn release(&mut self)
        ensures
            final(self)@ == old(self)@.released(),
    {
        self.writing = false;
    }

    /// A shared snapshot of the current value.
    pub fn value(&self) -> (r: Rc<V>)
        ensures
            *r == self@.value,
    {
        self.value.clone()
    }

    pub fn is_writing(&self) -> (r: bool)
        ensures
            r == self@.writing,
    {
        self.writing
    }

    /// The observers at this moment, in subscription order.
    pub fn observers(&self) -> (r: Vec<usize>)
        ensures
            r@ == self@.observers,
    {
        self.observers.clone()
    }
}

} // verus!
