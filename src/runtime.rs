//! The runtime: every signal's value store, the computations subscribed to
//! them, the memo caches, and the execution context that records which
//! signals the collecting computation reads.

use crate::signal::{Signal, SignalView};
use std::rc::Rc;
use vstd::prelude::*;

verus! {

/// The two ways a reactive operation fails; both are misuse by the caller.
#[derive(Debug, Clone, Copy, PartialEq, Eq, Structural)]
pub enum ReactiveError {
    /// A signal was written, or subscribed to, while a write to it was still
    /// propagating to its observers.
    CyclicDependency,
    /// An effect was created while another effect's first run was collecting
    /// its dependencies.
    NestedCollection,
}

/// The procedure of an effect or a memo. The result is kept by a memo and
/// dropped by an effect. An `Err` aborts the call chain that ran the body.
///
/// `ran(pre, post, r)` is the implementor's statement of what one run does:
/// started on a runtime whose model is `pre`, it may end on `post` with
/// result `r`. A run reaches the runtime only through its operations, none
/// of which removes a signal, a computation or a memo cache.
pub trait Body<V>: Sized {
    spec fn ran(
        &self,
        pre: RuntimeView<V, Self>,
        post: RuntimeView<V, Self>,
        r: Result<V, ReactiveError>,
    ) -> bool;

    fn run(&self, rt: &mut Runtime<V, Self>) -> (r: Result<V, ReactiveError>)
        ensures
            self.ran(old(rt)@, final(rt)@, r),
            old(rt)@.grows_to(final(rt)@),
    ;
}

/// A re-runnable procedure, and the memo cache its result goes to, if any.
pub struct Computation<B> {
    body: B,
    memo: Option<usize>,
}

/// How many times `s` occurs in `p`.
pub open spec fn occurrences(p: Seq<usize>, s: int) -> nat
    decreases p.len(),
{
    if p.len() == 0 {
        0
    } else {
        occurrences(p.drop_last(), s) + if p.last() == s {
            1nat
        } else {
            0nat
        }
    }
}

/// The runtime as a mathematical value.
pub ghost struct RuntimeView<V, B> {
    pub signals: Seq<SignalView<V>>,
    /// The body of each computation.
    pub bodies: Seq<B>,
    /// For each computation, the memo cache it fills, if any.
    pub computations: Seq<Option<usize>>,
    pub memos: Seq<Option<V>>,
    /// The computation whose first run is collecting dependencies.
    pub active: Option<usize>,
    /// The signals read so far by the collecting run, in order of reading.
    pub pending: Seq<usize>,
}

impl<V, B> RuntimeView<V, B> {
    pub open spec fn empty() -> RuntimeView<V, B> {
        RuntimeView {
            signals: Seq::empty(),
            bodies: Seq::empty(),
            computations: Seq::empty(),
            memos: Seq::empty(),
            active: None,
            pending: Seq::empty(),
        }
    }

    pub open spec fn collecting(self) -> bool {
        self.active is Some
    }

    pub open spec fn has_signal(self, s: int) -> bool {
        0 <= s < self.signals.len()
    }

    pub open spec fn with_signal(self, value: V) -> RuntimeView<V, B> {
        RuntimeView { signals: self.signals.push(SignalView::fresh(value)), ..self }
    }

    pub open spec fn with_computation(self, body: B, memo: Option<usize>) -> RuntimeView<V, B> {
        RuntimeView {
            bodies: self.bodies.push(body),
            computations: self.computations.push(memo),
            ..self
        }
    }

    pub open spec fn with_memo(self) -> RuntimeView<V, B> {
        RuntimeView { memos: self.memos.push(None), ..self }
    }

    /// A read of `s`: recorded for subscription only while a run is collecting.
    pub open spec fn after_read(self, s: usize) -> RuntimeView<V, B> {
        if self.collecting() {
            RuntimeView { pending: self.pending.push(s), ..self }
        } else {
            self
        }
    }

    pub open spec fn after_write(self, s: int, value: V) -> RuntimeView<V, B> {
        RuntimeView { signals: self.signals.update(s, self.signals[s].written(value)), ..self }
    }

    pub open spec fn after_release(self, s: int) -> RuntimeView<V, B> {
        if self.has_signal(s) {
            RuntimeView { signals: self.signals.update(s, self.signals[s].released()), ..self }
        } else {
            self
        }
    }

    pub open spec fn after_store(self, m: int, value: V) -> RuntimeView<V, B> {
        if 0 <= m < self.memos.len() {
            RuntimeView { memos: self.memos.update(m, Some(value)), ..self }
        } else {
            self
        }
    }

    /// A run's result kept in memo cache `memo`, or dropped when there is none.
    pub open spec fn after_result(self, memo: Option<usize>, value: V) -> RuntimeView<V, B> {
        match memo {
            Some(m) => self.after_store(m as int, value),
            None => self,
        }
    }

    pub open spec fn collecting_for(self, c: usize) -> RuntimeView<V, B> {
        RuntimeView { active: Some(c), pending: Seq::empty(), ..self }
    }

    pub open spec fn idle(self) -> RuntimeView<V, B> {
        RuntimeView { active: None, pending: Seq::empty(), ..self }
    }

    /// Some signal read by the collecting run is still propagating a write.
    pub open spec fn pending_collides(self) -> bool {
        exists|k: int|
            0 <= k < self.pending.len() && self.has_signal(self.pending[k] as int)
                && #[trigger] self.signals[self.pending[k] as int].writing
    }

    /// Signal `s` after `c` has been subscribed once per read of `s` in `pending`.
    pub open spec fn subscribed_signal(self, s: int, c: usize) -> SignalView<V> {
        extended(self.signals[s], occurrences(self.pending, s), c)
    }

    /// Every read of the collecting run turned into a subscription, and the
    /// context back to idle.
    pub open spec fn subscribed(self) -> RuntimeView<V, B> {
        match self.active {
            Some(c) => RuntimeView {
                signals: Seq::new(self.signals.len(), |s: int| self.subscribed_signal(s, c)),
                ..self.idle()
            },
            None => self.idle(),
        }
    }
}

impl<V, B> RuntimeView<V, B> {
    /// Every signal, computation and memo cache of `self` is still in `post`.
    pub open spec fn grows_to(self, post: RuntimeView<V, B>) -> bool {
        &&& self.signals.len() <= post.signals.len()
        &&& self.bodies.len() <= post.bodies.len()
        &&& self.computations.len() <= post.computations.len()
        &&& self.memos.len() <= post.memos.len()
    }

    /// How the collecting run's outcome `run` ends the collection: `post`
    /// and `r` as `end_collecting` gives them.
    pub open spec fn after_collecting(
        self,
        run: Result<(), ReactiveError>,
        post: RuntimeView<V, B>,
        r: Result<(), ReactiveError>,
    ) -> bool {
        if run is Err {
            r == run && post == self.idle()
        } else if self.pending_collides() {
            r == Err::<(), _>(ReactiveError::CyclicDependency) && post == self.idle()
        } else {
            r is Ok && post == self.subscribed()
        }
    }
}

impl<V, B: Body<V>> RuntimeView<V, B> {
    /// One run of computation `c` from `self` ends on `post` with `r`: its body
    /// ran to some state `mid`; a value then went to the computation's memo
    /// cache, if any, and an error was passed on. An unknown `c` runs nothing.
    pub open spec fn computation_ran(
        self,
        c: int,
        post: RuntimeView<V, B>,
        r: Result<(), ReactiveError>,
    ) -> bool {
        if 0 <= c < self.bodies.len() && c < self.computations.len() {
            exists|mid: RuntimeView<V, B>, res: Result<V, ReactiveError>|
                #[trigger] self.bodies[c].ran(self, mid, res) && self.grows_to(mid) && match res {
                    Ok(v) => r is Ok && post == mid.after_result(self.computations[c], v),
                    Err(e) => r == Err::<(), _>(e) && post == mid,
                }
        } else {
            post == self && r is Ok
        }
    }

    /// The computations `obs`, run one after another from `self`, each on the
    /// state the previous one left, stopping at the first error, end on
    /// `post` with `r`.
    pub open spec fn observers_ran(
        self,
        obs: Seq<usize>,
        post: RuntimeView<V, B>,
        r: Result<(), ReactiveError>,
    ) -> bool
        decreases obs.len(),
    {
        if obs.len() == 0 {
            post == self && r is Ok
        } else {
            ||| (r is Err && self.observers_ran(obs.drop_last(), post, r))
            ||| exists|mid: RuntimeView<V, B>|
                self.observers_ran(obs.drop_last(), mid, Ok(())) && #[trigger] mid.computation_ran(
                    obs.last() as int,
                    post,
                    r,
                )
        }
    }
}

/// Signals, computations, memo caches and the execution context of one
/// single-threaded reactive program.
pub struct Runtime<V, B> {
    signals: Vec<Signal<V>>,
    computations: Vec<Rc<Computation<B>>>,
    memos: Vec<Option<Rc<V>>>,
    active: Option<usize>,
    pending: Vec<usize>,
}

pub open spec fn cache_view<V>(m: Option<Rc<V>>) -> Option<V> {
    match m {
        Some(r) => Some(*r),
        None => None,
    }
}

impl<V, B> View for Runtime<V, B> {
    type V = RuntimeView<V, B>;

    closed spec fn view(&self) -> RuntimeView<V, B> {
        RuntimeView {
            signals: self.signals@.map_values(|s: Signal<V>| s@),
            bodies: self.computations@.map_values(|c: Rc<Computation<B>>| c.body),
            computations: self.computations@.map_values(|c: Rc<Computation<B>>| c.memo),
            memos: self.memos@.map_values(|m: Option<Rc<V>>| cache_view(m)),
            active: self.active,
            pending: self.pending@,
        }
    }
}

impl<V, B> Runtime<V, B> {
    pub fn new() -> (rt: Self)
        ensures
            rt@ == RuntimeView::<V, B>::empty(),
    {
        let rt = Runtime {
            signals: Vec::new(),
            computations: Vec::new(),
            memos: Vec::new(),
            active: None,
            pending: Vec::new(),
        };
        assert(rt@.signals =~= Seq::empty());
        assert(rt@.computations =~= Seq::empty());
        assert(rt@.bodies =~= Seq::empty());
        assert(rt@.memos =~= Seq::empty());
        rt
    }
}


/// `sig` with `n` more subscriptions of `c` at the end of its observers.
pub open spec fn extended<V>(sig: SignalView<V>, n: nat, c: usize) -> SignalView<V> {
    SignalView { observers: sig.observers + Seq::new(n, |j: int| c), ..sig }
}

proof fn lemma_extended_once<V>(sig: SignalView<V>, n: nat, c: usize)
    ensures
        extended(sig, n, c).observed_by(c) == extended(sig, n + 1, c),
{
    assert(extended(sig, n, c).observed_by(c).observers =~= extended(sig, n + 1, c).observers);
}

proof fn lemma_occurrences_step(p: Seq<usize>, k: int, s: int)
    requires
        0 <= k < p.len(),
    ensures
        occurrences(p.take(k + 1), s) == occurrences(p.take(k), s) + if p[k] == s {
            1nat
        } else {
            0nat
        },
{
    assert(p.take(k + 1).drop_last() =~= p.take(k));
}

impl<V, B> Runtime<V, B> {
    pub fn signal_count(&self) -> (n: usize)
        ensures
            n == self@.signals.len(),
    {
        self.signals.len()
    }

    /// Adds a signal holding `value`, with no observers; returns its id.
    pub(crate) fn add_signal(&mut self, value: V) -> (s: usize)
        ensures
            s == old(self)@.signals.len(),
            final(self)@ == old(self)@.with_signal(value),
    {
        let ghost pre = self@;
        let s = self.signals.len();
        self.signals.push(Signal::new(value));
        assert(self@.signals =~= pre.signals.push(SignalView::fresh(value)));
        s
    }

    /// The current value of `s`; while a run is collecting, the read is
    /// recorded so that the run's computation gets subscribed to `s`.
    pub fn read(&mut self, s: usize) -> (r: Rc<V>)
        requires
            old(self)@.has_signal(s as int),
        ensures
            *r == old(self)@.signals[s as int].value,
            final(self)@ == old(self)@.after_read(s),
    {
        if self.active.is_some() {
            self.pending.push(s);
        }
        self.signals[s].value()
    }

    /// Takes the write lock of `s` and stores `value`; fails when a write to
    /// `s` is still propagating.
    pub(crate) fn begin_write(&mut self, s: usize, value: V) -> (r: Result<(), ReactiveError>)
        requires
            old(self)@.has_signal(s as int),
        ensures
            old(self)@.signals[s as int].writing ==> r == Err::<(), _>(
                ReactiveError::CyclicDependency,
            ) && final(self)@ == old(self)@,
            !old(self)@.signals[s as int].writing ==> r is Ok && final(self)@ == old(
                self,
            )@.after_write(s as int, value),
    {
        if self.signals[s].is_writing() {
            return Err(ReactiveError::CyclicDependency);
        }
        let ghost pre = self@;
        self.signals[s].update(value);
        assert(self@.signals =~= pre.after_write(s as int, value).signals);
        Ok(())
    }

    /// Releases the write lock of `s` once its observers have run.
    pub(crate) fn end_write(&mut self, s: usize)
        ensures
            final(self)@ == old(self)@.after_release(s as int),
    {
        if s < self.signals.len() {
            let ghost pre = self@;
            self.signals[s].release();
            assert(self@.signals =~= pre.after_release(s as int).signals);
        }
    }

    /// Returns the context to idle without subscribing anything.
    pub(crate) fn abandon_collecting(&mut self)
        ensures
            final(self)@ == old(self)@.idle(),
    {
        self.active = None;
        self.pending = Vec::new();
        assert(self@.pending =~= Seq::empty());
    }

    /// Subscribes the collecting computation to every signal its run read,
    /// once per read and in the order of reading, and returns the context to
    /// idle. Fails, subscribing nothing, when one of those signals is still
    /// propagating a write: adding an observer to a signal whose observers are
    /// being run collides with that write, a deliberate third source of
    /// `CyclicDependency` beside a reentrant write.
    pub(crate) fn finish_collecting(&mut self) -> (r: Result<(), ReactiveError>)
        ensures
            old(self)@.pending_collides() ==> r == Err::<(), _>(ReactiveError::CyclicDependency)
                && final(self)@ == old(self)@.idle(),
            !old(self)@.pending_collides() ==> r is Ok && final(self)@ == old(self)@.subscribed(),
    {
        let ghost pre = self@;
        let mut k: usize = 0;
        while k < self.pending.len()
            invariant
                self@ == pre,
                pre == old(self)@,
                k <= pre.pending.len(),
                forall|j: int|
                    0 <= j < k ==> !(pre.has_signal(pre.pending[j] as int)
                        && #[trigger] pre.signals[pre.pending[j] as int].writing),
            decreases pre.pending.len() - k,
        {
            let s = self.pending[k];
            if s < self.signals.len() && self.signals[s].is_writing() {
                assert(pre.signals[pre.pending[k as int] as int].writing);
                assert(pre.pending_collides());
                self.abandon_collecting();
                return Err(ReactiveError::CyclicDependency);
            }
            k = k + 1;
        }
        if let Some(c) = self.active {
            let mut k: usize = 0;
            while k < self.pending.len()
                invariant
                    pre == old(self)@,
                    pre.active == Some(c),
                    self.pending@ == pre.pending,
                    self.active == pre.active,
                    self@.computations == pre.computations,
                    self@.bodies == pre.bodies,
                    self@.memos == pre.memos,
                    k <= pre.pending.len(),
                    self.signals@.len() == pre.signals.len(),
                    forall|s: int|
                        0 <= s < pre.signals.len() ==> #[trigger] self@.signals[s] == extended(
                            pre.signals[s],
                            occurrences(pre.pending.take(k as int), s),
                            c,
                        ),
                decreases pre.pending.len() - k,
            {
                let s = self.pending[k];
                let ghost before = self@.signals;
                if s < self.signals.len() {
                    self.signals[s].observe(c);
                    assert(self@.signals =~= before.update(s as int, before[s as int].observed_by(c)));
                } else {
                    assert(self@.signals =~= before);
                }
                proof {
                    assert forall|t: int| 0 <= t < pre.signals.len() implies #[trigger] self@.signals[t]
                        == extended(pre.signals[t], occurrences(pre.pending.take(k + 1), t), c) by {
                        lemma_occurrences_step(pre.pending, k as int, t);
                        lemma_extended_once(
                            pre.signals[t],
                            occurrences(pre.pending.take(k as int), t),
                            c,
                        );
                    }
                }
                k = k + 1;
            }
            assert(pre.pending.take(pre.pending.len() as int) =~= pre.pending);
            let ghost done = self@.signals;
            assert forall|t: int| 0 <= t < pre.signals.len() implies #[trigger] done[t]
                == pre.subscribed().signals[t] by {
                assert(pre.subscribed().signals[t] == pre.subscribed_signal(t, c));
            }
            self.active = None;
            self.pending = Vec::new();
            assert(self@.pending =~= Seq::empty());
            assert(self@.signals == done);
            assert(self@.signals =~= pre.subscribed().signals);
        } else {
            self.abandon_collecting();
        }
        Ok(())
    }
}


impl<V, B> Runtime<V, B> {
    pub fn is_collecting(&self) -> (r: bool)
        ensures
            r == self@.collecting(),
    {
        self.active.is_some()
    }

    /// Adds an empty memo cache; returns its id.
    pub(crate) fn add_memo(&mut self) -> (m: usize)
        ensures
            m == old(self)@.memos.len(),
            final(self)@ == old(self)@.with_memo(),
    {
        let ghost pre = self@;
        let m = self.memos.len();
        self.memos.push(None);
        assert(self@.memos =~= pre.memos.push(None));
        m
    }

    /// Adds a computation running `body`, whose results go to memo cache
    /// `memo` if there is one; returns its id.
    pub(crate) fn add_computation(&mut self, body: B, memo: Option<usize>) -> (c: usize)
        ensures
            c == old(self)@.computations.len(),
            final(self)@ == old(self)@.with_computation(body, memo),
    {
        let ghost pre = self@;
        let c = self.computations.len();
        let ghost b = body;
        self.computations.push(Rc::new(Computation { body, memo }));
        assert(self@.computations =~= pre.computations.push(memo));
        assert(self@.bodies =~= pre.bodies.push(b));
        c
    }

    /// Puts `value` into memo cache `m`.
    pub(crate) fn store_memo(&mut self, m: usize, value: V)
        ensures
            final(self)@ == old(self)@.after_store(m as int, value),
    {
        if m < self.memos.len() {
            let ghost pre = self@;
            self.memos.set(m, Some(Rc::new(value)));
            assert(self@.memos =~= pre.after_store(m as int, value).memos);
        }
    }

    /// Adds a computation running `body` (feeding memo cache `memo`, if any)
    /// and makes its first run the collecting one. Fails, changing nothing,
    /// while another run is collecting.
    pub(crate) fn begin_collecting(&mut self, body: B, memo: Option<usize>) -> (r: Result<
        usize,
        ReactiveError,
    >)
        ensures
            old(self)@.collecting() ==> r == Err::<usize, _>(ReactiveError::NestedCollection)
                && final(self)@ == old(self)@,
            !old(self)@.collecting() ==> r is Ok && r->Ok_0 == old(self)@.computations.len()
                && final(self)@ == old(self)@.with_computation(body, memo).collecting_for(r->Ok_0),
    {
        if self.is_collecting() {
            return Err(ReactiveError::NestedCollection);
        }
        let c = self.add_computation(body, memo);
        self.active = Some(c);
        self.pending = Vec::new();
        assert(self@.pending =~= Seq::empty());
        Ok(c)
    }

    /// Ends the collecting run, given how that run ended: a failed run
    /// subscribes nothing and its error is passed on; a run that succeeded
    /// is subscribed to what it read (see `finish_collecting`).
    pub(crate) fn end_collecting(&mut self, run: Result<(), ReactiveError>) -> (r: Result<
        (),
        ReactiveError,
    >)
        ensures
            old(self)@.after_collecting(run, final(self)@, r),
    {
        match run {
            Ok(()) => self.finish_collecting(),
            Err(e) => {
                self.abandon_collecting();
                Err(e)
            },
        }
    }

    /// Applies the result of one run of a computation feeding memo cache
    /// `memo`, if any: a value is kept in that cache, an error passed on.
    pub(crate) fn complete_run(&mut self, memo: Option<usize>, result: Result<V, ReactiveError>) -> (r:
        Result<(), ReactiveError>)
        ensures
            match result {
                Ok(value) => r is Ok && final(self)@ == old(self)@.after_result(memo, value),
                Err(e) => r == Err::<(), _>(e) && final(self)@ == old(self)@,
            },
    {
        match result {
            Ok(value) => {
                if let Some(m) = memo {
                    self.store_memo(m, value);
                }
                Ok(())
            },
            Err(e) => Err(e),
        }
    }

    /// What memo cache `m` holds; reading it runs nothing and records nothing.
    pub fn memo_value(&self, m: usize) -> (r: Option<Rc<V>>)
        ensures
            match r {
                Some(v) => m < self@.memos.len() && self@.memos[m as int] == Some(*v),
                None => m >= self@.memos.len() || self@.memos[m as int] is None,
            },
    {
        if m < self.memos.len() {
            match &self.memos[m] {
                Some(v) => Some(v.clone()),
                None => None,
            }
        } else {
            None
        }
    }
}

proof fn lemma_computation_grows<V, B: Body<V>>(
    pre: RuntimeView<V, B>,
    c: int,
    post: RuntimeView<V, B>,
    r: Result<(), ReactiveError>,
)
    requires
        pre.computation_ran(c, post, r),
    ensures
        pre.grows_to(post),
{
    if 0 <= c < pre.bodies.len() && c < pre.computations.len() {
        let (mid, res) = choose|mid: RuntimeView<V, B>, res: Result<V, ReactiveError>|
            #[trigger] pre.bodies[c].ran(pre, mid, res) && pre.grows_to(mid) && match res {
                Ok(v) => r is Ok && post == mid.after_result(pre.computations[c], v),
                Err(e) => r == Err::<(), _>(e) && post == mid,
            };
    }
}

/// A run of observers that failed on a prefix of `obs` ends there.
proof fn lemma_stopped<V, B: Body<V>>(
    pre: RuntimeView<V, B>,
    obs: Seq<usize>,
    j: int,
    post: RuntimeView<V, B>,
    r: Result<(), ReactiveError>,
)
    requires
        0 <= j <= obs.len(),
        r is Err,
        pre.observers_ran(obs.take(j), post, r),
    ensures
        pre.observers_ran(obs, post, r),
    decreases obs.len() - j,
{
    if j < obs.len() {
        assert(obs.take(j + 1).drop_last() =~= obs.take(j));
        assert(pre.observers_ran(obs.take(j + 1), post, r));
        lemma_stopped(pre, obs, j + 1, post, r);
    } else {
        assert(obs.take(j) =~= obs);
    }
}

impl<V, B: Body<V>> Runtime<V, B> {
    /// Runs computation `c` once, and stores its result if it feeds a memo.
    pub(crate) fn run_computation(&mut self, c: usize) -> (r: Result<(), ReactiveError>)
        ensures
            old(self)@.computation_ran(c as int, final(self)@, r),
            old(self)@.grows_to(final(self)@),
    {
        let ghost pre = self@;
        if c < self.computations.len() {
            let comp = self.computations[c].clone();
            assert(comp.body == pre.bodies[c as int]);
            assert(comp.memo == pre.computations[c as int]);
            let result = comp.body.run(self);
            let ghost mid = self@;
            let r = self.complete_run(comp.memo, result);
            assert(pre.bodies[c as int].ran(pre, mid, result));
            r
        } else {
            Ok(())
        }
    }

    /// Runs each observer of `s` once, in subscription order, as the
    /// observers stood when the write began, each on the state the previous
    /// one left; stops at the first failure.
    pub(crate) fn trigger_observers(&mut self, s: usize) -> (r: Result<(), ReactiveError>)
        requires
            old(self)@.has_signal(s as int),
        ensures
            old(self)@.observers_ran(old(self)@.signals[s as int].observers, final(self)@, r),
            old(self)@.grows_to(final(self)@),
    {
        let ghost pre = self@;
        let observers = self.signals[s].observers();
        let mut i: usize = 0;
        assert(observers@.take(0) =~= Seq::<usize>::empty());
        while i < observers.len()
            invariant
                pre == old(self)@,
                pre.has_signal(s as int),
                i <= observers@.len(),
                observers@ == pre.signals[s as int].observers,
                pre.observers_ran(observers@.take(i as int), self@, Ok(())),
                pre.grows_to(self@),
            decreases observers@.len() - i,
        {
            let ghost before = self@;
            let r = self.run_computation(observers[i]);
            proof {
                lemma_computation_grows(before, observers@[i as int] as int, self@, r);
                assert(observers@.take(i + 1).drop_last() =~= observers@.take(i as int));
                assert(pre.observers_ran(observers@.take(i + 1).drop_last(), before, Ok(())));
                assert(observers@.take(i + 1).last() == observers@[i as int]);
                assert(before.computation_ran(observers@.take(i + 1).last() as int, self@, r));
                let obs1 = observers@.take(i + 1);
                assert(pre.observers_ran(obs1, self@, r));
            }
            match r {
                Ok(()) => {
                    assert(r->Ok_0 == ());
                    assert(r == Ok::<(), ReactiveError>(()));
                },
                Err(e) => {
                    proof {
                        lemma_stopped(pre, observers@, i + 1, self@, r);
                    }
                    return Err(e);
                },
            }
            i = i + 1;
        }
        assert(observers@.take(observers@.len() as int) =~= observers@);
        Ok(())
    }

    /// Stores `value` in `s` and takes its write lock, runs every observer of
    /// `s` (as `trigger_observers` does) with the lock held, then releases
    /// the lock. Fails, changing nothing, when a write to `s` is still
    /// propagating: the write was made from its own propagation chain.
    pub fn write(&mut self, s: usize, value: V) -> (r: Result<(), ReactiveError>)
        requires
            old(self)@.has_signal(s as int),
        ensures
            old(self)@.signals[s as int].writing ==> r == Err::<(), _>(
                ReactiveError::CyclicDependency,
            ) && final(self)@ == old(self)@,
            !old(self)@.signals[s as int].writing ==> exists|post: RuntimeView<V, B>|
                old(self)@.after_write(s as int, value).observers_ran(
                    old(self)@.signals[s as int].observers,
                    post,
                    r,
                ) && #[trigger] post.after_release(s as int) == final(self)@,
            !old(self)@.signals[s as int].writing && old(self)@.signals[s as int].observers.len()
                == 0 ==> r is Ok && final(self)@ == old(self)@.after_write(s as int, value).after_release(
                s as int,
            ),
            old(self)@.grows_to(final(self)@),
    {
        match self.begin_write(s, value) {
            Ok(()) => {},
            Err(e) => {
                return Err(e);
            },
        }
        let r = self.trigger_observers(s);
        let ghost post = self@;
        self.end_write(s);
        assert(post.after_release(s as int) == self@);
        r
    }
}

/// Reads one signal.
#[derive(Clone, Copy, Debug, PartialEq, Eq, Structural)]
pub struct Getter {
    pub id: usize,
}

/// Writes one signal.
#[derive(Clone, Copy, Debug, PartialEq, Eq, Structural)]
pub struct Setter {
    pub id: usize,
}

/// Reads the cache of one memo.
#[derive(Clone, Copy, Debug, PartialEq, Eq, Structural)]
pub struct Memo {
    pub id: usize,
}

impl Getter {
    /// A snapshot of the signal's value, recorded as a dependency while a
    /// computation's first run is collecting.
    pub fn get<V, B>(&self, rt: &mut Runtime<V, B>) -> (r: Rc<V>)
        requires
            old(rt)@.has_signal(self.id as int),
        ensures
            *r == old(rt)@.signals[self.id as int].value,
            final(rt)@ == old(rt)@.after_read(self.id),
    {
        rt.read(self.id)
    }
}

impl Setter {
    /// Replaces the signal's value and runs its observers (see `Runtime::write`).
    pub fn set<V, B: Body<V>>(&self, rt: &mut Runtime<V, B>, value: V) -> (r: Result<
        (),
        ReactiveError,
    >)
        requires
            old(rt)@.has_signal(self.id as int),
        ensures
            old(rt)@.signals[self.id as int].writing ==> r == Err::<(), _>(
                ReactiveError::CyclicDependency,
            ) && final(rt)@ == old(rt)@,
            !old(rt)@.signals[self.id as int].writing ==> exists|post: RuntimeView<V, B>|
                old(rt)@.after_write(self.id as int, value).observers_ran(
                    old(rt)@.signals[self.id as int].observers,
                    post,
                    r,
                ) && #[trigger] post.after_release(self.id as int) == final(rt)@,
            !old(rt)@.signals[self.id as int].writing && old(rt)@.signals[self.id as int].observers.len()
                == 0 ==> r is Ok && final(rt)@ == old(rt)@.after_write(self.id as int, value).after_release(
                self.id as int,
            ),
            old(rt)@.grows_to(final(rt)@),
    {
        rt.write(self.id, value)
    }
}

impl Memo {
    /// The cached value: never runs the derivation, never records a dependency.
    pub fn get<V, B>(&self, rt: &Runtime<V, B>) -> (r: Option<Rc<V>>)
        ensures
            match r {
                Some(v) => self.id < rt@.memos.len() && rt@.memos[self.id as int] == Some(*v),
                None => self.id >= rt@.memos.len() || rt@.memos[self.id as int] is None,
            },
    {
        rt.memo_value(self.id)
    }
}

/// Creates a signal holding `value`, with no observers, and returns its reader
/// and its writer.
pub fn create_signal<V, B>(rt: &mut Runtime<V, B>, value: V) -> (r: (Getter, Setter))
    ensures
        r.0.id == old(rt)@.signals.len(),
        r.1.id == old(rt)@.signals.len(),
        final(rt)@ == old(rt)@.with_signal(value),
{
    let s = rt.add_signal(value);
    (Getter { id: s }, Setter { id: s })
}

proof fn lemma_memo_filled<V, B: Body<V>>(
    start: RuntimeView<V, B>,
    c: int,
    m: usize,
    mid: RuntimeView<V, B>,
    run: Result<(), ReactiveError>,
)
    requires
        0 <= c < start.bodies.len(),
        c < start.computations.len(),
        start.computations[c] == Some(m),
        m < start.memos.len(),
        start.computation_ran(c, mid, run),
        run is Ok,
    ensures
        m < mid.memos.len(),
        mid.memos[m as int] is Some,
{
    let (inner, res) = choose|inner: RuntimeView<V, B>, res: Result<V, ReactiveError>|
        #[trigger] start.bodies[c].ran(start, inner, res) && start.grows_to(inner) && match res {
            Ok(v) => run is Ok && mid == inner.after_result(start.computations[c], v),
            Err(e) => run == Err::<(), _>(e) && mid == inner,
        };
}

/// Creates an effect: adds a computation for `body` and runs it at once as
/// the collecting run (`begin_collecting`, then `run_computation`), then
/// subscribes it to every signal that run read (`end_collecting`), so that
/// each later write to one of them runs it again. Fails, changing nothing,
/// while another effect's first run is collecting.
pub fn create_effect<V, B: Body<V>>(rt: &mut Runtime<V, B>, body: B) -> (r: Result<
    (),
    ReactiveError,
>)
    ensures
        old(rt)@.collecting() ==> r == Err::<(), _>(ReactiveError::NestedCollection) && final(rt)@
            == old(rt)@,
        !old(rt)@.collecting() ==> exists|mid: RuntimeView<V, B>, run: Result<(), ReactiveError>|
            old(rt)@.with_computation(body, None).collecting_for(
                old(rt)@.computations.len() as usize,
            ).computation_ran(old(rt)@.computations.len() as int, mid, run)
                && #[trigger] mid.after_collecting(run, final(rt)@, r),
        !old(rt)@.collecting() ==> !final(rt)@.collecting() && final(rt)@.pending.len() == 0,
        old(rt)@.grows_to(final(rt)@),
{
    let ghost pre = rt@;
    let ghost b = body;
    match rt.begin_collecting(body, None) {
        Ok(c) => {
            assert(c as int == pre.computations.len());
            let run = rt.run_computation(c);
            let ghost mid = rt@;
            let r = rt.end_collecting(run);
            assert(mid.after_collecting(run, rt@, r));
            assert(pre.with_computation(b, None).collecting_for(c).computation_ran(c as int, mid, run));
            r
        },
        Err(e) => Err(e),
    }
}

/// Creates a memo: a new cache, and an effect whose body is `derive` and
/// whose results go to that cache, created as `create_effect` does. On
/// success the cache holds the first run's result, read through the returned
/// `Memo`. Fails, changing nothing, while another effect's first run is
/// collecting.
pub fn create_memo<V, B: Body<V>>(rt: &mut Runtime<V, B>, derive: B) -> (r: Result<
    Memo,
    ReactiveError,
>)
    ensures
        old(rt)@.collecting() ==> r == Err::<Memo, _>(ReactiveError::NestedCollection)
            && final(rt)@ == old(rt)@,
        !old(rt)@.collecting() ==> exists|
            mid: RuntimeView<V, B>,
            run: Result<(), ReactiveError>,
            done: Result<(), ReactiveError>,
        |
            old(rt)@.with_memo().with_computation(
                derive,
                Some(old(rt)@.memos.len() as usize),
            ).collecting_for(old(rt)@.computations.len() as usize).computation_ran(
                old(rt)@.computations.len() as int,
                mid,
                run,
            ) && #[trigger] mid.after_collecting(run, final(rt)@, done) && match done {
                Ok(_) => r == Ok::<_, ReactiveError>((Memo { id: old(rt)@.memos.len() as usize })),
                Err(e) => r == Err::<Memo, _>(e),
            },
        !old(rt)@.collecting() ==> !final(rt)@.collecting() && final(rt)@.pending.len() == 0,
        r matches Ok(memo) ==> memo.id < final(rt)@.memos.len() && final(rt)@.memos[memo.id as int] is Some,
        old(rt)@.grows_to(final(rt)@),
{
    if rt.is_collecting() {
        return Err(ReactiveError::NestedCollection);
    }
    let ghost pre = rt@;
    let ghost b = derive;
    let m = rt.add_memo();
    match rt.begin_collecting(derive, Some(m)) {
        Ok(c) => {
            assert(c as int == pre.computations.len());
            let ghost start = rt@;
            let run = rt.run_computation(c);
            let ghost mid = rt@;
            let done = rt.end_collecting(run);
            assert(mid.after_collecting(run, rt@, done));
            assert(start == pre.with_memo().with_computation(b, Some(m)).collecting_for(c));
            match done {
                Ok(()) => {
                    proof {
                        lemma_memo_filled(start, c as int, m, mid, run);
                    }
                    Ok(Memo { id: m })
                },
                Err(e) => Err(e),
            }
        },
        Err(e) => Err(e),
    }
}

} // verus!
