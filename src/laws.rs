//! Properties of the reactive runtime that relate several operations, stated
//! over the spec functions that the operations' own contracts use.

use crate::runtime::{occurrences, RuntimeView};
use crate::signal::SignalView;
use vstd::prelude::*;

verus! {

/// A new signal, whose id `s` is the number of signals before it, holds the value it was created with, and a read returns that
/// value whether or not a computation is collecting.
pub proof fn law_read_after_create<V, B>(rt: RuntimeView<V, B>, value: V, s: usize)
    requires
        s == rt.signals.len(),
    ensures
        ({
            let created = rt.with_signal(value);
            &&& created.has_signal(s as int)
            &&& created.signals[s as int].value == value
            &&& created.after_read(s).signals[s as int].value == value
        }),
{
}

/// Once a write of `value` to a signal has been accepted, the signal holds
/// `value`, while its observers run and after the write lock is released;
/// a write changes no other signal and no subscription.
pub proof fn law_read_after_write<V, B>(rt: RuntimeView<V, B>, s: int, value: V)
    requires
        rt.has_signal(s),
        !rt.signals[s].writing,
    ensures
        rt.after_write(s, value).signals[s].value == value,
        rt.after_write(s, value).after_release(s).signals[s].value == value,
        !rt.after_write(s, value).after_release(s).signals[s].writing,
        rt.after_write(s, value).after_release(s).signals[s].observers == rt.signals[s].observers,
        forall|t: int|
            rt.has_signal(t) && t != s ==> #[trigger] rt.after_write(s, value).after_release(
                s,
            ).signals[t] == rt.signals[t],
{
}

/// The propagation of an accepted write starts, by the contract of
/// `Runtime::write`, from `after_write`, in which the signal is held open: a
/// write to it made from there is rejected as a cyclic dependency.
pub proof fn law_reentrant_write_rejected<V, B>(rt: RuntimeView<V, B>, s: int, value: V)
    requires
        rt.has_signal(s),
        !rt.signals[s].writing,
    ensures
        rt.after_write(s, value).signals[s].writing,
{
}

/// The first run of an effect starts, by the contract of `create_effect`,
/// from `collecting_for(c)`, in which the context is collecting: creating an
/// effect or a memo from there is rejected as nested collection. Once the
/// run's reads are subscribed, the context is idle again.
pub proof fn law_nested_collection_rejected<V, B>(rt: RuntimeView<V, B>, c: usize, s: usize)
    requires
        !rt.collecting(),
    ensures
        rt.collecting_for(c).collecting(),
        rt.collecting_for(c).after_read(s).collecting(),
        !rt.collecting_for(c).subscribed().collecting(),
{
}

/// A signal read twice by one collecting run gets the computation twice in
/// its observers: subscriptions are not deduplicated.
pub proof fn law_duplicate_subscription<V, B>(rt: RuntimeView<V, B>, c: usize, s: usize)
    requires
        !rt.collecting(),
        rt.has_signal(s as int),
        !rt.signals[s as int].writing,
    ensures
        ({
            let run = rt.collecting_for(c).after_read(s).after_read(s);
            &&& !run.pending_collides()
            &&& run.subscribed().signals[s as int].observers == rt.signals[s as int].observers.push(
                c,
            ).push(c)
        }),
{
    let run = rt.collecting_for(c).after_read(s).after_read(s);
    assert(run.pending =~= seq![s, s]);
    reveal_with_fuel(occurrences, 3);
    assert(run.pending.drop_last() =~= seq![s]);
    assert(run.pending.drop_last().drop_last() =~= Seq::<usize>::empty());
    assert(occurrences(run.pending, s as int) == 2);
    assert(run.subscribed().signals[s as int] == run.subscribed_signal(s as int, c));
    assert(run.subscribed().signals[s as int].observers =~= rt.signals[s as int].observers.push(
        c,
    ).push(c));
}

} // verus!
