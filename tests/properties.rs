use std::cell::Cell;
use std::rc::Rc;

use maple_core::runtime::RuntimeView;
use maple_core::{create_effect, create_memo, create_signal, Body, Getter, ReactiveError, Runtime, Setter};

enum Probe {
    /// Counts its runs and reads `from` `reads` times.
    Reader { from: Getter, reads: usize, runs: Rc<Cell<i32>> },
    /// Writes the value of `from` plus one into `to`.
    Increment { from: Getter, to: Setter },
    /// Counts its runs; creates a reader of `from` when `flag` is non-zero.
    Spawner { flag: Getter, from: Getter, runs: Rc<Cell<i32>> },
    /// Counts its runs; reads `extra` only when `flag` is non-zero.
    Branch { flag: Getter, extra: Getter, runs: Rc<Cell<i32>> },
    /// Counts its runs and derives the sum of two signals.
    Sum { a: Getter, b: Getter, runs: Rc<Cell<i32>> },
}

impl Body<i32> for Probe {
    /// These bodies are not verified: every outcome is allowed.
    fn ran(
        &self,
        _pre: RuntimeView<i32, Probe>,
        _post: RuntimeView<i32, Probe>,
        _r: Result<i32, ReactiveError>,
    ) -> bool {
        true
    }

    fn run(&self, rt: &mut Runtime<i32, Probe>) -> Result<i32, ReactiveError> {
        match self {
            Probe::Reader { from, reads, runs } => {
                runs.set(runs.get() + 1);
                let mut v = 0;
                for _ in 0..*reads {
                    v = *from.get(rt);
                }
                Ok(v)
            }
            Probe::Increment { from, to } => {
                let v = *from.get(rt) + 1;
                to.set(rt, v)?;
                Ok(v)
            }
            Probe::Spawner { flag, from, runs } => {
                runs.set(runs.get() + 1);
                if *flag.get(rt) != 0 {
                    let inner = Rc::new(Cell::new(0));
                    create_effect(rt, Probe::Reader { from: *from, reads: 1, runs: inner })?;
                }
                Ok(0)
            }
            Probe::Branch { flag, extra, runs } => {
                runs.set(runs.get() + 1);
                if *flag.get(rt) != 0 {
                    Ok(*extra.get(rt))
                } else {
                    Ok(0)
                }
            }
            Probe::Sum { a, b, runs } => {
                runs.set(runs.get() + 1);
                Ok(*a.get(rt) + *b.get(rt))
            }
        }
    }
}

#[test]
fn read_without_write_returns_initial_value() {
    let mut rt: Runtime<i32, Probe> = Runtime::new();
    let (a, _set_a) = create_signal(&mut rt, 7);
    let (b, _set_b) = create_signal(&mut rt, -3);
    assert_eq!(*a.get(&mut rt), 7);
    assert_eq!(*a.get(&mut rt), 7);
    assert_eq!(*b.get(&mut rt), -3);
}

#[test]
fn write_then_read_returns_new_value() {
    let mut rt: Runtime<i32, Probe> = Runtime::new();
    let (a, set_a) = create_signal(&mut rt, 0);
    let (b, _set_b) = create_signal(&mut rt, 10);
    set_a.set(&mut rt, 5).unwrap();
    assert_eq!(*a.get(&mut rt), 5);
    assert_eq!(*b.get(&mut rt), 10);
    set_a.set(&mut rt, -8).unwrap();
    assert_eq!(*a.get(&mut rt), -8);
}

#[test]
fn effect_runs_once_before_returning() {
    let mut rt: Runtime<i32, Probe> = Runtime::new();
    let (a, _set_a) = create_signal(&mut rt, 1);
    let runs = Rc::new(Cell::new(0));
    create_effect(&mut rt, Probe::Reader { from: a, reads: 1, runs: runs.clone() }).unwrap();
    assert_eq!(runs.get(), 1);
}

#[test]
fn effect_reruns_once_per_write() {
    let mut rt: Runtime<i32, Probe> = Runtime::new();
    let (a, set_a) = create_signal(&mut rt, 1);
    let runs = Rc::new(Cell::new(0));
    create_effect(&mut rt, Probe::Reader { from: a, reads: 1, runs: runs.clone() }).unwrap();
    set_a.set(&mut rt, 2).unwrap();
    set_a.set(&mut rt, 3).unwrap();
    assert_eq!(runs.get(), 3);
}

#[test]
fn effect_without_dependencies_never_reruns() {
    let mut rt: Runtime<i32, Probe> = Runtime::new();
    let (a, set_a) = create_signal(&mut rt, 1);
    let runs = Rc::new(Cell::new(0));
    create_effect(&mut rt, Probe::Reader { from: a, reads: 0, runs: runs.clone() }).unwrap();
    set_a.set(&mut rt, 2).unwrap();
    assert_eq!(runs.get(), 1);
}

#[test]
fn memo_reads_do_not_rerun_derivation() {
    let mut rt: Runtime<i32, Probe> = Runtime::new();
    let (a, set_a) = create_signal(&mut rt, 2);
    let (b, set_b) = create_signal(&mut rt, 3);
    let runs = Rc::new(Cell::new(0));
    let sum = create_memo(&mut rt, Probe::Sum { a, b, runs: runs.clone() }).unwrap();
    assert_eq!(runs.get(), 1);
    assert_eq!(*sum.get(&rt).unwrap(), 5);
    assert_eq!(*sum.get(&rt).unwrap(), 5);
    assert_eq!(runs.get(), 1);
    set_a.set(&mut rt, 10).unwrap();
    assert_eq!(runs.get(), 2);
    set_b.set(&mut rt, 1).unwrap();
    assert_eq!(runs.get(), 3);
    assert_eq!(*sum.get(&rt).unwrap(), 11);
    assert_eq!(runs.get(), 3);
}

#[test]
fn reentrant_write_is_cyclic_dependency() {
    let mut rt: Runtime<i32, Probe> = Runtime::new();
    let (a, set_a) = create_signal(&mut rt, 0);
    // The first run writes `a` while nothing observes it yet: accepted.
    create_effect(&mut rt, Probe::Increment { from: a, to: set_a }).unwrap();
    assert_eq!(*a.get(&mut rt), 1);
    // Now the effect observes `a`, so writing `a` writes `a` again from its own propagation.
    assert_eq!(set_a.set(&mut rt, 5), Err(ReactiveError::CyclicDependency));
    assert_eq!(*a.get(&mut rt), 5);
    // The write lock was released when the chain was aborted.
    assert_eq!(set_a.set(&mut rt, 6), Err(ReactiveError::CyclicDependency));
    assert_eq!(*a.get(&mut rt), 6);
}

#[test]
fn effect_from_first_run_is_nested_collection() {
    let mut rt: Runtime<i32, Probe> = Runtime::new();
    let (a, _set_a) = create_signal(&mut rt, 1);
    let runs = Rc::new(Cell::new(0));
    assert_eq!(
        create_effect(&mut rt, Probe::Spawner { flag: a, from: a, runs: runs.clone() }),
        Err(ReactiveError::NestedCollection)
    );
    assert_eq!(runs.get(), 1);
    // The context is idle again: a plain effect can be created.
    let other = Rc::new(Cell::new(0));
    create_effect(&mut rt, Probe::Reader { from: a, reads: 1, runs: other.clone() }).unwrap();
    assert_eq!(other.get(), 1);
}

#[test]
fn memo_from_first_run_is_nested_collection() {
    let mut rt: Runtime<i32, Probe> = Runtime::new();
    let (a, _set_a) = create_signal(&mut rt, 1);
    let runs = Rc::new(Cell::new(0));
    assert_eq!(
        create_memo(&mut rt, Probe::Spawner { flag: a, from: a, runs: runs.clone() }),
        Err(ReactiveError::NestedCollection)
    );
    assert_eq!(runs.get(), 1);
}

#[test]
fn subscribing_to_a_propagating_signal_is_cyclic_dependency() {
    let mut rt: Runtime<i32, Probe> = Runtime::new();
    let (a, set_a) = create_signal(&mut rt, 0);
    let runs = Rc::new(Cell::new(0));
    // The first run reads `a` (zero) and creates nothing.
    create_effect(&mut rt, Probe::Spawner { flag: a, from: a, runs: runs.clone() }).unwrap();
    assert_eq!(runs.get(), 1);
    // The re-run creates a reader of `a` while the write of `a` propagates.
    assert_eq!(set_a.set(&mut rt, 1), Err(ReactiveError::CyclicDependency));
    assert_eq!(runs.get(), 2);
    assert_eq!(*a.get(&mut rt), 1);
}

#[test]
fn double_read_subscribes_twice() {
    let mut rt: Runtime<i32, Probe> = Runtime::new();
    let (a, set_a) = create_signal(&mut rt, 0);
    let runs = Rc::new(Cell::new(0));
    create_effect(&mut rt, Probe::Reader { from: a, reads: 2, runs: runs.clone() }).unwrap();
    assert_eq!(runs.get(), 1);
    set_a.set(&mut rt, 1).unwrap();
    assert_eq!(runs.get(), 3);
}

#[test]
fn branch_not_taken_on_first_run_is_never_tracked() {
    let mut rt: Runtime<i32, Probe> = Runtime::new();
    let (flag, set_flag) = create_signal(&mut rt, 0);
    let (extra, set_extra) = create_signal(&mut rt, 0);
    let runs = Rc::new(Cell::new(0));
    create_effect(&mut rt, Probe::Branch { flag, extra, runs: runs.clone() }).unwrap();
    set_flag.set(&mut rt, 1).unwrap();
    assert_eq!(runs.get(), 2);
    set_extra.set(&mut rt, 5).unwrap();
    assert_eq!(runs.get(), 2);
}
