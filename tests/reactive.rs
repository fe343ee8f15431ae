use std::cell::Cell;
use std::rc::Rc;

use maple_core::runtime::RuntimeView;
use maple_core::{create_effect, create_memo, create_signal, Body, Getter, ReactiveError, Runtime, Setter};

enum Node {
    /// Writes twice the value of `from` into `to`.
    Double { from: Getter, to: Setter },
    /// Derives twice the value of `from`.
    Twice { from: Getter },
    /// Derives twice the value of `from`, counting its runs.
    CountedTwice { from: Getter, counter: Rc<Cell<i32>> },
}

impl Body<i32> for Node {
    /// These bodies are not verified: every outcome is allowed.
    fn ran(
        &self,
        _pre: RuntimeView<i32, Node>,
        _post: RuntimeView<i32, Node>,
        _r: Result<i32, ReactiveError>,
    ) -> bool {
        true
    }

    fn run(&self, rt: &mut Runtime<i32, Node>) -> Result<i32, ReactiveError> {
        match self {
            Node::Double { from, to } => {
                let v = *from.get(rt) * 2;
                to.set(rt, v)?;
                Ok(v)
            }
            Node::Twice { from } => Ok(*from.get(rt) * 2),
            Node::CountedTwice { from, counter } => {
                counter.set(counter.get() + 1);
                Ok(*from.get(rt) * 2)
            }
        }
    }
}

#[test]
fn signals() {
    let mut rt: Runtime<i32, Node> = Runtime::new();
    let (state, set_state) = create_signal(&mut rt, 0);
    assert_eq!(*state.get(&mut rt), 0);

    set_state.set(&mut rt, 1).unwrap();
    assert_eq!(*state.get(&mut rt), 1);
}

#[test]
fn effects() {
    let mut rt: Runtime<i32, Node> = Runtime::new();
    let (state, set_state) = create_signal(&mut rt, 0);

    let (double, set_double) = create_signal(&mut rt, -1);

    create_effect(&mut rt, Node::Double { from: state, to: set_double }).unwrap();
    assert_eq!(*double.get(&mut rt), 0); // calling create_effect should call the effect at least once

    set_state.set(&mut rt, 1).unwrap();
    assert_eq!(*double.get(&mut rt), 2);
    set_state.set(&mut rt, 2).unwrap();
    assert_eq!(*double.get(&mut rt), 4);
}

#[test]
fn memo() {
    let mut rt: Runtime<i32, Node> = Runtime::new();
    let (state, set_state) = create_signal(&mut rt, 0);

    let double = create_memo(&mut rt, Node::Twice { from: state }).unwrap();
    assert_eq!(*double.get(&rt).unwrap(), 0);

    set_state.set(&mut rt, 1).unwrap();
    assert_eq!(*double.get(&rt).unwrap(), 2);

    set_state.set(&mut rt, 2).unwrap();
    assert_eq!(*double.get(&rt).unwrap(), 4);
}

/// Make sure value is memoized rather than executed on demand.
#[test]
fn memo_only_run_once() {
    let mut rt: Runtime<i32, Node> = Runtime::new();
    let (state, set_state) = create_signal(&mut rt, 0);

    let counter = Rc::new(Cell::new(0));

    let double = create_memo(
        &mut rt,
        Node::CountedTwice { from: state, counter: counter.clone() },
    )
    .unwrap();
    assert_eq!(counter.get(), 1); // once for calculating initial derived state

    set_state.set(&mut rt, 2).unwrap();
    assert_eq!(counter.get(), 2);
    assert_eq!(*double.get(&rt).unwrap(), 4);
    assert_eq!(counter.get(), 2); // should still be 2 after access
}
