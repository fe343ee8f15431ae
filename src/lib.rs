//! Fine-grained reactive primitives: signals whose reads are tracked by the
//! computation that is collecting its dependencies, and effects and memos that
//! re-run whenever a signal they read on their first run is written.

pub mod laws;
pub mod runtime;
pub mod signal;

pub use runtime::{
    create_effect, create_memo, create_signal, Body, Computation, Getter, Memo, ReactiveError,
    Runtime, Setter,
};
pub use signal::Signal;
