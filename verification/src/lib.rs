//! Verified core of a liquidation-cascade radar over perpetual-futures markets.
//!
//! The library folds per-symbol market events (derivatives snapshots, order-book
//! snapshots, liquidations) into bounded windows, decides which signals are
//! ready and which window values each one reads, validates radar specifications,
//! ranks alerts into a report and frames the JSON command envelopes.
//!
//! Market quantities are carried through opaquely as a value type `V`; the
//! arithmetic on them (scores and the weighted severity) belongs to the caller.
use vstd::prelude::*;

pub mod batch;
pub mod command;
pub mod error;
pub mod history;
pub mod jsonl;
pub mod event;
pub mod order;
pub mod radar;
pub mod render;
pub mod report;
pub mod signal;
pub mod spec;
pub mod symbol_state;
pub mod universe;
pub mod text;

pub use batch::{fold_one, fold_symbols};
pub use command::{
    error_json, missing_field, missing_string, ok_json, parse_command, reply, version,
    version_json, Command,
};
pub use error::{Error, Result};
pub use event::{Event, Side};
pub use radar::Radar;
pub use report::{rank, Candidate};
pub use signal::{signal_key, SignalKind};
pub use spec::{SignalShape, SpecShape};
pub use symbol_state::{ScoreInputs, SymbolState};
pub use universe::Universe;

verus! {

} // verus!
