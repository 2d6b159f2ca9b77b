//! A branch-promotion pipeline: an ordered chain of stages is merged
//! forward one transition at a time, every transition is recorded in a
//! durable step log before and after the merge, and the log drives a
//! reverse-order unwind that restores the repository when a run must be
//! rolled back.
//!
//! The library holds the decision logic: the stage chain, the engine
//! state machine that orders the transitions, the tag-set diff, the log
//! codec, and the unwind planner. The version-control commands and the
//! log file itself are performed by the caller, which feeds each
//! command's outcome back into the engine.

pub mod codec;
pub mod engine;
pub mod stage;
pub mod step;
pub mod tags;
pub mod unwind;

pub use codec::{decode_history, encode_history, LogError};
pub use engine::{Action, Engine, Event, MergeContext, Phase};
pub use stage::{Branch, DSLRunner};
pub use step::MergeStep;
pub use step::StepModel;
pub use tags::tag_diff;
pub use unwind::{unwind_decision, unwind_plan, UndoAction, UnwindOutcome};
