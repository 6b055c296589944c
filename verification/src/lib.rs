//! Headless driving and verification of terminal UIs.
//!
//! A UI reports its state as one JSON document, the state seam
//! ([`DumpState`]); conditions over dot-paths into it ([`Condition`]) are
//! asserted or waited for. Input goes through a [`PaneBackend`]: the hosts
//! (tmux, zellij, GNU screen, a pseudo-terminal) are the only host-specific
//! part. Scripts of steps ([`parse_script`]) run on a state machine
//! ([`ScriptRun`]) that decides every action, so the same script drives a live
//! pane or an in-process model ([`Harness`]).
pub mod backend;
pub mod cast;
pub mod cli;
pub mod decimal;
pub mod condition;
pub mod driver;
pub mod harness;
pub mod json;
pub mod key;
pub mod number;
pub mod outcome;
pub mod record;
pub mod replay;
pub mod runner;
pub mod script;
pub mod seam;
pub mod text;

pub use backend::{plan_send, stuff_payload, Action, PaneBackend, ScreenBackend, TmuxBackend, TmuxSend, ZellijBackend};
pub use cast::{cast_header, parse_pane_size, shell_quote};
pub use condition::{Condition, NumOp, Observed};
pub use driver::{screen_state, WaitOutcome, WaitPoll, WaitStep, WatchPoll, WatchStep};
pub use harness::{check_condition, DumpState, Harness, InProcessBackend, InProcessUi};
pub use json::Json;
pub use key::{parse_keys, Key, TmuxKey, ZellijKey};
pub use outcome::{FailReason, RunEvent, RunResult, StepFailure};
pub use record::ScriptRecorder;
pub use runner::{Phase, RunAction, RunOptions, RunReply, ScriptRun};
pub use script::{parse_script, Step, TypeSource};
pub use seam::{leaves, validate, Leaf, SeamReport};
