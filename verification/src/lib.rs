//! Interactive shell-script runner, verified: dependency-ordered scheduling
//! of discovered scripts, an export protocol for passing environment
//! variables between them, and the execution engine's state machine.

pub mod codec;
pub mod engine;
pub mod error;
pub mod graph;
pub mod json;
pub mod manager;
pub mod parser;
pub mod script;
pub mod text;
pub mod vars;
pub mod worktree;

pub use codec::{ExportLineResult, ExportParser};
pub use engine::{
    CfgMap, ConfigValue, Engine, NextStep, RunReport, ScriptOutcome, SpawnRequest,
    ValidationIssue,
};
pub use error::VssError;
pub use manager::{PathTable, ScriptManager};
pub use parser::ScriptParser;
pub use script::{Script, ScriptArg, ScriptError, ScriptOpt, ScriptOptType, ScriptRequirement};
pub use vars::VarMap;
pub use worktree::{Worktree, WorktreeError, WorktreeManager};
