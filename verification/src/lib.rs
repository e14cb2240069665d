//! A file-transformation orchestrator core: prioritized input directories
//! feed prioritized transformer instances; a claiming pass assigns every
//! discovered file to at most one instance, an overwrite policy gates each
//! write, and an orphan sweep reconciles the output tree with the claims
//! of the current run.
//!
//! Walking directories, copying bytes and spawning external processes are
//! I/O and stay with the caller; everything the orchestrator decides — the
//! filter verdicts, the claim assignment, the overwrite decisions, the
//! sweep plan, the queue-to-work translation — is here, each function
//! carrying its contract.

use vstd::prelude::*;

pub mod command;
pub mod config;
pub mod engine;
pub mod filters;
pub mod input_files;
pub mod paths;
pub mod overwrite;
pub mod patterns;
pub mod sets;
pub mod transformer;

pub use crate::command::{CommandArgument, CommandError, FullCommand};
pub use crate::config::{
    CfgCommand, CfgCommandTransformer, CfgFilter, CfgInputDirectory, CfgOverwriteBehavior,
    CfgTranformerSelection, CfgTransformerInstance, Config, ConfigError,
};
pub use crate::engine::{
    orphaned_files, priority_order, run_claiming, ClaimedSets, DirectoryListing,
};
pub use crate::filters::{Filter, FilterAction, FilterPattern, FilterSet};
pub use crate::input_files::InputDirectory;
pub use crate::overwrite::{overwrite_decision, OverwriteDecision};
pub use crate::patterns::{CompiledGlob, CompiledRegex};
pub use crate::sets::StringSet;
pub use crate::transformer::{
    CommandTransformer, CopyTransformer, InputId, InputQueue, OutputId, OverwriteBehavior,
    Transformer, TransformerInstance, TransformerKind, WorkItem,
};

verus! {

} // verus!
