//! Verified core of the loop-run evaluation library.
use vstd::prelude::*;

pub mod digest;
pub mod digest_rewrite;
pub mod eval_engine;
pub mod eval_plan;
pub mod eval_report;
pub mod evaluation_attempt;
pub mod evaluation_storage;
pub mod immutable_artifact;
pub mod final_evaluation_authority;
pub mod inspect;
pub mod inspect_run;
pub mod inspect_steps;
pub mod loop_inspection;
pub mod migrated_artifacts;
pub mod migration;
pub mod migration_transaction;
pub mod model_runner;
pub mod number;
pub mod operator_evidence;
pub mod patch;
pub mod policy;
pub mod provider_attempts;
pub mod run_authentication;
pub mod schema_upgrade;
pub mod text;

verus! {
} // verus!
