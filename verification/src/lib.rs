//! Sir Bone: the logic of a coding agent that talks to a language model and runs
//! tools for it.
//!
//! What reads and writes is not here. Where the agent has to wait for something
//! outside (a provider, a tool, a hook, the user), a machine of this library takes
//! what came as an event and says what to do next as an action; see
//! [`agent::machine`], [`agent::batch`], [`agent::answer`] and [`ai::exchange`].
//! Texts and JSON values are specified over `Seq<char>` and [`json::JsonV`], and
//! each type with a `View` is specified over that view.
use vstd::prelude::*;

pub mod ablate;
pub mod acp;
pub mod agent;
pub mod ai;
pub mod attachments;
pub mod best_of;
pub mod checks;
pub mod claude_md;
pub mod cmd;
pub mod config;
pub mod highlight;
pub mod json;
pub mod paths;
pub mod patterns;
pub mod permissions;
pub mod risk;
pub mod table;
pub mod text;
pub mod types;

verus! {

} // verus!
