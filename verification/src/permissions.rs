//! What the permission policy answers about a tool call.
use vstd::prelude::*;
use crate::json::{Json, JsonV};

verus! {

/// Whether a call may run: yes, only after the user agreed, or no and why.
#[derive(Debug, PartialEq)]
pub enum Decision {
    Allow,
    Ask,
    Deny(String),
}

/// What a [`Decision`] stands for.
pub enum DecisionV {
    Allow,
    Ask,
    Deny(Seq<char>),
}

impl View for Decision {
    type V = DecisionV;

    open spec fn view(&self) -> DecisionV {
        match self {
            Decision::Allow => DecisionV::Allow,
            Decision::Ask => DecisionV::Ask,
            Decision::Deny(reason) => DecisionV::Deny(reason@),
        }
    }
}

/// What is done to a call before it runs: nothing, some of its arguments are
/// replaced, or it is answered without running.
#[derive(Debug, PartialEq)]
pub enum PreAction {
    AsIs,
    Rewrite(Json),
    Short(String),
}

/// What a [`PreAction`] stands for.
pub enum PreActionV {
    AsIs,
    Rewrite(JsonV),
    Short(Seq<char>),
}

impl View for PreAction {
    type V = PreActionV;

    open spec fn view(&self) -> PreActionV {
        match self {
            PreAction::AsIs => PreActionV::AsIs,
            PreAction::Rewrite(patch) => PreActionV::Rewrite(patch@),
            PreAction::Short(result) => PreActionV::Short(result@),
        }
    }
}

/// What the `pre_tool_use` hooks and presets say of a call.
#[derive(Debug, PartialEq)]
pub enum PreVerdict {
    /// Nothing: the policy goes on.
    Pass,
    Allow,
    Ask(String),
    Deny(String),
    /// Run the call with these arguments laid over it.
    AllowRewritten(Json),
    /// Do not run the call; this is its result.
    Short(String),
}

/// What a [`PreVerdict`] stands for.
pub enum PreVerdictV {
    Pass,
    Allow,
    Ask(Seq<char>),
    Deny(Seq<char>),
    AllowRewritten(JsonV),
    Short(Seq<char>),
}

impl View for PreVerdict {
    type V = PreVerdictV;

    open spec fn view(&self) -> PreVerdictV {
        match self {
            PreVerdict::Pass => PreVerdictV::Pass,
            PreVerdict::Allow => PreVerdictV::Allow,
            PreVerdict::Ask(reason) => PreVerdictV::Ask(reason@),
            PreVerdict::Deny(reason) => PreVerdictV::Deny(reason@),
            PreVerdict::AllowRewritten(patch) => PreVerdictV::AllowRewritten(patch@),
            PreVerdict::Short(result) => PreVerdictV::Short(result@),
        }
    }
}

} // verus!
