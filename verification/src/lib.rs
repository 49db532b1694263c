//! Verified core of the nu-sidecar shell plugins: the bash-to-nushell
//! translator, provider and configuration model, transcript handling and
//! the decisions the plugin commands make.
use vstd::prelude::*;

pub mod text;
pub mod transcript;
pub mod xdg;
pub mod commands;
pub mod config;
pub mod llm_client;
pub mod provider;
pub mod rules;

verus! {
} // verus!
