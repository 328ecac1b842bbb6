//! Topology compiler for an observability-data pipeline.
//!
//! A declarative description of sources, transforms and sinks — with
//! wildcard input references and self-expanding components — is turned
//! into a validated, cycle-free directed graph, or a list of errors.

pub mod cycles;
pub mod expand;
pub mod globexpand;
pub mod graph;
pub mod globpat;
pub mod id;
pub mod inputs;
pub mod messages;
pub mod omap;
pub mod compiler;
pub mod config;
pub mod state;
pub mod strutil;
pub mod validation;
pub mod vrl;

use vstd::prelude::*;

verus! {

} // verus!
