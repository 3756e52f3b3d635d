//! Runtime resolution engine for a portable-application launcher.
//!
//! The launcher sits beside a relocatable bundle of shared libraries and
//! binaries.  This crate holds the logic that decides how a target binary is
//! launched: path splitting, library-path discovery and caching, interpreter
//! selection, environment synthesis, and assembly of the final exec plan.

use vstd::prelude::*;

pub mod cache;
pub mod elf;
pub mod env;
pub mod execplan;
pub mod interp;
pub mod launch;
pub mod paths;
pub mod probe;
pub mod rules;
pub mod strutil;

verus! {

} // verus!
