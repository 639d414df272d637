//! Chooses which Python interpreter to run.
//!
//! The search path is scanned for executables named `pythonX.Y` (`scan`),
//! the first one found of each version is kept (`registry`), the signals of
//! the environment are read (`signals`), the highest-precedence signal picks
//! the interpreter (`resolve`), and the outcome becomes an action to carry
//! out (`action`). Versions are parsed and formatted in `version`.
use vstd::prelude::*;

pub mod action;
pub mod registry;
pub mod resolve;
pub mod scan;
pub mod signals;
pub mod version;

verus! {

} // verus!
