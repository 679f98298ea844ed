//! A local agent between a browser circuit editor and an installed analog
//! circuit simulator: netlist preparation, the two result-file decoders, the
//! engine's diagnostics, and the protocol engine's decisions, all verified.
use vstd::prelude::*;

pub mod text;
pub mod netlist;
pub mod diagnostics;
pub mod protocol;
pub mod binary;
pub mod fields;
pub mod codec;
pub mod ltspice;
pub mod ngspice;
pub mod agent;
pub mod libraries;
pub mod includes;
pub mod supervisor;
