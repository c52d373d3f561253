//! The fleet configuration: one endpoint address per operator service.
//!
//! The addresses come from the environment; reading them is I/O and happens
//! outside this crate, which only carries the resulting values.

use vstd::prelude::*;

verus! {

/// The four operator endpoint addresses.  The orchestrator needs all four;
/// each operator needs the other three.
#[derive(Debug, Clone)]
pub struct Config {
    pub adder_addr: String,
    pub subtractor_addr: String,
    pub multiplier_addr: String,
    pub divider_addr: String,
}

} // verus!
