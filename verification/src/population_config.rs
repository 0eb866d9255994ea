//! The configuration of a population, as seen from outside the population.

use crate::population::config::Config;
use vstd::prelude::*;

verus! {

/// The configuration of a population, under the name it has for callers
/// outside the population.
pub type PopulationConfig = Config;

} // verus!
