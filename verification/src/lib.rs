//! A genetic algorithm for the knapsack problem with a weight and a size
//! budget.

pub mod consts;
pub mod csv;
pub mod linalg;
pub mod population;
pub mod population_config;
pub mod random;
pub mod scenario;
pub mod train;
