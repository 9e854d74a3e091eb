//! A generic evolutionary (genetic-algorithm) optimizer.
//!
//! Given four caller-supplied operators — generate a random agent, score an
//! agent's fitness, mutate an agent, and combine two agents into an offspring
//! — the engine searches for an agent that maximizes the fitness function by
//! running a generational loop: initialize a population, then repeatedly pair
//! parents, cross them over, mutate, and keep the fittest.

pub mod engine;
pub mod rng;
pub mod select;

pub use engine::Genetic;
pub use engine::GeneticError;
pub use engine::PROB_ONE;
