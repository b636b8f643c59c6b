pub mod admission;
pub mod answers;
pub mod availability;
pub mod choices;
pub mod collections;
pub mod comparisons;
pub mod dependencies;
pub mod dist;
pub mod error;
pub mod fetch;
pub mod forks;
pub mod graph;
pub mod install;
pub mod laws;
pub mod order;
pub mod outcome;
pub mod package;
pub mod pep440;
pub mod precedence;
pub mod promises;
pub mod python;
pub mod range;
pub mod registry;
pub mod request;
pub mod resolution;
pub mod resolver;
pub mod selection;
pub mod solver;
mod soundness;
pub mod specifier;
pub mod state;
pub mod step;
pub mod style;
pub mod support;
pub mod text;
pub mod transition;
pub mod version;
pub mod views;
