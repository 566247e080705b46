//! Metamorphic test-case generation for a stratified, rule-based reasoning
//! engine. The crate builds an annotated dependency graph (ADG) of a logic
//! program, propagates ancestry and inverse-stratum information backward from
//! a designated output predicate, and applies randomized, oracle-constrained
//! structural mutations whose relationship to the original program is
//! predictable under a declared transformation class.

pub mod add_fact_node_and_edge;
pub mod add_relational_node;
pub mod adg;
pub mod ancestry;
pub mod builder;
pub mod errors;
pub mod hello_world;
pub mod name_rules;
pub mod numerals;
pub mod program;
pub mod propagate;
pub mod render;
pub mod rng;
pub mod select_random_output_predicate;
pub mod testing_transformation;
pub mod transformation_manager;
pub mod transformation_types;

pub use ancestry::Ancestry;
pub use errors::ErrorKind;
