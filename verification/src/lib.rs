pub mod assign;
pub mod binary_number;
pub mod circuit;
pub mod config;
pub mod configure;
pub mod consistency;
pub mod constraint_builder;
pub mod constraint_system;
pub mod copy_event;
pub mod expression;
pub mod field;
pub mod gates;
pub mod less_than;
pub mod prime;
pub mod region;
pub mod soundness;
pub mod steps;
pub mod table;
pub mod witness;
