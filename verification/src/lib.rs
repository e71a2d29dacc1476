//! A Core War simulator: a Redcode assembler and the machine that runs the
//! assembled warriors against each other in a circular core.

pub mod event;
pub mod executor;
pub mod expression;
pub mod instructions;
pub mod laws;
pub mod listing;
pub mod literal;
pub mod machine;
pub mod numeric;
pub mod operand;
pub mod parser;
pub mod roundtrip;
pub mod table;
pub mod text;
pub mod variables;
pub mod vms;
