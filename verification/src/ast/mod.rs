//! The KQL syntax tree.

pub mod expression;
pub mod query;
