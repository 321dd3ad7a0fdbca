//! A verified tokenizer and recursive-descent parser for the small formula
//! language that describes how a biological-network model variable computes
//! its next value: integer constants, variable references, the four binary
//! arithmetic operators, single-argument named functions (`abs`, `ceil`,
//! `floor`) and variadic aggregation functions (`min`, `max`, `avg`).
//!
//! Formula text is turned first into a token tree ([`tokens::BmaFnToken`]) and
//! then into an expression tree ([`bma_fn_tree::BmaFnUpdate`]). Every stage is
//! a pure function of its input; the contracts pin each result down to a
//! mathematical model of the whole pipeline.

pub mod bma_fn_tree;
pub mod enums;
pub mod errors;
pub mod parser;
pub mod tokenizer;
pub mod tokens;
