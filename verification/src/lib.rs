//! The front end of a text-templating language: it parses a stream of
//! already-tokenized template fragments into a tree of renderable nodes, and
//! evaluates expressions (variable paths, literals, filter pipelines) against
//! a runtime context.

pub mod context;
pub mod element;
pub mod error;
pub mod expression;
pub mod laws;
pub mod output;
pub mod parser;
pub mod renderable;
pub mod tag;
pub mod tags;
pub mod text;
pub mod token;
pub mod value;

pub use context::Context;
pub use context::Filter;
pub use element::Element;
pub use element::ElementV;
pub use error::Error;
pub use parser::parse;
pub use parser::parse_expression;
pub use parser::parse_indexes;
pub use parser::parse_indexes_range;
pub use parser::parse_output;
pub use parser::parse_tag;
pub use parser::collect_block_body;
pub use parser::split_block;
pub use parser::expect;
pub use parser::consume_value_token;
pub use parser::value_token;
pub use parser::BlockSplit;
pub use tags::comment_block;
pub use tags::Comment;
pub use renderable::Node;
pub use renderable::NodeV;
pub use renderable::Renderable;
pub use renderable::Text;
pub use tag::FnBlockParser;
pub use tag::FnTagParser;
pub use tag::LiquidOptions;
pub use tag::ParseBlock;
pub use tag::ParseTag;
pub use tag::ParseTagClone;
pub use output::FilterCall;
pub use output::FilterChain;
pub use output::FilterPrototype;
pub use output::FilterPrototypeV;
pub use output::Output;
pub use output::OutputV;
pub use expression::Expression;
pub use expression::ExpressionV;
pub use expression::Variable;
pub use expression::VariableV;
pub use parser::unexpected_token_error;
pub use parser::unexpected_token_error_string;
pub use token::ComparisonOperator;
pub use token::Token;
pub use token::TokenV;
pub use error::ErrorV;
pub use value::Scalar;
pub use value::ScalarV;
pub use value::Value;
pub use value::ValueV;
