//! An embeddable expression language: text is scanned into tokens, the
//! tokens are built into an operator tree, and the tree is evaluated against
//! a configuration that supplies variables and functions.
//!
//! The three stages are [`token::tokenize`],
//! [`builder::tokens_to_operator_tree`] and [`Node::eval`]. A tree does not
//! depend on a configuration and can be evaluated against many.
//!
//! What each stage yields is defined by a function on mathematical values,
//! and the stage is proved to compute it. The module [`laws`] holds what is
//! proved of those definitions, such as that parentheses around a whole
//! expression change nothing.

use vstd::prelude::*;

pub mod builder;
pub mod configuration;
pub mod error;
pub mod float;
pub mod function;
pub mod laws;
pub mod operator;
pub mod token;
pub mod tree;
pub mod value;

pub use configuration::{Configuration, EmptyConfiguration, HashMapConfiguration};
pub use error::Error;
pub use float::Float;
pub use function::{Function, FunctionBody};
pub use tree::Node;
pub use value::Value;

use builder::{built_view, tokens_to_operator_tree, tree_of};
use configuration::{empty_context, Context};
use error::SpecError;
use function::outcome_view;
use token::{tokenize, tokens_of};
use tree::{evaluation, well_formed, SpecNode};
use value::SpecValue;

verus! {

/// The operator tree of a text: the text is scanned, and the tokens are
/// built into a tree. The first failure of either stage is the result.
pub open spec fn tree_of_text(text: Seq<char>) -> Result<SpecNode, SpecError> {
    match tokens_of(text) {
        Err(e) => Err(e),
        Ok(tokens) => tree_of(tokens),
    }
}

/// The value of a text in a context: the value of its operator tree, or the
/// first failure of any stage.
pub open spec fn value_of_text(text: Seq<char>, context: Context) -> Result<SpecValue, SpecError> {
    match tree_of_text(text) {
        Err(e) => Err(e),
        Ok(node) => evaluation(node, context),
    }
}

/// Builds the operator tree of an expression. In the tree every node has
/// as many children as its kind takes.
pub fn build_operator_tree(string: &str) -> (r: Result<Node, Error>)
    ensures
        built_view(r) == tree_of_text(string@),
        r matches Ok(node) ==> well_formed(node@),
{
    match tokenize(string) {
        Err(e) => Err(e),
        Ok(tokens) => tokens_to_operator_tree(tokens),
    }
}

/// Evaluates an expression against a configuration.
pub fn eval_with_configuration<C: Configuration>(string: &str, configuration: &C) -> (r: Result<
    Value,
    Error,
>)
    ensures
        outcome_view(r) == value_of_text(string@, configuration.context()),
{
    match build_operator_tree(string) {
        Err(e) => Err(e),
        Ok(node) => node.eval(configuration),
    }
}

/// Evaluates an expression that uses no variables and no functions.
pub fn eval(string: &str) -> (r: Result<Value, Error>)
    ensures
        outcome_view(r) == value_of_text(string@, empty_context()),
{
    eval_with_configuration(string, &EmptyConfiguration)
}

} // verus!
