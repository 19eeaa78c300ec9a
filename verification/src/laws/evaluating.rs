//! Laws of evaluation.

use crate::configuration::Context;
use crate::error::SpecError;
use crate::tree::{arguments_of, arity, evaluation, well_formed, SpecKind, SpecNode};
use crate::value::SpecValue;
use vstd::prelude::*;

verus! {

/// Where the first `count` children of a node have values, there are
/// `count` of them.
pub proof fn lemma_arguments_count(node: SpecNode, context: Context, count: int)
    requires
        0 <= count <= node.children.len(),
        arguments_of(node, context, count) is Ok,
    ensures
        arguments_of(node, context, count)->Ok_0.len() == count,
    decreases count,
{
    if count > 0 {
        lemma_arguments_count(node, context, count - 1);
    }
}

/// The number of arguments of a call is checked against the number that
/// the function takes: a call whose arguments all have values, of a
/// function that the context knows and that takes another number of
/// arguments, fails with both numbers.
pub proof fn law_arity_is_checked(node: SpecNode, context: Context, name: Seq<char>)
    requires
        node.kind == SpecKind::Call(name),
        context.functions.contains_key(name),
        context.functions[name].arity != node.children.len(),
        arguments_of(node, context, node.children.len() as int) is Ok,
    ensures
        evaluation(node, context) == Err::<SpecValue, SpecError>(
            SpecError::WrongArgumentAmount {
                expected: context.functions[name].arity,
                actual: node.children.len() as int,
            },
        ),
{
    lemma_arguments_count(node, context, node.children.len() as int);
}

/// A failure that tells of a wrong number of children.
pub open spec fn is_arity_failure(outcome: Result<SpecValue, SpecError>) -> bool {
    outcome matches Err(e) && (e is AppendedToLeafNode || e is WrongArgumentAmount)
}

/// A call stands somewhere in the tree.
pub open spec fn has_call(node: SpecNode) -> bool
    decreases node,
{
    node.kind is Call || exists|i: int|
        0 <= i < node.children.len() && has_call(#[trigger] node.children[i])
}

/// Among the first `count` children of a well-formed node without calls
/// none fails with a wrong number of children.
pub proof fn lemma_arguments_keep_arity(node: SpecNode, context: Context, count: int)
    requires
        well_formed(node),
        !has_call(node),
        0 <= count <= node.children.len(),
    ensures
        !(arguments_of(node, context, count) matches Err(e) && (e is AppendedToLeafNode
            || e is WrongArgumentAmount)),
    decreases node, count,
{
    if count > 0 {
        lemma_arguments_keep_arity(node, context, count - 1);
        let child = node.children[count - 1];
        assert(well_formed(child));
        assert(!has_call(child));
        law_operators_keep_arity(child, context);
    }
}

/// A tree in which every node has as many children as its kind takes
/// never fails for a wrong number of children, unless through a call: no
/// operator in it is applied to too few or too many values.
pub proof fn law_operators_keep_arity(node: SpecNode, context: Context)
    requires
        well_formed(node),
        !has_call(node),
    ensures
        !is_arity_failure(evaluation(node, context)),
    decreases node, node.children.len() + 1,
{
    let count = node.children.len() as int;
    lemma_arguments_keep_arity(node, context, count);
    if arguments_of(node, context, count) is Ok {
        lemma_arguments_count(node, context, count);
        let arguments = arguments_of(node, context, count)->Ok_0;
        assert(arity(node.kind) matches Some(n) ==> n == arguments.len());
    }
}

} // verus!
