//! The operator tree of an expression, and its evaluation.

use crate::configuration::{Configuration, Context};
use crate::error::{Error, SpecError};
use crate::function::outcome_view;
use crate::operator::{
    apply_arithmetic, apply_comparison, apply_element, apply_equal, apply_inverted, apply_logical,
    apply_member, apply_negated, apply_range, arithmetic, comparison, element, equal, inverted,
    logical, member, negated, range, Arithmetic, Comparison,
};
use crate::value::{lemma_array_view, views, SpecValue, Value};
use vstd::prelude::*;

verus! {

/// The mathematical content of a [`Kind`].
pub enum SpecKind {
    Const(SpecValue),
    Variable(Seq<char>),
    Neg,
    Not,
    Arithmetic(Arithmetic),
    Comparison(Comparison),
    Eq,
    Neq,
    And,
    Or,
    Call(Seq<char>),
    Array,
    Range,
    Member(Seq<char>),
    Index,
}

/// What a node of the tree is.
#[derive(Debug)]
pub enum Kind {
    /// A literal value. It has no children.
    Const(Value),
    /// The variable of that name. It has no children.
    Variable(String),
    /// Unary minus, of one child.
    Neg,
    /// Logical not, of one child.
    Not,
    /// `+ - * / %`, of two children.
    Arithmetic(Arithmetic),
    /// `< > <= >=`, of two children.
    Comparison(Comparison),
    /// `==`, of two children.
    Eq,
    /// `!=`, of two children.
    Neq,
    /// `&&`, of two children.
    And,
    /// `||`, of two children.
    Or,
    /// The call of the function of that name; the children are its
    /// arguments.
    Call(String),
    /// The array of its children.
    Array,
    /// `a..b`, of two children.
    Range,
    /// The field of that name of its one child.
    Member(String),
    /// `base[index]`, of two children.
    Index,
}

impl View for Kind {
    type V = SpecKind;

    open spec fn view(&self) -> SpecKind {
        match self {
            Kind::Const(value) => SpecKind::Const(value@),
            Kind::Variable(name) => SpecKind::Variable(name@),
            Kind::Neg => SpecKind::Neg,
            Kind::Not => SpecKind::Not,
            Kind::Arithmetic(op) => SpecKind::Arithmetic(*op),
            Kind::Comparison(op) => SpecKind::Comparison(*op),
            Kind::Eq => SpecKind::Eq,
            Kind::Neq => SpecKind::Neq,
            Kind::And => SpecKind::And,
            Kind::Or => SpecKind::Or,
            Kind::Call(name) => SpecKind::Call(name@),
            Kind::Array => SpecKind::Array,
            Kind::Range => SpecKind::Range,
            Kind::Member(name) => SpecKind::Member(name@),
            Kind::Index => SpecKind::Index,
        }
    }
}

/// The mathematical content of a [`Node`].
pub struct SpecNode {
    pub kind: SpecKind,
    pub children: Seq<SpecNode>,
}

/// A node of an operator tree: what it is, and its children in order. A
/// tree owns its children and is not changed once it is built.
#[derive(Debug)]
pub struct Node {
    kind: Kind,
    children: Vec<Node>,
}

impl View for Node {
    type V = SpecNode;

    closed spec fn view(&self) -> SpecNode
        decreases self,
    {
        SpecNode {
            kind: self.kind@,
            children: Seq::new(
                self.children.len() as nat,
                |i: int|
                    if 0 <= i < self.children.len() {
                        self.children[i].view()
                    } else {
                        SpecNode { kind: SpecKind::Array, children: Seq::empty() }
                    },
            ),
        }
    }
}

/// The contents of a sequence of nodes.
pub open spec fn node_views(nodes: Seq<Node>) -> Seq<SpecNode> {
    Seq::new(nodes.len(), |i: int| nodes[i]@)
}

/// The number of children that a node of this kind takes; nothing for a
/// kind that takes any number.
pub open spec fn arity(kind: SpecKind) -> Option<int> {
    match kind {
        SpecKind::Const(_) | SpecKind::Variable(_) => Some(0),
        SpecKind::Neg | SpecKind::Not | SpecKind::Member(_) => Some(1),
        SpecKind::Call(_) | SpecKind::Array => None,
        _ => Some(2),
    }
}

/// Every node of the tree has as many children as its kind takes.
pub open spec fn well_formed(node: SpecNode) -> bool
    decreases node,
{
    &&& arity(node.kind) matches Some(n) ==> node.children.len() == n
    &&& forall|i: int| 0 <= i < node.children.len() ==> well_formed(#[trigger] node.children[i])
}

/// What a node with the given kind makes of the values of its children.
///
/// A node with another number of children than its kind takes fails: with
/// `AppendedToLeafNode` where it takes none, else with
/// `WrongArgumentAmount`. A variable is looked up in the context. A call
/// looks the function up, then checks the number of arguments against the
/// number that the function takes, then hands the arguments to the body.
pub open spec fn apply(kind: SpecKind, arguments: Seq<SpecValue>, context: Context) -> Result<
    SpecValue,
    SpecError,
> {
    if arity(kind) is Some && arity(kind)->0 != arguments.len() {
        if arity(kind)->0 == 0 {
            Err(SpecError::AppendedToLeafNode)
        } else {
            Err(
                SpecError::WrongArgumentAmount {
                    expected: arity(kind)->0,
                    actual: arguments.len() as int,
                },
            )
        }
    } else {
        match kind {
            SpecKind::Const(value) => Ok(value),
            SpecKind::Variable(name) => if context.variables.contains_key(name) {
                Ok(context.variables[name])
            } else {
                Err(SpecError::VariableIdentifierNotFound(name))
            },
            SpecKind::Neg => negated(arguments[0]),
            SpecKind::Not => inverted(arguments[0]),
            SpecKind::Arithmetic(op) => arithmetic(op, arguments[0], arguments[1]),
            SpecKind::Comparison(op) => comparison(op, arguments[0], arguments[1]),
            SpecKind::Eq => Ok(SpecValue::Boolean(equal(arguments[0], arguments[1]))),
            SpecKind::Neq => Ok(SpecValue::Boolean(!equal(arguments[0], arguments[1]))),
            SpecKind::And => logical(true, arguments[0], arguments[1]),
            SpecKind::Or => logical(false, arguments[0], arguments[1]),
            SpecKind::Call(name) => if !context.functions.contains_key(name) {
                Err(SpecError::FunctionIdentifierNotFound(name))
            } else if context.functions[name].arity != arguments.len() {
                Err(
                    SpecError::WrongArgumentAmount {
                        expected: context.functions[name].arity,
                        actual: arguments.len() as int,
                    },
                )
            } else {
                (context.functions[name].result)(arguments)
            },
            SpecKind::Array => Ok(SpecValue::Array(arguments)),
            SpecKind::Range => range(arguments[0], arguments[1]),
            SpecKind::Member(name) => member(arguments[0], name),
            SpecKind::Index => element(arguments[0], arguments[1]),
        }
    }
}

/// The values of the first `count` children of a node, evaluated from left
/// to right; the first failure among them ends the evaluation.
pub open spec fn arguments_of(node: SpecNode, context: Context, count: int) -> Result<
    Seq<SpecValue>,
    SpecError,
>
    decreases node, count,
{
    if count <= 0 || count > node.children.len() {
        Ok(Seq::empty())
    } else {
        match arguments_of(node, context, count - 1) {
            Err(e) => Err(e),
            Ok(values) => match evaluation(node.children[count - 1], context) {
                Err(e) => Err(e),
                Ok(value) => Ok(values.push(value)),
            },
        }
    }
}

/// The value of a tree in a context: every child is evaluated, from left to
/// right, and then the node is applied to the children's values. Both
/// operands of `&&` and `||` are evaluated in every case.
pub open spec fn evaluation(node: SpecNode, context: Context) -> Result<SpecValue, SpecError>
    decreases node, node.children.len() + 1,
{
    match arguments_of(node, context, node.children.len() as int) {
        Err(e) => Err(e),
        Ok(arguments) => apply(node.kind, arguments, context),
    }
}

/// A node's content is its kind's content and the contents of its children.
proof fn lemma_node_view(node: Node)
    ensures
        node@.kind == node.kind@,
        node@.children == node_views(node.children@),
{
    assert(node@.children.len() == node.children.len());
    assert(node@.children =~= node_views(node.children@));
}

impl Node {
    /// A node of the given kind with the given children.
    pub(crate) fn new(kind: Kind, children: Vec<Node>) -> (node: Node)
        ensures
            node@ == (SpecNode { kind: kind@, children: node_views(children@) }),
    {
        let node = Node { kind, children };
        proof {
            lemma_node_view(node);
        }
        node
    }

    /// What the node is.
    pub fn kind(&self) -> (kind: &Kind)
        ensures
            kind@ == self@.kind,
    {
        proof {
            lemma_node_view(*self);
        }
        &self.kind
    }

    /// The node's children, in order.
    pub fn children(&self) -> (children: &Vec<Node>)
        ensures
            node_views(children@) == self@.children,
    {
        proof {
            lemma_node_view(*self);
        }
        &self.children
    }

    /// Evaluates the tree against a configuration. The tree and the
    /// configuration are left as they are.
    pub fn eval<C: Configuration>(&self, configuration: &C) -> (r: Result<Value, Error>)
        ensures
            outcome_view(r) == evaluation(self@, configuration.context()),
        decreases self,
    {
        proof {
            lemma_node_view(*self);
        }
        let ghost context = configuration.context();
        let mut arguments: Vec<Value> = Vec::new();
        let mut i: usize = 0;
        assert(views(arguments@) =~= Seq::<SpecValue>::empty());
        while i < self.children.len()
            invariant
                i <= self.children.len(),
                context == configuration.context(),
                self@.children == node_views(self.children@),
                arguments_of(self@, context, i as int) == Ok::<Seq<SpecValue>, SpecError>(
                    views(arguments@),
                ),
            decreases self.children.len() - i,
        {
            assert(decreases_to!(*self => self.children[i as int]));
            match self.children[i].eval(configuration) {
                Err(e) => {
                    proof {
                        lemma_failure_stays(self@, context, i + 1, self.children.len() as int);
                    }
                    return Err(e);
                },
                Ok(value) => {
                    assert(views(arguments@.push(value)) =~= views(arguments@).push(value@));
                    arguments.push(value);
                },
            }
            i += 1;
        }
        apply_kind(&self.kind, arguments, configuration)
    }
}

/// Once a child has failed, the children behind it change nothing.
pub proof fn lemma_failure_stays(node: SpecNode, context: Context, failed: int, count: int)
    requires
        0 < failed <= count <= node.children.len(),
        arguments_of(node, context, failed) is Err,
    ensures
        arguments_of(node, context, count) == arguments_of(node, context, failed),
    decreases count - failed,
{
    if failed < count {
        lemma_failure_stays(node, context, failed, count - 1);
    }
}

/// Applies a kind to the values of the children.
fn apply_kind<C: Configuration>(kind: &Kind, arguments: Vec<Value>, configuration: &C) -> (r:
    Result<Value, Error>)
    ensures
        outcome_view(r) == apply(kind@, views(arguments@), configuration.context()),
{
    let count = arguments.len();
    assert(views(arguments@).len() == count);
    match kind {
        Kind::Const(value) => {
            if count != 0 {
                return Err(Error::AppendedToLeafNode);
            }
            Ok(value.clone())
        },
        Kind::Variable(name) => {
            if count != 0 {
                return Err(Error::AppendedToLeafNode);
            }
            match configuration.get_variable(name.as_str()) {
                Some(value) => Ok(value.clone()),
                None => Err(Error::VariableIdentifierNotFound(name.clone())),
            }
        },
        Kind::Neg => {
            if count != 1 {
                return Err(Error::wrong_argument_amount(count, 1));
            }
            apply_negated(&arguments[0])
        },
        Kind::Not => {
            if count != 1 {
                return Err(Error::wrong_argument_amount(count, 1));
            }
            apply_inverted(&arguments[0])
        },
        Kind::Member(name) => {
            if count != 1 {
                return Err(Error::wrong_argument_amount(count, 1));
            }
            apply_member(&arguments[0], name)
        },
        Kind::Call(name) => {
            match configuration.get_function(name.as_str()) {
                None => Err(Error::FunctionIdentifierNotFound(name.clone())),
                Some(function) => {
                    if function.arity() != count {
                        return Err(Error::wrong_argument_amount(count, function.arity()));
                    }
                    function.call(arguments.as_slice())
                },
            }
        },
        Kind::Array => {
            proof {
                lemma_array_view(arguments);
            }
            Ok(Value::Array(arguments))
        },
        _ => {
            if count != 2 {
                return Err(Error::wrong_argument_amount(count, 2));
            }
            let a = &arguments[0];
            let b = &arguments[1];
            match kind {
                Kind::Arithmetic(op) => apply_arithmetic(*op, a, b),
                Kind::Comparison(op) => apply_comparison(*op, a, b),
                Kind::Eq => Ok(Value::Boolean(apply_equal(a, b))),
                Kind::Neq => Ok(Value::Boolean(!apply_equal(a, b))),
                Kind::And => apply_logical(true, a, b),
                Kind::Or => apply_logical(false, a, b),
                Kind::Range => apply_range(a, b),
                _ => apply_element(a, b),
            }
        },
    }
}

} // verus!
