//! Building: from tokens to an operator tree.
//!
//! Binary operators bind, from loosest to tightest: `||`; `&&`; the
//! comparisons `== != < > <= >=`; `+ -`; `* / %`. All of them group to the
//! left. The unary operators `-` and `!` bind tighter, then `..`, then the
//! accesses `.name` and `[index]`, then the primaries: literals, names,
//! calls and parenthesized expressions.
//!
//! A `-` where an operand is due is the unary operator, anywhere else the
//! binary one. A name is applied to arguments in parentheses behind it, or
//! to the one literal, name or call in parentheses that follows it
//! directly.
//!
//! Building fails
//! - with `MissingOperand` where an operator lacks an operand, as in
//!   `true-`, `1 +`, `!`, `1..` or `a[]`, and for a text without tokens;
//! - with `MissingClosingBracket` where the tokens end inside parentheses,
//!   an index or an argument list;
//! - with `UnexpectedToken` for a token that cannot stand where it is: an
//!   operand directly behind a complete operand, as the `2` in `1 2`; a
//!   `)`, `]` or `,` where an expression is due, as the `)` in `()`; a
//!   binary operator where an operand is due; a token left behind the
//!   expression.

use crate::error::{Error, SpecError};
use crate::operator::{Arithmetic, Comparison};
use crate::token::{token_views, Operator, SpecToken, Token};
use crate::laws::shape::law_built_trees_are_well_formed;
use crate::tree::{node_views, well_formed, Kind, Node, SpecKind, SpecNode};
use crate::value::{SpecValue, Value};
use vstd::prelude::*;
use vstd::string::StringExecFns;

verus! {

/// What was read at a place: the tree of an operand, or none where no
/// operand stands there, and the number of tokens read.
pub struct Parsed {
    pub node: Option<SpecNode>,
    pub length: int,
}

/// The arguments of a call, and the number of tokens read.
pub struct ParsedList {
    pub nodes: Seq<SpecNode>,
    pub length: int,
}

/// The token at a place, if the place lies within the tokens.
pub open spec fn token_at(tokens: Seq<SpecToken>, pos: int) -> Option<SpecToken> {
    if 0 <= pos < tokens.len() {
        Some(tokens[pos])
    } else {
        None
    }
}

/// The number of tokens from a place to the end.
pub open spec fn remaining(tokens: Seq<SpecToken>, pos: int) -> int {
    if pos < tokens.len() {
        tokens.len() - pos
    } else {
        0
    }
}

/// The place behind `length` tokens read from `pos`.
pub open spec fn after(pos: int, length: int) -> int {
    if length > 0 {
        pos + length
    } else {
        pos
    }
}

/// No operand can start here: the tokens have ended, or a `)`, a `]` or a
/// `,` stands here.
pub open spec fn ends_operand(token: Option<SpecToken>) -> bool {
    match token {
        None => true,
        Some(SpecToken::CloseParen) | Some(SpecToken::CloseBracket) | Some(SpecToken::Comma) => true,
        _ => false,
    }
}

/// The token is a literal or a name.
pub open spec fn is_atom(token: SpecToken) -> bool {
    token is Int || token is Float || token is Boolean || token is Str || token is Identifier
}

/// An operand starts here: a literal, a name or a `(`.
pub open spec fn starts_operand(token: Option<SpecToken>) -> bool {
    match token {
        Some(t) => is_atom(t) || t is OpenParen,
        None => false,
    }
}

/// The last level of binary operators; the unary operators come behind it.
pub open spec fn unary_level() -> int {
    5
}

/// The kind of node that a binary operator builds, if the operator belongs
/// to the level.
pub open spec fn binary_kind(token: SpecToken, level: int) -> Option<SpecKind> {
    match token {
        SpecToken::Operator(op) => match op {
            Operator::Or => if level == 0 {
                Some(SpecKind::Or)
            } else {
                None
            },
            Operator::And => if level == 1 {
                Some(SpecKind::And)
            } else {
                None
            },
            Operator::Eq => if level == 2 {
                Some(SpecKind::Eq)
            } else {
                None
            },
            Operator::Neq => if level == 2 {
                Some(SpecKind::Neq)
            } else {
                None
            },
            Operator::Lt => if level == 2 {
                Some(SpecKind::Comparison(Comparison::Lt))
            } else {
                None
            },
            Operator::Gt => if level == 2 {
                Some(SpecKind::Comparison(Comparison::Gt))
            } else {
                None
            },
            Operator::Leq => if level == 2 {
                Some(SpecKind::Comparison(Comparison::Leq))
            } else {
                None
            },
            Operator::Geq => if level == 2 {
                Some(SpecKind::Comparison(Comparison::Geq))
            } else {
                None
            },
            Operator::Plus => if level == 3 {
                Some(SpecKind::Arithmetic(Arithmetic::Add))
            } else {
                None
            },
            Operator::Minus => if level == 3 {
                Some(SpecKind::Arithmetic(Arithmetic::Sub))
            } else {
                None
            },
            Operator::Star => if level == 4 {
                Some(SpecKind::Arithmetic(Arithmetic::Mul))
            } else {
                None
            },
            Operator::Slash => if level == 4 {
                Some(SpecKind::Arithmetic(Arithmetic::Div))
            } else {
                None
            },
            Operator::Percent => if level == 4 {
                Some(SpecKind::Arithmetic(Arithmetic::Mod))
            } else {
                None
            },
            Operator::Not => None,
        },
        _ => None,
    }
}

/// The node of an operator with one operand. Where the operand is absent
/// the operand is missing.
pub open spec fn unary_node(kind: SpecKind, operand: Option<SpecNode>) -> Result<
    SpecNode,
    SpecError,
> {
    match operand {
        Some(node) => Ok(SpecNode { kind, children: seq![node] }),
        None => Err(SpecError::MissingOperand),
    }
}

/// The node of an operator with two operands. Where one is absent, or both
/// are, an operand is missing.
pub open spec fn binary_node(kind: SpecKind, left: Option<SpecNode>, right: Option<SpecNode>) -> Result<
    SpecNode,
    SpecError,
> {
    match (left, right) {
        (Some(a), Some(b)) => Ok(SpecNode { kind, children: seq![a, b] }),
        _ => Err(SpecError::MissingOperand),
    }
}

/// A node without children.
pub open spec fn leaf(kind: SpecKind) -> SpecNode {
    SpecNode { kind, children: Seq::empty() }
}

/// The leaf that a literal or a name stands for.
pub open spec fn atom_node(token: SpecToken) -> SpecNode
    recommends
        is_atom(token),
{
    match token {
        SpecToken::Int(x) => leaf(SpecKind::Const(SpecValue::Int(x))),
        SpecToken::Float(bits) => leaf(SpecKind::Const(SpecValue::Float(bits))),
        SpecToken::Boolean(b) => leaf(SpecKind::Const(SpecValue::Boolean(b))),
        SpecToken::Str(s) => leaf(SpecKind::Const(SpecValue::Str(s))),
        SpecToken::Identifier(name) => leaf(SpecKind::Variable(name)),
        _ => leaf(SpecKind::Array),
    }
}

/// The name under which an array is written as a call.
pub open spec fn array_name() -> Seq<char> {
    seq!['a', 'r', 'r', 'a', 'y']
}

/// What a name builds when it is applied to arguments: `array` builds an
/// array of them, every other name calls the function of that name.
pub open spec fn call_kind(name: Seq<char>) -> SpecKind {
    if name == array_name() {
        SpecKind::Array
    } else {
        SpecKind::Call(name)
    }
}

/// What stands in the way inside brackets, where an expression or the
/// closing bracket is due: the end of the tokens, or a token that cannot
/// stand there.
pub open spec fn unclosed(token: Option<SpecToken>) -> SpecError {
    match token {
        None => SpecError::MissingClosingBracket,
        Some(t) => SpecError::UnexpectedToken(t),
    }
}

/// The arguments of a call, from the place behind the `(` or behind a `,`
/// up to the `)`, which is read too. `found` are the arguments read before,
/// `taken` the tokens read before.
pub open spec fn arguments(tokens: Seq<SpecToken>, pos: int, found: Seq<SpecNode>, taken: int) -> Result<
    ParsedList,
    SpecError,
>
    decreases remaining(tokens, pos), 30int,
{
    if found.len() == 0 && token_at(tokens, pos) == Some(SpecToken::CloseParen) {
        Ok(ParsedList { nodes: found, length: taken + 1 })
    } else {
        match expression(tokens, pos, 0) {
            Err(e) => Err(e),
            Ok(argument) => {
                let next = after(pos, argument.length);
                match argument.node {
                    None => Err(unclosed(token_at(tokens, next))),
                    Some(node) => match token_at(tokens, next) {
                        Some(SpecToken::Comma) => arguments(
                            tokens,
                            next + 1,
                            found.push(node),
                            taken + argument.length + 1,
                        ),
                        Some(SpecToken::CloseParen) => Ok(
                            ParsedList {
                                nodes: found.push(node),
                                length: taken + argument.length + 1,
                            },
                        ),
                        other => Err(unclosed(other)),
                    },
                }
            },
        }
    }
}

/// An expression of the binary operators from `level` on, and of all that
/// binds tighter.
pub open spec fn expression(tokens: Seq<SpecToken>, pos: int, level: int) -> Result<
    Parsed,
    SpecError,
>
    decreases remaining(tokens, pos),
        if 0 <= level < unary_level() {
            25 - level
        } else {
            20
        },
{
    if 0 <= level < unary_level() {
        match expression(tokens, pos, level + 1) {
            Err(e) => Err(e),
            Ok(left) => operations(tokens, after(pos, left.length), level, left.node, left.length),
        }
    } else {
        unary(tokens, pos)
    }
}

/// The operators of `level` that follow the operand `left`, each with its
/// right operand: they group to the left.
pub open spec fn operations(
    tokens: Seq<SpecToken>,
    pos: int,
    level: int,
    left: Option<SpecNode>,
    taken: int,
) -> Result<Parsed, SpecError>
    decreases remaining(tokens, pos), 0int,
{
    if token_at(tokens, pos) is Some && binary_kind(token_at(tokens, pos)->0, level) is Some {
        match expression(tokens, pos + 1, level + 1) {
            Err(e) => Err(e),
            Ok(right) => match binary_node(
                binary_kind(token_at(tokens, pos)->0, level)->0,
                left,
                right.node,
            ) {
                Err(e) => Err(e),
                Ok(node) => operations(
                    tokens,
                    after(pos + 1, right.length),
                    level,
                    Some(node),
                    taken + 1 + right.length,
                ),
            },
        }
    } else {
        Ok(Parsed { node: left, length: taken })
    }
}

/// A chain of unary operators and its operand: `-` and `!` where an operand
/// is due apply to what follows them.
pub open spec fn unary(tokens: Seq<SpecToken>, pos: int) -> Result<Parsed, SpecError>
    decreases remaining(tokens, pos), 10int,
{
    match token_at(tokens, pos) {
        Some(SpecToken::Operator(Operator::Minus)) => match unary(tokens, pos + 1) {
            Err(e) => Err(e),
            Ok(operand) => match unary_node(SpecKind::Neg, operand.node) {
                Err(e) => Err(e),
                Ok(node) => Ok(Parsed { node: Some(node), length: operand.length + 1 }),
            },
        },
        Some(SpecToken::Operator(Operator::Not)) => match unary(tokens, pos + 1) {
            Err(e) => Err(e),
            Ok(operand) => match unary_node(SpecKind::Not, operand.node) {
                Err(e) => Err(e),
                Ok(node) => Ok(Parsed { node: Some(node), length: operand.length + 1 }),
            },
        },
        _ => ranged(tokens, pos),
    }
}

/// An operand, or the range `a..b` of two operands.
pub open spec fn ranged(tokens: Seq<SpecToken>, pos: int) -> Result<Parsed, SpecError>
    decreases remaining(tokens, pos), 9int,
{
    match accessed(tokens, pos) {
        Err(e) => Err(e),
        Ok(low) => {
            let next = after(pos, low.length);
            if token_at(tokens, next) == Some(SpecToken::RangeDots) {
                match accessed(tokens, next + 1) {
                    Err(e) => Err(e),
                    Ok(high) => match binary_node(SpecKind::Range, low.node, high.node) {
                        Err(e) => Err(e),
                        Ok(node) => Ok(
                            Parsed { node: Some(node), length: low.length + 1 + high.length },
                        ),
                    },
                }
            } else {
                Ok(low)
            }
        },
    }
}

/// A primary with the accesses that follow it.
pub open spec fn accessed(tokens: Seq<SpecToken>, pos: int) -> Result<Parsed, SpecError>
    decreases remaining(tokens, pos), 8int,
{
    match primary(tokens, pos) {
        Err(e) => Err(e),
        Ok(base) => accesses(tokens, after(pos, base.length), base.node, base.length),
    }
}

/// The accesses `.name` and `[index]` that follow `base`, applied from left
/// to right. Behind them no operand may start: the token that starts one is
/// unexpected.
pub open spec fn accesses(tokens: Seq<SpecToken>, pos: int, base: Option<SpecNode>, taken: int) -> Result<
    Parsed,
    SpecError,
>
    decreases remaining(tokens, pos), 0int,
{
    match token_at(tokens, pos) {
        Some(SpecToken::Dot) => match token_at(tokens, pos + 1) {
            Some(SpecToken::Identifier(name)) => match unary_node(SpecKind::Member(name), base) {
                Err(e) => Err(e),
                Ok(node) => accesses(tokens, pos + 2, Some(node), taken + 2),
            },
            other => if ends_operand(other) {
                Err(SpecError::MissingOperand)
            } else {
                Err(SpecError::UnexpectedToken(other->0))
            },
        },
        Some(SpecToken::OpenBracket) => match expression(tokens, pos + 1, 0) {
            Err(e) => Err(e),
            Ok(index) => {
                let next = after(pos + 1, index.length);
                match token_at(tokens, next) {
                    Some(SpecToken::CloseBracket) => match binary_node(
                        SpecKind::Index,
                        base,
                        index.node,
                    ) {
                        Err(e) => Err(e),
                        Ok(node) => accesses(tokens, next + 1, Some(node), taken + index.length + 2),
                    },
                    other => Err(unclosed(other)),
                }
            },
        },
        other => if starts_operand(other) {
            Err(SpecError::UnexpectedToken(other->0))
        } else {
            Ok(Parsed { node: base, length: taken })
        },
    }
}

/// A primary: a literal; a name, alone or applied to arguments in
/// parentheses or to the one literal, name or call in parentheses that
/// follows it directly; or an expression in parentheses, which stands for
/// what is inside. Where no operand can start there is none, and nothing is
/// read. In an empty pair of parentheses the `)` is unexpected.
pub open spec fn primary(tokens: Seq<SpecToken>, pos: int) -> Result<Parsed, SpecError>
    decreases remaining(tokens, pos), 7int,
{
    let token = token_at(tokens, pos);
    if ends_operand(token) {
        Ok(Parsed { node: None, length: 0 })
    } else {
        match token->0 {
            SpecToken::Identifier(name) => match token_at(tokens, pos + 1) {
                Some(SpecToken::OpenParen) => match arguments(tokens, pos + 2, Seq::empty(), 2) {
                    Err(e) => Err(e),
                    Ok(list) => Ok(
                        Parsed {
                            node: Some(SpecNode { kind: call_kind(name), children: list.nodes }),
                            length: list.length,
                        },
                    ),
                },
                Some(argument) => if !is_atom(argument) {
                    Ok(Parsed { node: Some(leaf(SpecKind::Variable(name))), length: 1 })
                } else if argument is Identifier && token_at(tokens, pos + 2) == Some(
                    SpecToken::OpenParen,
                ) {
                    match arguments(tokens, pos + 3, Seq::empty(), 3) {
                        Err(e) => Err(e),
                        Ok(list) => Ok(
                            Parsed {
                                node: Some(
                                    SpecNode {
                                        kind: call_kind(name),
                                        children: seq![
                                            SpecNode {
                                                kind: call_kind(argument->Identifier_0),
                                                children: list.nodes,
                                            },
                                        ],
                                    },
                                ),
                                length: list.length,
                            },
                        ),
                    }
                } else {
                    Ok(
                        Parsed {
                            node: Some(
                                SpecNode { kind: call_kind(name), children: seq![atom_node(argument)] },
                            ),
                            length: 2,
                        },
                    )
                },
                None => Ok(Parsed { node: Some(leaf(SpecKind::Variable(name))), length: 1 }),
            },
            SpecToken::OpenParen => match expression(tokens, pos + 1, 0) {
                Err(e) => Err(e),
                Ok(inner) => match token_at(tokens, after(pos + 1, inner.length)) {
                    Some(SpecToken::CloseParen) => if inner.node is Some {
                        Ok(Parsed { node: inner.node, length: inner.length + 2 })
                    } else {
                        Err(SpecError::UnexpectedToken(SpecToken::CloseParen))
                    },
                    other => Err(unclosed(other)),
                },
            },
            other => if is_atom(other) {
                Ok(Parsed { node: Some(atom_node(other)), length: 1 })
            } else {
                Err(SpecError::UnexpectedToken(other))
            },
        }
    }
}

/// The tree of a whole sequence of tokens: one expression, with no token
/// left behind it.
pub open spec fn tree_of(tokens: Seq<SpecToken>) -> Result<SpecNode, SpecError> {
    match expression(tokens, 0, 0) {
        Err(e) => Err(e),
        Ok(parsed) => match token_at(tokens, after(0, parsed.length)) {
            Some(token) => Err(SpecError::UnexpectedToken(token)),
            None => match parsed.node {
                Some(node) => Ok(node),
                None => Err(SpecError::MissingOperand),
            },
        },
    }
}


/// The content of an operand that may be absent.
pub open spec fn operand_view(node: Option<Node>) -> Option<SpecNode> {
    match node {
        Some(n) => Some(n@),
        None => None,
    }
}

/// The content of what reading at `pos` returned: the operand, and the
/// place behind it as a number of tokens read.
pub open spec fn parsed_view(r: Result<(Option<Node>, usize), Error>, pos: int) -> Result<
    Parsed,
    SpecError,
> {
    match r {
        Ok((node, next)) => Ok(Parsed { node: operand_view(node), length: next - pos }),
        Err(e) => Err(e@),
    }
}

/// The content of what reading arguments returned, the tokens counted from
/// `start`.
pub open spec fn list_view(r: Result<(Vec<Node>, usize), Error>, start: int) -> Result<
    ParsedList,
    SpecError,
> {
    match r {
        Ok((nodes, next)) => Ok(ParsedList { nodes: node_views(nodes@), length: next - start }),
        Err(e) => Err(e@),
    }
}

/// The content of what building returns.
pub open spec fn built_view(r: Result<Node, Error>) -> Result<SpecNode, SpecError> {
    match r {
        Ok(node) => Ok(node@),
        Err(e) => Err(e@),
    }
}

/// The place that a successful reading from `pos` left off at lies behind
/// `pos` and within the tokens.
pub open spec fn advanced(r: Result<(Option<Node>, usize), Error>, pos: int, len: int) -> bool {
    r matches Ok((_, next)) ==> pos <= next <= len
}

fn peek(tokens: &Vec<Token>, pos: usize) -> (r: Option<&Token>)
    ensures
        match r {
            Some(token) => token_at(token_views(tokens@), pos as int) == Some(token@),
            None => token_at(token_views(tokens@), pos as int) is None,
        },
{
    if pos < tokens.len() {
        Some(&tokens[pos])
    } else {
        None
    }
}

fn binary_kind_of(token: &Token, level: u8) -> (r: Option<Kind>)
    ensures
        match r {
            Some(kind) => binary_kind(token@, level as int) == Some(kind@),
            None => binary_kind(token@, level as int) is None,
        },
{
    match token {
        Token::Operator(op) => match op {
            Operator::Or => if level == 0 {
                Some(Kind::Or)
            } else {
                None
            },
            Operator::And => if level == 1 {
                Some(Kind::And)
            } else {
                None
            },
            Operator::Eq => if level == 2 {
                Some(Kind::Eq)
            } else {
                None
            },
            Operator::Neq => if level == 2 {
                Some(Kind::Neq)
            } else {
                None
            },
            Operator::Lt => if level == 2 {
                Some(Kind::Comparison(Comparison::Lt))
            } else {
                None
            },
            Operator::Gt => if level == 2 {
                Some(Kind::Comparison(Comparison::Gt))
            } else {
                None
            },
            Operator::Leq => if level == 2 {
                Some(Kind::Comparison(Comparison::Leq))
            } else {
                None
            },
            Operator::Geq => if level == 2 {
                Some(Kind::Comparison(Comparison::Geq))
            } else {
                None
            },
            Operator::Plus => if level == 3 {
                Some(Kind::Arithmetic(Arithmetic::Add))
            } else {
                None
            },
            Operator::Minus => if level == 3 {
                Some(Kind::Arithmetic(Arithmetic::Sub))
            } else {
                None
            },
            Operator::Star => if level == 4 {
                Some(Kind::Arithmetic(Arithmetic::Mul))
            } else {
                None
            },
            Operator::Slash => if level == 4 {
                Some(Kind::Arithmetic(Arithmetic::Div))
            } else {
                None
            },
            Operator::Percent => if level == 4 {
                Some(Kind::Arithmetic(Arithmetic::Mod))
            } else {
                None
            },
            Operator::Not => None,
        },
        _ => None,
    }
}

fn make_leaf(kind: Kind) -> (node: Node)
    ensures
        node@ == leaf(kind@),
{
    let children: Vec<Node> = Vec::new();
    assert(node_views(children@) =~= Seq::<SpecNode>::empty());
    Node::new(kind, children)
}

fn make_unary(kind: Kind, operand: Option<Node>) -> (r: Result<Node, Error>)
    ensures
        built_view(r) == unary_node(kind@, operand_view(operand)),
{
    match operand {
        Some(node) => {
            let mut children: Vec<Node> = Vec::new();
            children.push(node);
            assert(node_views(children@) =~= seq![node@]);
            Ok(Node::new(kind, children))
        },
        None => Err(Error::MissingOperand),
    }
}

fn make_binary(kind: Kind, left: Option<Node>, right: Option<Node>) -> (r: Result<Node, Error>)
    ensures
        built_view(r) == binary_node(kind@, operand_view(left), operand_view(right)),
{
    match (left, right) {
        (Some(a), Some(b)) => {
            let mut children: Vec<Node> = Vec::new();
            children.push(a);
            children.push(b);
            assert(node_views(children@) =~= seq![a@, b@]);
            Ok(Node::new(kind, children))
        },
        _ => Err(Error::MissingOperand),
    }
}

fn is_atom_token(token: &Token) -> (r: bool)
    ensures
        r == is_atom(token@),
{
    match token {
        Token::Int(_) => true,
        Token::Float(_) => true,
        Token::Boolean(_) => true,
        Token::String(_) => true,
        Token::Identifier(_) => true,
        _ => false,
    }
}

fn make_atom(token: &Token) -> (node: Node)
    requires
        is_atom(token@),
    ensures
        node@ == atom_node(token@),
{
    match token {
        Token::Int(x) => make_leaf(Kind::Const(Value::Int(*x))),
        Token::Float(x) => make_leaf(Kind::Const(Value::Float(*x))),
        Token::Boolean(b) => make_leaf(Kind::Const(Value::Boolean(*b))),
        Token::String(s) => make_leaf(Kind::Const(Value::String(s.clone()))),
        Token::Identifier(name) => make_leaf(Kind::Variable(name.clone())),
        _ => make_leaf(Kind::Array),
    }
}

fn make_call_kind(name: &String) -> (kind: Kind)
    ensures
        kind@ == call_kind(name@),
{
    let array = String::from_str("array");
    proof {
        reveal_strlit("array");
        assert(array@ =~= array_name());
    }
    if *name == array {
        Kind::Array
    } else {
        Kind::Call(name.clone())
    }
}

fn unclosed_error(token: Option<&Token>) -> (e: Error)
    ensures
        e@ == unclosed(
            match token {
                Some(t) => Some(t@),
                None => None,
            },
        ),
{
    match token {
        None => Error::MissingClosingBracket,
        Some(t) => Error::UnexpectedToken(t.clone()),
    }
}

/// Reads the arguments of a call from the place behind its `(`. The tokens
/// read are counted from `start`, where the primary starts that the call
/// belongs to.
fn parse_arguments(tokens: &Vec<Token>, pos: usize, start: usize) -> (r: Result<
    (Vec<Node>, usize),
    Error,
>)
    requires
        start <= pos <= tokens.len(),
    ensures
        list_view(r, start as int) == arguments(
            token_views(tokens@),
            pos as int,
            Seq::empty(),
            pos - start,
        ),
        r matches Ok((_, next)) ==> pos <= next <= tokens.len(),
    decreases tokens.len() - pos, 30int,
{
    let ghost ts = token_views(tokens@);
    let mut found: Vec<Node> = Vec::new();
    let mut next: usize = pos;
    assert(node_views(found@) =~= Seq::<SpecNode>::empty());
    loop
        invariant
            start <= pos <= next <= tokens.len(),
            ts == token_views(tokens@),
            arguments(ts, pos as int, Seq::empty(), pos - start) == arguments(
                ts,
                next as int,
                node_views(found@),
                next - start,
            ),
        decreases tokens.len() - next,
    {
        if found.len() == 0 {
            match peek(tokens, next) {
                Some(Token::CloseParen) => {
                    return Ok((found, next + 1));
                },
                _ => {},
            }
        }
        assert(node_views(found@).len() == found.len());
        match parse_expression(tokens, next, 0) {
            Err(e) => {
                return Err(e);
            },
            Ok((argument, behind)) => {
                match argument {
                    None => {
                        return Err(unclosed_error(peek(tokens, behind)));
                    },
                    Some(node) => {
                        assert(node_views(found@.push(node)) =~= node_views(found@).push(node@));
                        found.push(node);
                        match peek(tokens, behind) {
                            Some(Token::Comma) => {
                                next = behind + 1;
                            },
                            Some(Token::CloseParen) => {
                                return Ok((found, behind + 1));
                            },
                            other => {
                                return Err(unclosed_error(other));
                            },
                        }
                    },
                }
            },
        }
    }
}

/// Reads an expression of the binary operators from `level` on.
fn parse_expression(tokens: &Vec<Token>, pos: usize, level: u8) -> (r: Result<
    (Option<Node>, usize),
    Error,
>)
    requires
        pos <= tokens.len(),
        level <= 5,
    ensures
        parsed_view(r, pos as int) == expression(token_views(tokens@), pos as int, level as int),
        advanced(r, pos as int, tokens.len() as int),
    decreases tokens.len() - pos, 25 - level,
{
    let ghost ts = token_views(tokens@);
    if level >= 5 {
        return parse_unary(tokens, pos);
    }
    let (first, start) = match parse_expression(tokens, pos, level + 1) {
        Err(e) => {
            return Err(e);
        },
        Ok(parsed) => parsed,
    };
    let mut left: Option<Node> = first;
    let mut next: usize = start;
    loop
        invariant
            pos <= next <= tokens.len(),
            level < 5,
            ts == token_views(tokens@),
            expression(ts, pos as int, level as int) == operations(
                ts,
                next as int,
                level as int,
                operand_view(left),
                next - pos,
            ),
        decreases tokens.len() - next,
    {
        let kind = match peek(tokens, next) {
            None => {
                return Ok((left, next));
            },
            Some(token) => match binary_kind_of(token, level) {
                None => {
                    return Ok((left, next));
                },
                Some(kind) => kind,
            },
        };
        let (right, behind) = match parse_expression(tokens, next + 1, level + 1) {
            Err(e) => {
                return Err(e);
            },
            Ok(parsed) => parsed,
        };
        match make_binary(kind, left, right) {
            Err(e) => {
                return Err(e);
            },
            Ok(node) => {
                left = Some(node);
                next = behind;
            },
        }
    }
}

/// Reads a chain of unary operators and its operand.
fn parse_unary(tokens: &Vec<Token>, pos: usize) -> (r: Result<(Option<Node>, usize), Error>)
    requires
        pos <= tokens.len(),
    ensures
        parsed_view(r, pos as int) == unary(token_views(tokens@), pos as int),
        advanced(r, pos as int, tokens.len() as int),
    decreases tokens.len() - pos, 10int,
{
    let kind = match peek(tokens, pos) {
        Some(Token::Operator(Operator::Minus)) => Kind::Neg,
        Some(Token::Operator(Operator::Not)) => Kind::Not,
        _ => {
            return parse_ranged(tokens, pos);
        },
    };
    match parse_unary(tokens, pos + 1) {
        Err(e) => Err(e),
        Ok((operand, next)) => match make_unary(kind, operand) {
            Err(e) => Err(e),
            Ok(node) => Ok((Some(node), next)),
        },
    }
}

/// Reads an operand, or the range of two operands.
#[verifier::rlimit(50)]
fn parse_ranged(tokens: &Vec<Token>, pos: usize) -> (r: Result<(Option<Node>, usize), Error>)
    requires
        pos <= tokens.len(),
    ensures
        parsed_view(r, pos as int) == ranged(token_views(tokens@), pos as int),
        advanced(r, pos as int, tokens.len() as int),
    decreases tokens.len() - pos, 9int,
{
    let ghost ts = token_views(tokens@);
    let (low, next) = match parse_accessed(tokens, pos) {
        Err(e) => {
            return Err(e);
        },
        Ok(parsed) => parsed,
    };
    assert(accessed(ts, pos as int) == Ok::<Parsed, SpecError>(
        Parsed { node: operand_view(low), length: next - pos },
    ));
    assert(after(pos as int, next - pos) == next);
    let is_range = match peek(tokens, next) {
        Some(Token::RangeDots) => true,
        _ => false,
    };
    assert(is_range == (token_at(ts, next as int) == Some(SpecToken::RangeDots)));
    if !is_range {
        return Ok((low, next));
    }
    let (high, behind) = match parse_accessed(tokens, next + 1) {
        Err(e) => {
            return Err(e);
        },
        Ok(parsed) => parsed,
    };
    assert(accessed(ts, next + 1) == Ok::<Parsed, SpecError>(
        Parsed { node: operand_view(high), length: behind - (next + 1) },
    ));
    match make_binary(Kind::Range, low, high) {
        Err(e) => Err(e),
        Ok(node) => Ok((Some(node), behind)),
    }
}

/// Reads a primary and the accesses that follow it.
#[verifier::rlimit(50)]
fn parse_accessed(tokens: &Vec<Token>, pos: usize) -> (r: Result<(Option<Node>, usize), Error>)
    requires
        pos <= tokens.len(),
    ensures
        parsed_view(r, pos as int) == accessed(token_views(tokens@), pos as int),
        advanced(r, pos as int, tokens.len() as int),
    decreases tokens.len() - pos, 8int,
{
    let ghost ts = token_views(tokens@);
    let (first, start) = match parse_primary(tokens, pos) {
        Err(e) => {
            return Err(e);
        },
        Ok(parsed) => parsed,
    };
    let mut base: Option<Node> = first;
    let mut next: usize = start;
    loop
        invariant
            pos <= next <= tokens.len(),
            ts == token_views(tokens@),
            accessed(ts, pos as int) == accesses(ts, next as int, operand_view(base), next - pos),
        decreases tokens.len() - next,
    {
        match peek(tokens, next) {
            Some(Token::Dot) => {
                match peek(tokens, next + 1) {
                    Some(Token::Identifier(name)) => {
                        match make_unary(Kind::Member(name.clone()), base) {
                            Err(e) => {
                                return Err(e);
                            },
                            Ok(node) => {
                                base = Some(node);
                                next = next + 2;
                            },
                        }
                    },
                    None => {
                        return Err(Error::MissingOperand);
                    },
                    Some(Token::CloseParen) => {
                        return Err(Error::MissingOperand);
                    },
                    Some(Token::CloseBracket) => {
                        return Err(Error::MissingOperand);
                    },
                    Some(Token::Comma) => {
                        return Err(Error::MissingOperand);
                    },
                    Some(other) => {
                        return Err(Error::UnexpectedToken(other.clone()));
                    },
                }
            },
            Some(Token::OpenBracket) => {
                let (index, behind) = match parse_expression(tokens, next + 1, 0) {
                    Err(e) => {
                        return Err(e);
                    },
                    Ok(parsed) => parsed,
                };
                match peek(tokens, behind) {
                    Some(Token::CloseBracket) => {
                        match make_binary(Kind::Index, base, index) {
                            Err(e) => {
                                return Err(e);
                            },
                            Ok(node) => {
                                base = Some(node);
                                next = behind + 1;
                            },
                        }
                    },
                    other => {
                        return Err(unclosed_error(other));
                    },
                }
            },
            Some(Token::OpenParen) => {
                return Err(Error::UnexpectedToken(Token::OpenParen));
            },
            Some(other) => {
                if is_atom_token(other) {
                    return Err(Error::UnexpectedToken(other.clone()));
                }
                return Ok((base, next));
            },
            None => {
                return Ok((base, next));
            },
        }
    }
}

/// Reads a primary.
#[verifier::rlimit(50)]
fn parse_primary(tokens: &Vec<Token>, pos: usize) -> (r: Result<(Option<Node>, usize), Error>)
    requires
        pos <= tokens.len(),
    ensures
        parsed_view(r, pos as int) == primary(token_views(tokens@), pos as int),
        advanced(r, pos as int, tokens.len() as int),
    decreases tokens.len() - pos, 7int,
{
    match peek(tokens, pos) {
        None => Ok((None, pos)),
        Some(Token::CloseParen) => Ok((None, pos)),
        Some(Token::CloseBracket) => Ok((None, pos)),
        Some(Token::Comma) => Ok((None, pos)),
        Some(Token::Identifier(name)) => {
            match peek(tokens, pos + 1) {
                Some(Token::OpenParen) => {
                    match parse_arguments(tokens, pos + 2, pos) {
                        Err(e) => Err(e),
                        Ok((nodes, next)) => Ok(
                            (Some(Node::new(make_call_kind(name), nodes)), next),
                        ),
                    }
                },
                Some(argument) => {
                    if !is_atom_token(argument) {
                        return Ok((Some(make_leaf(Kind::Variable(name.clone()))), pos + 1));
                    }
                    let inner = match (argument, peek(tokens, pos + 2)) {
                        (Token::Identifier(inner), Some(Token::OpenParen)) => {
                            match parse_arguments(tokens, pos + 3, pos) {
                                Err(e) => {
                                    return Err(e);
                                },
                                Ok((nodes, next)) => (Node::new(make_call_kind(inner), nodes), next),
                            }
                        },
                        _ => (make_atom(argument), pos + 2),
                    };
                    let mut children: Vec<Node> = Vec::new();
                    let node = inner.0;
                    children.push(node);
                    assert(node_views(children@) =~= seq![node@]);
                    Ok((Some(Node::new(make_call_kind(name), children)), inner.1))
                },
                None => Ok((Some(make_leaf(Kind::Variable(name.clone()))), pos + 1)),
            }
        },
        Some(Token::OpenParen) => {
            match parse_expression(tokens, pos + 1, 0) {
                Err(e) => Err(e),
                Ok((inner, next)) => match peek(tokens, next) {
                    Some(Token::CloseParen) => match inner {
                        Some(node) => Ok((Some(node), next + 1)),
                        None => Err(Error::UnexpectedToken(Token::CloseParen)),
                    },
                    other => Err(unclosed_error(other)),
                },
            }
        },
        Some(other) => {
            if is_atom_token(other) {
                Ok((Some(make_atom(other)), pos + 1))
            } else {
                Err(Error::UnexpectedToken(other.clone()))
            }
        },
    }
}

/// Builds the operator tree of a sequence of tokens: see [`tree_of`]. In
/// the tree every node has as many children as its kind takes.
pub fn tokens_to_operator_tree(tokens: Vec<Token>) -> (r: Result<Node, Error>)
    ensures
        built_view(r) == tree_of(token_views(tokens@)),
        r matches Ok(node) ==> well_formed(node@),
{
    proof {
        if tree_of(token_views(tokens@)) is Ok {
            law_built_trees_are_well_formed(token_views(tokens@));
        }
    }
    match parse_expression(&tokens, 0, 0) {
        Err(e) => Err(e),
        Ok((node, next)) => match peek(&tokens, next) {
            Some(token) => Err(Error::UnexpectedToken(token.clone())),
            None => match node {
                Some(node) => Ok(node),
                None => Err(Error::MissingOperand),
            },
        },
    }
}

} // verus!
