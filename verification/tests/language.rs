use evalexpr::builder::tokens_to_operator_tree;
use evalexpr::token::{tokenize, Operator, Token};
use evalexpr::tree::Kind;
use evalexpr::{
    build_operator_tree, eval, eval_with_configuration, Configuration, EmptyConfiguration, Error,
    Float, Function, HashMapConfiguration, Value,
};

fn float(x: f64) -> Value {
    Value::Float(Float::from_bits(x.to_bits()))
}

fn ints(values: &[i64]) -> Value {
    Value::Array(values.iter().map(|v| Value::Int(*v)).collect())
}

fn text(s: &str) -> Value {
    Value::String(s.to_string())
}

fn unary_function() -> Function {
    Function::new(
        1,
        Box::new(|arguments: &[Value]| match &arguments[0] {
            Value::Int(x) => Ok(Value::Int(x * 10)),
            other => Err(Error::expected_number(other.clone())),
        }),
    )
}

#[test]
fn tokens_of_every_kind() {
    assert_eq!(
        tokenize("12 1.5 true false 'a b' \"c\" name _x1"),
        Ok(vec![
            Token::Int(12),
            Token::Float(Float::from_bits(1.5f64.to_bits())),
            Token::Boolean(true),
            Token::Boolean(false),
            Token::String("a b".to_string()),
            Token::String("c".to_string()),
            Token::Identifier("name".to_string()),
            Token::Identifier("_x1".to_string()),
        ])
    );
    assert_eq!(
        tokenize("+-*/%<>!()[],."),
        Ok(vec![
            Token::Operator(Operator::Plus),
            Token::Operator(Operator::Minus),
            Token::Operator(Operator::Star),
            Token::Operator(Operator::Slash),
            Token::Operator(Operator::Percent),
            Token::Operator(Operator::Lt),
            Token::Operator(Operator::Gt),
            Token::Operator(Operator::Not),
            Token::OpenParen,
            Token::CloseParen,
            Token::OpenBracket,
            Token::CloseBracket,
            Token::Comma,
            Token::Dot,
        ])
    );
    assert_eq!(
        tokenize("== != <= >= && || .."),
        Ok(vec![
            Token::Operator(Operator::Eq),
            Token::Operator(Operator::Neq),
            Token::Operator(Operator::Leq),
            Token::Operator(Operator::Geq),
            Token::Operator(Operator::And),
            Token::Operator(Operator::Or),
            Token::RangeDots,
        ])
    );
}

#[test]
fn longest_token_wins() {
    assert_eq!(
        tokenize("1..5"),
        Ok(vec![Token::Int(1), Token::RangeDots, Token::Int(5)])
    );
    assert_eq!(tokenize("1."), Ok(vec![Token::Int(1), Token::Dot]));
    assert_eq!(
        tokenize("<=>"),
        Ok(vec![
            Token::Operator(Operator::Leq),
            Token::Operator(Operator::Gt),
        ])
    );
    assert_eq!(
        tokenize("<=="),
        Err(Error::UnexpectedCharacter {
            character: '=',
            position: 2
        })
    );
    assert_eq!(
        tokenize("!=="),
        Err(Error::UnexpectedCharacter {
            character: '=',
            position: 2
        })
    );
    assert_eq!(
        tokenize("trueish"),
        Ok(vec![Token::Identifier("trueish".to_string())])
    );
    assert_eq!(tokenize(" \t\n\r "), Ok(vec![]));
}

#[test]
fn integer_too_large_becomes_float() {
    assert_eq!(
        tokenize("9223372036854775807"),
        Ok(vec![Token::Int(9223372036854775807)])
    );
    assert_eq!(
        tokenize("9223372036854775808"),
        Ok(vec![Token::Float(Float::from_bits(
            9223372036854775808.0f64.to_bits()
        ))])
    );
    assert_eq!(eval("00012"), Ok(Value::Int(12)));
}

#[test]
fn lexical_errors() {
    assert_eq!(eval("'abc"), Err(Error::UnmatchedQuote));
    assert_eq!(eval("\"abc'"), Err(Error::UnmatchedQuote));
    assert_eq!(
        eval("1 + #"),
        Err(Error::UnexpectedCharacter {
            character: '#',
            position: 4
        })
    );
    assert_eq!(
        eval("a = b"),
        Err(Error::UnexpectedCharacter {
            character: '=',
            position: 2
        })
    );
    assert_eq!(
        eval("é"),
        Err(Error::UnexpectedCharacter {
            character: 'é',
            position: 0
        })
    );
    assert_eq!(eval("'é' == 'é'"), Ok(Value::Boolean(true)));
}

#[test]
fn syntactic_errors() {
    assert_eq!(eval(""), Err(Error::MissingOperand));
    assert_eq!(eval("  "), Err(Error::MissingOperand));
    assert_eq!(eval("()"), Err(Error::UnexpectedToken(Token::CloseParen)));
    assert_eq!(eval("(]"), Err(Error::UnexpectedToken(Token::CloseBracket)));
    assert_eq!(eval("("), Err(Error::MissingClosingBracket));
    assert_eq!(eval("(1"), Err(Error::MissingClosingBracket));
    assert_eq!(eval("(1 + 2"), Err(Error::MissingClosingBracket));
    assert_eq!(eval("array(1, 2"), Err(Error::MissingClosingBracket));
    assert_eq!(eval("array(1,"), Err(Error::MissingClosingBracket));
    assert_eq!(eval("array(1,)"), Err(Error::UnexpectedToken(Token::CloseParen)));
    assert_eq!(eval("array(,1)"), Err(Error::UnexpectedToken(Token::Comma)));
    assert_eq!(eval("array(1)[]"), Err(Error::MissingOperand));
    assert_eq!(eval("array(1)[0"), Err(Error::MissingClosingBracket));
    assert_eq!(eval("1)"), Err(Error::UnexpectedToken(Token::CloseParen)));
    assert_eq!(eval("(1]"), Err(Error::UnexpectedToken(Token::CloseBracket)));
    assert_eq!(
        eval("* 3"),
        Err(Error::UnexpectedToken(Token::Operator(Operator::Star)))
    );
    assert_eq!(
        eval("1 ! 2"),
        Err(Error::UnexpectedToken(Token::Operator(Operator::Not)))
    );
    assert_eq!(eval("1..2..3"), Err(Error::UnexpectedToken(Token::RangeDots)));
    assert_eq!(eval("1 2"), Err(Error::UnexpectedToken(Token::Int(2))));
    assert_eq!(eval("(1)(2)"), Err(Error::UnexpectedToken(Token::OpenParen)));
    assert_eq!(
        eval("f x y"),
        Err(Error::UnexpectedToken(Token::Identifier("y".to_string())))
    );
    assert_eq!(
        eval("true x"),
        Err(Error::UnexpectedToken(Token::Identifier("x".to_string())))
    );
    assert_eq!(eval("true(x)"), Err(Error::UnexpectedToken(Token::OpenParen)));
    assert_eq!(eval("-"), Err(Error::MissingOperand));
    assert_eq!(eval("!"), Err(Error::MissingOperand));
    assert_eq!(eval("true-"), Err(Error::MissingOperand));
    assert_eq!(eval("1 +"), Err(Error::MissingOperand));
    assert_eq!(eval("(1 +)"), Err(Error::MissingOperand));
    assert_eq!(eval("1 + * 2"), Err(Error::UnexpectedToken(Token::Operator(Operator::Star))));
    assert_eq!(eval("() + ()"), Err(Error::UnexpectedToken(Token::CloseParen)));
    assert_eq!(eval("1.."), Err(Error::MissingOperand));
    assert_eq!(eval("a."), Err(Error::MissingOperand));
    assert_eq!(eval("a.1"), Err(Error::UnexpectedToken(Token::Int(1))));
}

#[test]
fn evaluation_errors() {
    assert_eq!(
        eval("f(1)"),
        Err(Error::FunctionIdentifierNotFound("f".to_string()))
    );
    assert_eq!(
        eval("!1"),
        Err(Error::ExpectedBoolean {
            actual: Value::Int(1)
        })
    );
    assert_eq!(
        eval("true && 1"),
        Err(Error::expected_boolean(Value::Int(1)))
    );
    assert_eq!(
        eval("1 || true"),
        Err(Error::expected_boolean(Value::Int(1)))
    );
    assert_eq!(eval("'a' < 1"), Err(Error::expected_number(text("a"))));
    assert_eq!(eval("1 / 0"), Err(Error::DivisionByZero));
    assert_eq!(eval("1 % 0"), Err(Error::DivisionByZero));
    assert_eq!(eval("array(1, 2)[2]"), Err(Error::IndexOutOfBounds));
    assert_eq!(eval("array(1, 2)[0 - 1]"), Err(Error::IndexOutOfBounds));
    assert_eq!(eval("3[0]"), Err(Error::IndexOutOfBounds));
    assert_eq!(
        eval("array(1, 2)[true]"),
        Err(Error::expected_number(Value::Boolean(true)))
    );
    assert_eq!(
        eval("array(1).length"),
        Err(Error::FieldNotFound("length".to_string()))
    );
    assert_eq!(
        eval("1..true"),
        Err(Error::expected_number(Value::Boolean(true)))
    );
    assert_eq!(eval("'a'..2"), Err(Error::expected_number(text("a"))));
}

#[test]
fn first_failure_from_the_left_wins() {
    assert_eq!(
        eval("a + (1 / 0)"),
        Err(Error::VariableIdentifierNotFound("a".to_string()))
    );
    assert_eq!(eval("(1 / 0) + a"), Err(Error::DivisionByZero));
    assert_eq!(eval("false && (1 / 0 == 1)"), Err(Error::DivisionByZero));
}

#[test]
fn integer_division_truncates() {
    assert_eq!(eval("7 / 2"), Ok(Value::Int(3)));
    assert_eq!(eval("-7 / 2"), Ok(Value::Int(-3)));
    assert_eq!(eval("7 / -2"), Ok(Value::Int(-3)));
    assert_eq!(eval("-7 / -2"), Ok(Value::Int(3)));
    assert_eq!(eval("7 % 2"), Ok(Value::Int(1)));
    assert_eq!(eval("-7 % 2"), Ok(Value::Int(-1)));
    assert_eq!(eval("7 % -2"), Ok(Value::Int(1)));
    assert_eq!(eval("-7 % -2"), Ok(Value::Int(-1)));
    assert_eq!(eval("7.0 / 2"), Ok(float(3.5)));
    assert_eq!(eval("7 / 2.0"), Ok(float(3.5)));
    assert_eq!(eval("5 / 4.0"), Ok(float(1.25)));
    assert_eq!(eval("1.5 / 0"), Ok(float(f64::INFINITY)));
    assert_eq!(eval("10.0 / 4.0"), Ok(float(2.5)));
    assert_eq!(
        eval("9223372036854775808 / 2"),
        Ok(float(9223372036854775808.0 / 2.0))
    );
}

#[test]
fn integer_arithmetic_wraps() {
    assert_eq!(
        eval("9223372036854775807 + 1"),
        Ok(Value::Int(i64::MIN))
    );
    assert_eq!(
        eval("-9223372036854775807 - 2"),
        Ok(Value::Int(i64::MAX))
    );
    assert_eq!(
        eval("9223372036854775807 * 2"),
        Ok(Value::Int(-2))
    );
    assert_eq!(
        eval("(-9223372036854775807 - 1) / -1"),
        Ok(Value::Int(i64::MIN))
    );
    assert_eq!(eval("(-9223372036854775807 - 1) % -1"), Ok(Value::Int(0)));
    assert_eq!(
        eval("-(-9223372036854775807 - 1)"),
        Ok(Value::Int(i64::MIN))
    );
}

#[test]
fn unary_chains() {
    assert_eq!(eval("3"), Ok(Value::Int(3)));
    assert_eq!(eval("-3"), Ok(Value::Int(-3)));
    assert_eq!(eval("--3"), Ok(Value::Int(3)));
    assert_eq!(eval("---3"), Ok(Value::Int(-3)));
    assert_eq!(eval("-------3"), Ok(Value::Int(-3)));
    assert_eq!(eval("!!true"), Ok(Value::Boolean(true)));
    assert_eq!(eval("!!!true"), Ok(Value::Boolean(false)));
}

#[test]
fn parentheses_change_nothing_but_grouping() {
    for expression in ["1", "1 + 2 * 3", "-4", "true || false", "0..3", "blub", "1 / 0", "'a'"] {
        let inside = format!("({})", expression);
        assert_eq!(eval(&inside), eval(expression));
    }
    assert_eq!(eval("(1 + 2) * 3"), Ok(Value::Int(9)));
    assert_eq!(eval("1 + 2 * 3"), Ok(Value::Int(7)));
}

#[test]
fn comparisons_group_to_the_left() {
    assert_eq!(
        eval("1 < 2 < 3"),
        Err(Error::expected_number(Value::Boolean(true)))
    );
    assert_eq!(eval("1 < 2 == true"), Ok(Value::Boolean(true)));
    assert_eq!(eval("10 - 4 - 3"), Ok(Value::Int(3)));
    assert_eq!(eval("100 / 10 / 5"), Ok(Value::Int(2)));
}

#[test]
fn ranges() {
    assert_eq!(eval("0..5"), Ok(ints(&[0, 1, 2, 3, 4])));
    assert_eq!(eval("5..5"), Ok(ints(&[])));
    assert_eq!(eval("5..0"), Ok(ints(&[])));
    assert_eq!(eval("(0 - 2)..1"), Ok(ints(&[-2, -1, 0])));
    assert_eq!(eval("(2..5)[1]"), Ok(Value::Int(3)));
}

#[test]
fn arrays() {
    assert_eq!(eval("array(1, 2, 3, 4, 5)"), Ok(ints(&[1, 2, 3, 4, 5])));
    assert_eq!(eval("array()"), Ok(ints(&[])));
    assert_eq!(eval("array 7"), Ok(ints(&[7])));
    assert_eq!(
        eval("array(1, 'a', true)"),
        Ok(Value::Array(vec![
            Value::Int(1),
            text("a"),
            Value::Boolean(true)
        ]))
    );
    assert_eq!(eval("array(1, 2) == array(1, 2)"), Ok(Value::Boolean(true)));
    assert_eq!(eval("array(1, 2) == array(2, 1)"), Ok(Value::Boolean(false)));
    assert_eq!(eval("array(1, 2) != array(1)"), Ok(Value::Boolean(true)));
    assert_eq!(eval("array(1) == array(1.0)"), Ok(Value::Boolean(false)));
}

#[test]
fn equality() {
    assert_eq!(eval("1 == 1"), Ok(Value::Boolean(true)));
    assert_eq!(eval("1 == 1.0"), Ok(Value::Boolean(true)));
    assert_eq!(eval("1.0 == 1"), Ok(Value::Boolean(true)));
    assert_eq!(eval("1 != 1.5"), Ok(Value::Boolean(true)));
    assert_eq!(eval("1 == true"), Ok(Value::Boolean(false)));
    assert_eq!(eval("'1' == 1"), Ok(Value::Boolean(false)));
    assert_eq!(eval("'a' == \"a\""), Ok(Value::Boolean(true)));
    assert_eq!(eval("'a' != 'b'"), Ok(Value::Boolean(true)));
    assert_eq!(eval("0.0 == -0.0"), Ok(Value::Boolean(true)));
    assert_eq!(eval("0.0 / 0.0 == 0.0 / 0.0"), Ok(Value::Boolean(false)));
    assert_eq!(eval("0.0 / 0.0 != 0.0 / 0.0"), Ok(Value::Boolean(true)));
}

#[test]
fn float_comparisons() {
    assert_eq!(eval("1.5 < 2"), Ok(Value::Boolean(true)));
    assert_eq!(eval("2 < 1.5"), Ok(Value::Boolean(false)));
    assert_eq!(eval("-1.5 < -1.25"), Ok(Value::Boolean(true)));
    assert_eq!(eval("-1.5 > -1.25"), Ok(Value::Boolean(false)));
    assert_eq!(eval("-0.0 < 0.0"), Ok(Value::Boolean(false)));
    assert_eq!(eval("-0.0 >= 0.0"), Ok(Value::Boolean(true)));
    assert_eq!(eval("-1.0 < 0.0"), Ok(Value::Boolean(true)));
    assert_eq!(eval("1.0 / 0.0 > 1000000"), Ok(Value::Boolean(true)));
    assert_eq!(eval("0.0 / 0.0 < 1"), Ok(Value::Boolean(false)));
    assert_eq!(eval("0.0 / 0.0 >= 1"), Ok(Value::Boolean(false)));
    assert_eq!(eval("2.5 <= 2.5"), Ok(Value::Boolean(true)));
}

#[test]
fn float_arithmetic_agrees_with_the_machine() {
    assert_eq!(eval("0.1 + 0.2"), Ok(float(0.1 + 0.2)));
    assert_eq!(eval("0.3 - 0.1"), Ok(float(0.3 - 0.1)));
    assert_eq!(eval("1.1 * 1.1"), Ok(float(1.1 * 1.1)));
    assert_eq!(eval("1.0 / 3.0"), Ok(float(1.0 / 3.0)));
    assert_eq!(eval("7.5 % 2.0"), Ok(float(7.5 % 2.0)));
    assert_eq!(eval("-7.5 % 2.0"), Ok(float(-7.5 % 2.0)));
    assert_eq!(eval("2 + 0.5"), Ok(float(2.5)));
    assert_eq!(
        eval("9007199254740993 + 0.0"),
        Ok(float(9007199254740993i64 as f64))
    );
    assert_eq!(eval("1.0 / 0.0"), Ok(float(f64::INFINITY)));
    assert_eq!(eval("-1.0 / 0.0"), Ok(float(f64::NEG_INFINITY)));
    assert_eq!(
        eval("123456789.123456789"),
        Ok(float(123456789.123456789))
    );
    assert_eq!(eval("0.000001"), Ok(float(0.000001)));
    assert_eq!(eval("-(2.5)"), Ok(float(-2.5)));
}

#[test]
fn float_bits_and_order() {
    let one = Float::from_bits(1.0f64.to_bits());
    let two = Float::from_bits(2.0f64.to_bits());
    let nan = Float::from_bits(f64::NAN.to_bits());
    assert_eq!(one.to_bits(), 1.0f64.to_bits());
    assert!(one.less_than(two));
    assert!(!two.less_than(one));
    assert!(one.equal_to(one));
    assert!(!nan.equal_to(nan));
    assert!(nan.is_nan());
    assert!(!one.is_nan());
    assert_eq!(one.negated().to_bits(), (-1.0f64).to_bits());
    assert_eq!(Float::from_int(3).to_bits(), 3.0f64.to_bits());
    assert_eq!(Float::from_int(-3).to_bits(), (-3.0f64).to_bits());
}

#[test]
fn function_arity_is_checked() {
    let mut configuration = HashMapConfiguration::new();
    configuration.insert_function("f".to_string(), unary_function());
    assert_eq!(
        eval_with_configuration("f()", &configuration),
        Err(Error::wrong_argument_amount(0, 1))
    );
    assert_eq!(
        eval_with_configuration("f(1, 2)", &configuration),
        Err(Error::wrong_argument_amount(2, 1))
    );
    assert_eq!(
        eval_with_configuration("f(1)", &configuration),
        Ok(Value::Int(10))
    );
    assert_eq!(
        eval_with_configuration("f(true)", &configuration),
        Err(Error::expected_number(Value::Boolean(true)))
    );
    assert_eq!(
        eval_with_configuration("g(1)", &configuration),
        Err(Error::FunctionIdentifierNotFound("g".to_string()))
    );
}

#[test]
fn juxtaposition_is_a_call_of_one_argument() {
    let mut configuration = HashMapConfiguration::new();
    configuration.insert_function("f".to_string(), unary_function());
    configuration.insert_variable("x".to_string(), Value::Int(4));
    assert_eq!(
        eval_with_configuration("f x", &configuration),
        eval_with_configuration("f(x)", &configuration)
    );
    assert_eq!(
        eval_with_configuration("f x", &configuration),
        Ok(Value::Int(40))
    );
    assert_eq!(
        eval_with_configuration("f 2 + 1", &configuration),
        Ok(Value::Int(21))
    );
    assert_eq!(
        eval_with_configuration("f f(2)", &configuration),
        Ok(Value::Int(200))
    );
    assert_eq!(
        eval_with_configuration("f f 2", &configuration),
        Err(Error::UnexpectedToken(Token::Int(2)))
    );
    assert_eq!(
        eval_with_configuration("f array(1, 2)", &configuration),
        Err(Error::expected_number(ints(&[1, 2])))
    );
    assert_eq!(
        eval_with_configuration("array f(1)", &configuration),
        Ok(ints(&[10]))
    );
    assert_eq!(
        eval_with_configuration("f - 2", &configuration),
        Err(Error::VariableIdentifierNotFound("f".to_string()))
    );
}

#[test]
fn member_and_index_chains() {
    let mut configuration = HashMapConfiguration::new();
    let foos = Value::Array(vec![text("Hello"), text("world"), text("!")]);
    let inner = Value::Object(vec![("deep".to_string(), Value::Int(7))]);
    configuration.insert_variable(
        "object".to_string(),
        Value::Object(vec![
            ("foos".to_string(), foos),
            ("inner".to_string(), inner),
            ("foos".to_string(), Value::Int(0)),
        ]),
    );
    assert_eq!(
        eval_with_configuration("object.foos[1-1] == 'Hello'", &configuration),
        Ok(Value::Boolean(true))
    );
    assert_eq!(
        eval_with_configuration("object.foos[2]", &configuration),
        Ok(text("!"))
    );
    assert_eq!(
        eval_with_configuration("object.inner.deep + 1", &configuration),
        Ok(Value::Int(8))
    );
    assert_eq!(
        eval_with_configuration("object.bars", &configuration),
        Err(Error::FieldNotFound("bars".to_string()))
    );
    assert_eq!(
        eval_with_configuration("object.foos[3]", &configuration),
        Err(Error::IndexOutOfBounds)
    );
    assert_eq!(
        eval_with_configuration("object.foos.deep", &configuration),
        Err(Error::FieldNotFound("deep".to_string()))
    );
}

#[test]
fn last_binding_of_a_name_wins() {
    let mut configuration = HashMapConfiguration::new();
    configuration.insert_variable("a".to_string(), Value::Int(1));
    configuration.insert_variable("a".to_string(), Value::Int(2));
    assert_eq!(eval_with_configuration("a", &configuration), Ok(Value::Int(2)));
    assert_eq!(configuration.get_variable("a"), Some(&Value::Int(2)));
    assert_eq!(configuration.get_variable("b"), None);
    assert!(configuration.get_function("a").is_none());
    configuration.insert_function("a".to_string(), unary_function());
    assert_eq!(configuration.get_function("a").map(|f| f.arity()), Some(1));
    assert_eq!(
        eval_with_configuration("a(a)", &configuration),
        Ok(Value::Int(20))
    );
}

#[test]
fn empty_configuration_knows_nothing() {
    assert_eq!(EmptyConfiguration.get_variable("a"), None);
    assert!(EmptyConfiguration.get_function("a").is_none());
    assert_eq!(
        eval_with_configuration("a", &EmptyConfiguration),
        Err(Error::VariableIdentifierNotFound("a".to_string()))
    );
}

#[test]
fn a_tree_is_evaluated_against_many_configurations() {
    let tree = build_operator_tree("a * 2").unwrap();
    let mut one = HashMapConfiguration::new();
    one.insert_variable("a".to_string(), Value::Int(1));
    let mut two = HashMapConfiguration::new();
    two.insert_variable("a".to_string(), float(1.5));
    assert_eq!(tree.eval(&one), Ok(Value::Int(2)));
    assert_eq!(tree.eval(&two), Ok(float(3.0)));
    assert_eq!(tree.eval(&one), Ok(Value::Int(2)));
    assert_eq!(
        tree.eval(&EmptyConfiguration),
        Err(Error::VariableIdentifierNotFound("a".to_string()))
    );
}

#[test]
fn shape_of_a_tree() {
    let tree = build_operator_tree("object.foos[1-1]").unwrap();
    assert!(matches!(tree.kind(), Kind::Index));
    assert_eq!(tree.children().len(), 2);
    let base = &tree.children()[0];
    assert!(matches!(base.kind(), Kind::Member(name) if name == "foos"));
    assert_eq!(base.children().len(), 1);
    assert!(matches!(base.children()[0].kind(), Kind::Variable(name) if name == "object"));
    let index = &tree.children()[1];
    assert!(matches!(index.kind(), Kind::Arithmetic(_)));
    let group = build_operator_tree("(((7)))").unwrap();
    assert!(matches!(group.kind(), Kind::Const(Value::Int(7))));
    assert_eq!(group.children().len(), 0);
}

#[test]
fn stages_compose() {
    let tokens = tokenize("1 + 2").unwrap();
    let tree = tokens_to_operator_tree(tokens).unwrap();
    assert_eq!(tree.eval(&EmptyConfiguration), Ok(Value::Int(3)));
    assert_eq!(
        tokens_to_operator_tree(vec![Token::Int(1), Token::Int(2)]).err(),
        Some(Error::UnexpectedToken(Token::Int(2)))
    );
    assert_eq!(
        tokens_to_operator_tree(vec![]).err(),
        Some(Error::MissingOperand)
    );
}

#[test]
fn values_compare_by_content() {
    assert_eq!(Value::Int(1), Value::Int(1));
    assert_ne!(Value::Int(1), float(1.0));
    assert_eq!(float(0.0), float(-0.0));
    assert_ne!(float(f64::NAN), float(f64::NAN));
    assert_eq!(ints(&[1, 2]).clone(), ints(&[1, 2]));
    assert_ne!(ints(&[1, 2]), ints(&[1]));
    let object = Value::Object(vec![("a".to_string(), text("b"))]);
    assert_eq!(object.clone(), object);
    assert!(object.equals(&object.clone()));
    assert!(!object.equals(&Value::Object(vec![("b".to_string(), text("b"))])));
}
