use kaleidoscope::parser::{
    builtin_precedence, parse_source, Expr, Function, ParseError, Parser, Prototype,
};
use std::collections::HashMap;

fn parse_with(input: &str, table: &mut HashMap<u32, i32>) -> Result<Function, ParseError> {
    let mut parser = Parser::try_new(input.to_string(), table).expect("well-formed literals");
    parser.parse()
}

fn parse(input: &str) -> Result<Function, ParseError> {
    let mut table = builtin_precedence();
    parse_with(input, &mut table)
}

fn body_of(input: &str) -> Expr {
    let f = parse(input).expect("parses");
    assert!(f.is_anon);
    assert_eq!(f.prototype.name, "anonymous");
    assert!(f.prototype.args.is_empty());
    assert!(!f.prototype.is_op);
    assert_eq!(f.prototype.prec, 0);
    f.body.expect("has a body")
}

fn error_of(input: &str) -> ParseError {
    parse(input).expect_err("fails")
}

fn num(text: &str) -> Expr {
    Expr::Number(text.to_string())
}

fn var(name: &str) -> Expr {
    Expr::Variable(name.to_string())
}

fn bin(op: char, left: Expr, right: Expr) -> Expr {
    Expr::Binary { op, left: Box::new(left), right: Box::new(right) }
}

fn call(name: &str, args: Vec<Expr>) -> Expr {
    Expr::Call { fn_name: name.to_string(), args }
}

fn proto(name: &str, args: &[&str], is_op: bool, prec: usize) -> Prototype {
    Prototype {
        name: name.to_string(),
        args: args.iter().map(|a| a.to_string()).collect(),
        is_op,
        prec,
    }
}

#[test]
fn builtin_table_holds_the_six_operators() {
    let table = builtin_precedence();
    assert_eq!(table.len(), 6);
    assert_eq!(table.get(&('=' as u32)), Some(&2));
    assert_eq!(table.get(&('<' as u32)), Some(&10));
    assert_eq!(table.get(&('+' as u32)), Some(&20));
    assert_eq!(table.get(&('-' as u32)), Some(&20));
    assert_eq!(table.get(&('*' as u32)), Some(&40));
    assert_eq!(table.get(&('/' as u32)), Some(&40));
}

#[test]
fn single_number_is_an_anonymous_function() {
    for text in ["1", "42", "1.5", ".5", "1e3"] {
        assert_eq!(body_of(text), num(text));
        assert_eq!(body_of(&format!("  {}\n", text)), num(text));
    }
}

#[test]
fn equal_precedence_groups_to_the_left() {
    assert_eq!(body_of("a - b - c"), bin('-', bin('-', var("a"), var("b")), var("c")));
    assert_eq!(body_of("a - b + c"), bin('+', bin('-', var("a"), var("b")), var("c")));
}

#[test]
fn higher_precedence_binds_tighter() {
    assert_eq!(body_of("a + b * c"), bin('+', var("a"), bin('*', var("b"), var("c"))));
    assert_eq!(body_of("a * b + c"), bin('+', bin('*', var("a"), var("b")), var("c")));
    assert_eq!(
        body_of("a < b + c * d - e"),
        bin(
            '<',
            var("a"),
            bin('-', bin('+', var("b"), bin('*', var("c"), var("d"))), var("e"))
        )
    );
    assert_eq!(
        body_of("x = a + b"),
        bin('=', var("x"), bin('+', var("a"), var("b")))
    );
}

#[test]
fn unknown_operator_binds_tightest() {
    assert_eq!(body_of("a * b ^ c"), bin('*', var("a"), bin('^', var("b"), var("c"))));
    assert_eq!(body_of("a ^ b * c"), bin('*', bin('^', var("a"), var("b")), var("c")));
}

#[test]
fn declared_precedence_is_seen_by_the_next_parse() {
    let mut table = builtin_precedence();
    let def = parse_with("def binary^ 60 (a, b) a^b", &mut table).expect("parses");
    assert_eq!(def.prototype, proto("binary^", &["a", "b"], true, 60));
    assert!(!def.is_anon);
    assert_eq!(def.body, Some(bin('^', var("a"), var("b"))));
    assert_eq!(table.get(&('^' as u32)), Some(&60));
    assert_eq!(table.len(), 7);
    let next = parse_with("3^2^2", &mut table).expect("parses");
    assert!(next.is_anon);
    assert_eq!(next.body, Some(bin('^', bin('^', num("3"), num("2")), num("2"))));
}

#[test]
fn declared_precedence_changes_grouping() {
    let mut table = builtin_precedence();
    let before = parse_with("a | b + c", &mut table).expect("parses");
    assert_eq!(before.body, Some(bin('+', bin('|', var("a"), var("b")), var("c"))));
    parse_with("def binary| 5 (a, b) a", &mut table).expect("parses");
    assert_eq!(table.get(&('|' as u32)), Some(&5));
    let after = parse_with("a | b + c", &mut table).expect("parses");
    assert_eq!(after.body, Some(bin('|', var("a"), bin('+', var("b"), var("c")))));
}

#[test]
fn declared_precedence_overwrites_and_serves_the_body() {
    let mut table = builtin_precedence();
    let def = parse_with("def binary+ 50 (a, b) a + b * a", &mut table).expect("parses");
    assert_eq!(table.get(&('+' as u32)), Some(&50));
    assert_eq!(def.body, Some(bin('*', bin('+', var("a"), var("b")), var("a"))));
}

#[test]
fn declared_precedence_stays_when_the_parse_fails_later() {
    let mut table = builtin_precedence();
    assert_eq!(
        parse_with("def binary^ 60 a", &mut table),
        Err(ParseError::ExpectedPrototypeParen)
    );
    assert_eq!(table.get(&('^' as u32)), Some(&60));
    let mut table = builtin_precedence();
    assert_eq!(parse_with("def binary^ 60", &mut table), Err(ParseError::UnexpectedEof));
    assert_eq!(table.get(&('^' as u32)), None);
}

#[test]
fn binary_declaration_without_precedence_leaves_the_table() {
    let mut table = builtin_precedence();
    let before = parse_with("a | b + c", &mut table).expect("parses");
    assert_eq!(before.body, Some(bin('+', bin('|', var("a"), var("b")), var("c"))));
    let def = parse_with("def binary| (a, b) a", &mut table).expect("parses");
    assert_eq!(def.prototype, proto("binary|", &["a", "b"], true, 0));
    assert_eq!(table.get(&('|' as u32)), None);
    assert_eq!(table, builtin_precedence());
    let after = parse_with("a | b + c", &mut table).expect("parses");
    assert_eq!(after.body, Some(bin('+', bin('|', var("a"), var("b")), var("c"))));
    let def = parse_with("def binary+ (a, b) a ", &mut table).expect("parses");
    assert_eq!(def.prototype, proto("binary+", &["a", "b"], true, 0));
    assert_eq!(def.body, Some(var("a")));
    assert_eq!(table.get(&('+' as u32)), Some(&20));
    parse_with("extern binary* (a, b)", &mut table).expect("parses");
    assert_eq!(table, builtin_precedence());
}

#[test]
fn failed_parses_leave_the_table_unless_a_precedence_was_stated() {
    let mut table = builtin_precedence();
    assert!(parse_with("def binary| (a b) a", &mut table).is_err());
    assert!(parse_with("def binary|", &mut table).is_err());
    assert!(parse_with("def f(a", &mut table).is_err());
    assert!(parse_with("a +", &mut table).is_err());
    assert!(parse_with("def unary", &mut table).is_err());
    assert_eq!(table, builtin_precedence());
    assert!(parse_with("def binary| 7 (a b) a", &mut table).is_err());
    assert_eq!(table.get(&('|' as u32)), Some(&7));
    assert_eq!(table.len(), 7);
}

#[test]
fn other_declarations_leave_the_table() {
    let mut table = builtin_precedence();
    parse_with("def unary! (a) a", &mut table).expect("parses");
    parse_with("def f(a) a", &mut table).expect("parses");
    parse_with("extern g(a)", &mut table).expect("parses");
    parse_with("1 + 2", &mut table).expect("parses");
    assert_eq!(table, builtin_precedence());
}

#[test]
fn stated_precedence_is_the_integer_part() {
    let mut table = builtin_precedence();
    let def = parse_with("def binary^ 60.9 (a, b) a", &mut table).expect("parses");
    assert_eq!(def.prototype.prec, 60);
    assert_eq!(table.get(&('^' as u32)), Some(&60));
    let def = parse_with("def binary^ 1e2 (a, b) a", &mut table).expect("parses");
    assert_eq!(def.prototype.prec, 100);
    assert_eq!(table.get(&('^' as u32)), Some(&100));
    let def = parse_with("def binary^ 4294967297 (a, b) a", &mut table).expect("parses");
    assert_eq!(def.prototype.prec, 4294967297);
    assert_eq!(table.get(&('^' as u32)), Some(&1));
    let def = parse_with("def binary^ 1e40 (a, b) a", &mut table).expect("parses");
    assert_eq!(def.prototype.prec, usize::MAX);
    assert_eq!(table.get(&('^' as u32)), Some(&-1));
}

#[test]
fn definition_with_parameters_and_body() {
    let f = parse("def foo(a, b) a+b").expect("parses");
    assert_eq!(f.prototype, proto("foo", &["a", "b"], false, 0));
    assert_eq!(f.prototype.args, vec!["a".to_string(), "b".to_string()]);
    assert!(!f.is_anon);
    assert_eq!(f.body, Some(bin('+', var("a"), var("b"))));
}

#[test]
fn parameters_need_commas() {
    assert_eq!(error_of("def foo(a b) a+b"), ParseError::ExpectedParameterSeparator);
}

#[test]
fn definition_without_parameters() {
    let f = parse("def one() 1").expect("parses");
    assert_eq!(f.prototype, proto("one", &[], false, 0));
    assert_eq!(f.body, Some(num("1")));
}

#[test]
fn external_declaration_has_no_body() {
    let f = parse("extern sin(x) ").expect("parses");
    assert_eq!(f.prototype, proto("sin", &["x"], false, 0));
    assert_eq!(f.body, None);
    assert!(!f.is_anon);
}

#[test]
fn external_declaration_with_body_is_trailing_garbage() {
    assert_eq!(error_of("extern sin(x) x"), ParseError::UnexpectedToken);
}

#[test]
fn unary_operator_definition() {
    let f = parse("def unary!(v) if v then 0 else 1").expect("parses");
    assert_eq!(f.prototype, proto("unary!", &["v"], true, 0));
    assert_eq!(
        f.body,
        Some(Expr::Conditional {
            cond: Box::new(var("v")),
            consequence: Box::new(num("0")),
            alternative: Box::new(num("1")),
        })
    );
}

#[test]
fn prefix_operator_is_a_call() {
    assert_eq!(body_of("!x"), call("unary!", vec![var("x")]));
    assert_eq!(body_of("-!x"), call("unary-", vec![call("unary!", vec![var("x")])]));
    assert_eq!(
        body_of("a + -b"),
        bin('+', var("a"), call("unary-", vec![var("b")]))
    );
    assert_eq!(
        body_of("-a * b"),
        bin('*', call("unary-", vec![var("a")]), var("b"))
    );
}

#[test]
fn conditional_needs_both_branches() {
    assert_eq!(
        body_of("if 1 then 2 else 3"),
        Expr::Conditional {
            cond: Box::new(num("1")),
            consequence: Box::new(num("2")),
            alternative: Box::new(num("3")),
        }
    );
    assert_eq!(error_of("if 1 then 2"), ParseError::ExpectedElse);
    assert_eq!(error_of("if 1 else 3"), ParseError::ExpectedThen);
    assert_eq!(error_of("if 1"), ParseError::ExpectedThen);
    assert_eq!(error_of("if 1 then 2 else"), ParseError::UnexpectedEof);
    assert_eq!(error_of("if 1 then"), ParseError::UnexpectedEof);
    assert_eq!(error_of("if"), ParseError::UnexpectedEof);
}

#[test]
fn var_bindings_with_and_without_initial_value() {
    let body = body_of("var x = 1, y in x+y");
    assert_eq!(
        body,
        Expr::VarIn {
            variables: vec![("x".to_string(), Some(num("1"))), ("y".to_string(), None)],
            body: Box::new(bin('+', var("x"), var("y"))),
        }
    );
}

#[test]
fn var_errors() {
    assert_eq!(error_of("var 1 in x"), ParseError::ExpectedBinding);
    assert_eq!(error_of("var x y in x"), ParseError::ExpectedBindingSeparator);
    assert_eq!(error_of("var x in"), ParseError::UnexpectedEof);
    assert_eq!(error_of("var x = 1"), ParseError::UnexpectedEof);
    assert_eq!(error_of("var x ="), ParseError::UnexpectedEof);
    assert_eq!(error_of("var x ,"), ParseError::UnexpectedEof);
    assert_eq!(error_of("var x"), ParseError::UnexpectedEof);
    assert_eq!(error_of("var"), ParseError::UnexpectedEof);
}

#[test]
fn for_loop_with_and_without_step() {
    assert_eq!(
        body_of("for i = 1, i < n, 2 in f(i)"),
        Expr::For {
            var_name: "i".to_string(),
            start: Box::new(num("1")),
            end: Box::new(bin('<', var("i"), var("n"))),
            step: Some(Box::new(num("2"))),
            body: Box::new(call("f", vec![var("i")])),
        }
    );
    assert_eq!(
        body_of("for i = 1, n in i"),
        Expr::For {
            var_name: "i".to_string(),
            start: Box::new(num("1")),
            end: Box::new(var("n")),
            step: None,
            body: Box::new(var("i")),
        }
    );
}

#[test]
fn for_loop_errors() {
    assert_eq!(error_of("for 1 = 1, n in i"), ParseError::ExpectedLoopVariable);
    assert_eq!(error_of("for i 1, n in i"), ParseError::ExpectedLoopAssignment);
    assert_eq!(error_of("for i < 1, n in i"), ParseError::ExpectedLoopAssignment);
    assert_eq!(error_of("for i = 1 n in i"), ParseError::ExpectedLoopSeparator);
    assert_eq!(error_of("for i = 1, n i"), ParseError::ExpectedLoopIn);
    assert_eq!(error_of("for i = 1, n, 2 i"), ParseError::ExpectedLoopIn);
    assert_eq!(error_of("for i = 1, n in"), ParseError::UnexpectedEof);
    assert_eq!(error_of("for i = 1, n"), ParseError::UnexpectedEof);
    assert_eq!(error_of("for i = 1"), ParseError::UnexpectedEof);
    assert_eq!(error_of("for i ="), ParseError::UnexpectedEof);
    assert_eq!(error_of("for i"), ParseError::UnexpectedEof);
    assert_eq!(error_of("for"), ParseError::UnexpectedEof);
}

#[test]
fn calls_and_variables() {
    assert_eq!(body_of("x"), var("x"));
    assert_eq!(body_of("f(x)"), call("f", vec![var("x")]));
    assert_eq!(
        body_of("f(x, 1+2, g(y))"),
        call("f", vec![var("x"), bin('+', num("1"), num("2")), call("g", vec![var("y")])])
    );
}

#[test]
fn call_without_arguments() {
    assert_eq!(body_of("foo()"), call("foo", vec![]));
    assert_eq!(body_of("f() + 1"), bin('+', call("f", vec![]), num("1")));
    assert_eq!(body_of("g(f())"), call("g", vec![call("f", vec![])]));
    assert_eq!(body_of("(f())"), call("f", vec![]));
    assert_eq!(body_of("g(f(), h())"), call("g", vec![call("f", vec![]), call("h", vec![])]));
    assert_eq!(error_of("(f()"), ParseError::UnexpectedEof);
    assert_eq!(error_of("g(f()"), ParseError::UnexpectedEof);
    assert_eq!(error_of("f())"), ParseError::UnexpectedToken);
}

#[test]
fn call_errors() {
    assert_eq!(error_of("f(x y)"), ParseError::ExpectedArgumentSeparator);
    assert_eq!(error_of("f(x"), ParseError::UnexpectedEof);
    assert_eq!(error_of("f(x,"), ParseError::UnexpectedEof);
    assert_eq!(error_of("f("), ParseError::UnexpectedEof);
    assert_eq!(error_of("f(x,)"), ParseError::UnknownExpression);
}

#[test]
fn parenthesized_expressions() {
    assert_eq!(body_of("(a)"), var("a"));
    assert_eq!(body_of("(a + b) * c"), bin('*', bin('+', var("a"), var("b")), var("c")));
    assert_eq!(body_of("a - (b - c)"), bin('-', var("a"), bin('-', var("b"), var("c"))));
    assert_eq!(error_of("(a"), ParseError::UnexpectedEof);
    assert_eq!(error_of("(a b"), ParseError::ExpectedClosingParen);
    assert_eq!(error_of("("), ParseError::UnexpectedEof);
}

#[test]
fn trailing_tokens_are_rejected() {
    assert_eq!(error_of("1 2"), ParseError::UnexpectedToken);
    assert_eq!(error_of("a b"), ParseError::UnexpectedToken);
    assert_eq!(error_of("a )"), ParseError::UnexpectedToken);
    assert_eq!(error_of("def f(x) x y"), ParseError::UnexpectedToken);
    assert_eq!(
        ParseError::UnexpectedToken.message(),
        "Unexpected token after parsed expression."
    );
}

#[test]
fn empty_input_is_end_of_file() {
    assert_eq!(error_of(""), ParseError::UnexpectedEof);
    assert_eq!(error_of("   \n"), ParseError::UnexpectedEof);
    assert_eq!(error_of("# only a comment\n"), ParseError::UnexpectedEof);
    assert_eq!(ParseError::UnexpectedEof.message(), "Unexpected end of file.");
}

#[test]
fn unknown_expression() {
    assert_eq!(error_of(")"), ParseError::UnknownExpression);
    assert_eq!(error_of(","), ParseError::UnknownExpression);
    assert_eq!(error_of("then"), ParseError::UnknownExpression);
    assert_eq!(error_of("a + )"), ParseError::UnknownExpression);
    assert_eq!(error_of("binary"), ParseError::UnknownExpression);
}

#[test]
fn operator_without_operand_is_end_of_file() {
    assert_eq!(error_of("a +"), ParseError::UnexpectedEof);
    assert_eq!(error_of("-"), ParseError::UnexpectedEof);
}

#[test]
fn prototype_errors() {
    assert_eq!(error_of("def"), ParseError::UnexpectedEof);
    assert_eq!(error_of("extern"), ParseError::UnexpectedEof);
    assert_eq!(error_of("def 1"), ParseError::ExpectedPrototypeName);
    assert_eq!(error_of("def (x) x"), ParseError::ExpectedPrototypeName);
    assert_eq!(error_of("def foo x"), ParseError::ExpectedPrototypeParen);
    assert_eq!(error_of("def foo"), ParseError::UnexpectedEof);
    assert_eq!(error_of("def foo("), ParseError::UnexpectedEof);
    assert_eq!(error_of("def foo(1) x"), ParseError::ExpectedParameter);
    assert_eq!(error_of("def foo(a,) x"), ParseError::ExpectedParameter);
    assert_eq!(error_of("def foo(a"), ParseError::UnexpectedEof);
    assert_eq!(error_of("def foo(a,"), ParseError::UnexpectedEof);
    assert_eq!(error_of("def foo(a + b) x"), ParseError::ExpectedParameterSeparator);
    assert_eq!(error_of("def binary x (a, b) a"), ParseError::ExpectedOperator);
    assert_eq!(error_of("def unary 1 (a) a"), ParseError::ExpectedOperator);
    assert_eq!(error_of("def unary"), ParseError::UnexpectedEof);
    assert_eq!(error_of("def unary !"), ParseError::UnexpectedEof);
    assert_eq!(error_of("def binary |"), ParseError::UnexpectedEof);
    assert_eq!(error_of("def foo()"), ParseError::UnexpectedEof);
}

#[test]
fn comments_are_left_out() {
    assert_eq!(
        body_of("a + # the first operand\n b # and the second\n"),
        bin('+', var("a"), var("b"))
    );
    let f = parse("# header\ndef f(x) # parameters\n x").expect("parses");
    assert_eq!(f.prototype, proto("f", &["x"], false, 0));
    assert_eq!(f.body, Some(var("x")));
}

#[test]
fn malformed_literal_gives_no_parser() {
    let mut table = builtin_precedence();
    assert!(Parser::try_new("1 + 1.2.3".to_string(), &mut table).is_none());
    assert!(Parser::try_new("1 + 1.23".to_string(), &mut table).is_some());
    assert_eq!(table, builtin_precedence());
}

#[test]
fn new_lexes_the_whole_input() {
    let mut table = builtin_precedence();
    let parser = Parser::new("def f(x) x # c\n".to_string(), &mut table);
    assert_eq!(parser.pos, 0);
    assert_eq!(parser.tokens.len(), 6);
}

#[test]
fn parse_starts_at_the_cursor() {
    let mut table = builtin_precedence();
    let mut parser = Parser::new("a b".to_string(), &mut table);
    parser.pos = 1;
    let f = parser.parse().expect("parses");
    assert_eq!(f.body, Some(var("b")));
    assert_eq!(parser.pos, 2);
    assert_eq!(parser.parse(), Err(ParseError::UnexpectedEof));
    parser.pos = 7;
    assert_eq!(parser.parse(), Err(ParseError::UnexpectedEof));
}

#[test]
fn every_error_has_its_message() {
    let all = [
        (ParseError::UnexpectedEof, "Unexpected end of file."),
        (ParseError::UnexpectedToken, "Unexpected token after parsed expression."),
        (ParseError::ExpectedOperator, "Expected operator in custom operator declaration."),
        (ParseError::ExpectedPrototypeName, "Expected identifier in prototype declaration."),
        (ParseError::ExpectedPrototypeParen, "Expected '(' character in prototype declaration."),
        (ParseError::ExpectedParameter, "Expected identifier in parameter declaration."),
        (
            ParseError::ExpectedParameterSeparator,
            "Expected ',' or ')' character in prototype declaration.",
        ),
        (ParseError::ExpectedNumber, "Expected number literal."),
        (
            ParseError::ExpectedOpeningParen,
            "Expected '(' character at start of parenthesized expression.",
        ),
        (
            ParseError::ExpectedClosingParen,
            "Expected ')' character at end of parenthesized expression.",
        ),
        (ParseError::ExpectedIdentifier, "Expected identifier."),
        (ParseError::ExpectedArgumentSeparator, "Expected ',' character in function call."),
        (ParseError::InvalidOperator, "Invalid operator."),
        (ParseError::ExpectedThen, "Expected 'then' keyword."),
        (ParseError::ExpectedElse, "Expected 'else' keyword."),
        (ParseError::ExpectedLoopVariable, "Expected identifier in for loop."),
        (ParseError::ExpectedLoopAssignment, "Expected '=' character in for loop."),
        (ParseError::ExpectedLoopSeparator, "Expected ',' character in for loop."),
        (ParseError::ExpectedLoopIn, "Expected 'in' keyword in for loop."),
        (ParseError::ExpectedBinding, "Expected identifier in 'var..in' declaration."),
        (
            ParseError::ExpectedBindingSeparator,
            "Expected comma or 'in' keyword in variable declaration.",
        ),
        (ParseError::UnknownExpression, "Unknown expression."),
    ];
    for (error, message) in all {
        assert_eq!(error.message(), message);
    }
}

#[test]
fn parse_source_parses_and_keeps_declarations() {
    let mut table = builtin_precedence();
    let def = parse_source("def binary: 1 (x, y) y".to_string(), &mut table)
        .expect("well-formed literals")
        .expect("parses");
    assert_eq!(def.prototype, proto("binary:", &["x", "y"], true, 1));
    assert_eq!(table.get(&(':' as u32)), Some(&1));
    let next = parse_source("a : b = c".to_string(), &mut table)
        .expect("well-formed literals")
        .expect("parses");
    assert_eq!(next.body, Some(bin(':', var("a"), bin('=', var("b"), var("c")))));
    assert_eq!(
        parse_source("a b".to_string(), &mut table),
        Some(Err(ParseError::UnexpectedToken))
    );
}

#[test]
fn parse_source_refuses_malformed_literals() {
    let mut table = builtin_precedence();
    assert_eq!(parse_source("def binary: 1.1.1 (x, y) y".to_string(), &mut table), None);
    assert_eq!(
        parse_source("1 + 0x10".to_string(), &mut table),
        Some(Err(ParseError::UnexpectedToken))
    );
    assert_eq!(parse_source("1 + 1f".to_string(), &mut table), None);
    assert_eq!(table, builtin_precedence());
}

#[test]
fn long_chain_of_one_precedence_groups_left() {
    assert_eq!(
        body_of("a - b + c - d + e"),
        bin(
            '+',
            bin('-', bin('+', bin('-', var("a"), var("b")), var("c")), var("d")),
            var("e")
        )
    );
}

#[test]
fn long_chain_of_rising_precedence_groups_right() {
    assert_eq!(
        body_of("a = b < c + d * e ^ f"),
        bin(
            '=',
            var("a"),
            bin(
                '<',
                var("b"),
                bin('+', var("c"), bin('*', var("d"), bin('^', var("e"), var("f"))))
            )
        )
    );
}
