use simple_lexer::eval::{EvalContext, EvalError};
use simple_lexer::lexer::Lexer;
use simple_lexer::parser::{Location, NodeType, Operator, ParseNode, Parser};
use std::f64::EPSILON;

type EvalResult = Result<f64, EvalError>;

fn literal(text: &String) -> f64 {
    text.parse().unwrap()
}

fn truth(holds: bool) -> f64 {
    if holds {
        1.0
    } else {
        0.0
    }
}

fn apply(operator: Operator, l: f64, r: f64) -> f64 {
    match operator {
        Operator::Sum => l + r,
        Operator::Substraction => l - r,
        Operator::Multiplication => l * r,
        Operator::Division => l / r,
        Operator::GreaterThan => truth(l > r),
        Operator::GreaterThanOrEqual => truth(l >= r),
        Operator::LessThan => truth(l < r),
        Operator::LessThanOrEqual => truth(l <= r),
        Operator::Equal => truth((l - r).abs() < EPSILON),
    }
}

fn parse(input: &str) -> ParseNode {
    let tokens = Lexer::get_tokens(input).unwrap();
    let mut parser = Parser::new(&tokens);
    parser.parse().unwrap()
}

fn eval_in(ctx: &mut EvalContext<f64>, input: &str) -> EvalResult {
    let root = parse(input);
    let node = if let NodeType::Root(nodes) = &root.ntype {
        &nodes[0]
    } else {
        panic!("Parse result should always be a Root node");
    };

    ctx.eval(node, &literal, &apply)
}

fn eval(input: &str) -> EvalResult {
    let mut ctx = EvalContext::populated(std::f64::consts::PI);
    eval_in(&mut ctx, input)
}

fn assert_res(lhs: EvalResult, rhs: EvalResult) {
    match (lhs, rhs) {
        (Ok(a), Ok(b)) => assert!((a - b).abs() <= EPSILON),
        (lhs, rhs) => assert_eq!(lhs, rhs),
    }
}

#[test]
fn test_eval_number() {
    assert_res(eval("3.2"), Ok(3.2));
}

#[test]
fn test_eval_sum() {
    assert_res(eval("3.2 + 2.0"), Ok(5.2));
}

#[test]
fn test_eval_substraction() {
    assert_res(eval("3.2 - 2.0"), Ok(1.2));
}

#[test]
fn test_eval_multiplication() {
    assert_res(eval("3.2 * 2.0"), Ok(6.4));
}

#[test]
fn test_eval_division() {
    assert_res(eval("3.2 / 2.0"), Ok(1.6));
}

#[test]
fn test_eval_nested_parens() {
    assert_eq!(eval("((3.14))"), Ok(3.14));
}

#[test]
fn test_eval_precedence() {
    assert_eq!(eval("2 + 3 * 4"), Ok(14.0));
    assert_eq!(eval("(2 + 3) * 4"), Ok(20.0));
    assert_eq!(eval("8 / 4 - 1"), Ok(1.0));
}

#[test]
fn test_eval_comparisons() {
    assert_eq!(eval("3 > 2"), Ok(1.0));
    assert_eq!(eval("2 > 3"), Ok(0.0));
    assert_eq!(eval("2 >= 2"), Ok(1.0));
    assert_eq!(eval("2 < 2"), Ok(0.0));
    assert_eq!(eval("2 <= 2"), Ok(1.0));
    assert_eq!(eval("1 + 1 == 2"), Ok(1.0));
    assert_eq!(eval("1 == 2"), Ok(0.0));
}

#[test]
fn test_eval_equality_tolerance() {
    assert!(0.1 + 0.2 != 0.3);
    assert_eq!(eval("0.1 + 0.2 == 0.3"), Ok(1.0));
}

#[test]
fn test_eval_constant_pi() {
    assert_eq!(eval("PI"), Ok(std::f64::consts::PI));
    assert_res(eval("PI * 2"), Ok(6.283185307179586));
}

#[test]
fn test_eval_assignment_round_trip() {
    let mut ctx = EvalContext::populated(std::f64::consts::PI);
    assert_eq!(eval_in(&mut ctx, "pi = 3.14"), Ok(3.14));
    assert_eq!(eval_in(&mut ctx, "pi"), Ok(3.14));
    assert_eq!(eval_in(&mut ctx, "pi * 2"), Ok(6.28));
}

#[test]
fn test_eval_assignment_overwrites() {
    let mut ctx = EvalContext::new();
    assert_eq!(eval_in(&mut ctx, "x = 1"), Ok(1.0));
    assert_eq!(eval_in(&mut ctx, "y = x + 1"), Ok(2.0));
    assert_eq!(eval_in(&mut ctx, "x = y * 5"), Ok(10.0));
    assert_eq!(eval_in(&mut ctx, "x"), Ok(10.0));
    assert_eq!(eval_in(&mut ctx, "y"), Ok(2.0));
    assert_eq!(eval_in(&mut ctx, "PI = 3"), Ok(3.0));
    assert_eq!(eval_in(&mut ctx, "PI"), Ok(3.0));
}

#[test]
fn test_eval_unassigned_identifier() {
    assert_eq!(
        eval("1 + radius"),
        Err(EvalError::SymbolNotFound(
            String::from("radius"),
            Location(0, 4)
        ))
    );
}

#[test]
fn test_eval_new_context_has_no_pi() {
    let mut ctx = EvalContext::new();
    assert_eq!(
        eval_in(&mut ctx, "PI"),
        Err(EvalError::SymbolNotFound(
            String::from("PI"),
            Location(0, 0)
        ))
    );
}

#[test]
fn test_eval_left_operand_fails_first() {
    assert_eq!(
        eval("a + b"),
        Err(EvalError::SymbolNotFound(String::from("a"), Location(0, 0)))
    );
    assert_eq!(
        eval("1 + b"),
        Err(EvalError::SymbolNotFound(String::from("b"), Location(0, 4)))
    );
}

#[test]
fn test_eval_failed_assignment_stores_nothing() {
    let mut ctx = EvalContext::new();
    assert_eq!(
        eval_in(&mut ctx, "x = y"),
        Err(EvalError::SymbolNotFound(String::from("y"), Location(0, 4)))
    );
    assert_eq!(
        eval_in(&mut ctx, "x"),
        Err(EvalError::SymbolNotFound(String::from("x"), Location(0, 0)))
    );
}

#[test]
fn test_eval_assignment_below_an_operation() {
    let assignment = ParseNode {
        ntype: NodeType::Assignment(
            String::from("x"),
            Box::new(ParseNode {
                ntype: NodeType::Number(String::from("4")),
                location: Location(0, 0),
            }),
        ),
        location: Location(0, 0),
    };
    let missing = ParseNode {
        ntype: NodeType::Identifier(String::from("y")),
        location: Location(0, 9),
    };
    let sum = ParseNode {
        ntype: NodeType::Sum(Box::new(assignment), Box::new(missing)),
        location: Location(0, 7),
    };
    let again = ParseNode {
        ntype: NodeType::Identifier(String::from("x")),
        location: Location(0, 0),
    };
    let mut ctx = EvalContext::new();
    assert_eq!(
        ctx.eval(&sum, &literal, &apply),
        Err(EvalError::SymbolNotFound(String::from("y"), Location(0, 9)))
    );
    assert_eq!(ctx.eval(&again, &literal, &apply), Ok(4.0));
}

#[test]
fn test_eval_root_is_unimplemented() {
    let root = parse("1 + 2");
    let mut ctx = EvalContext::populated(std::f64::consts::PI);
    match ctx.eval(&root, &literal, &apply) {
        Err(EvalError::Unimplemented(description)) => {
            assert!(description.starts_with("Eval for type Root"))
        }
        other => panic!("Expected Unimplemented, got {:?}", other),
    }
}

#[test]
fn test_run_gives_the_value_of_each_statement() {
    let root = parse("PI / 2");
    assert_eq!(
        EvalContext::run(&root, std::f64::consts::PI, &literal, &apply),
        Ok(vec![std::f64::consts::FRAC_PI_2])
    );
}

#[test]
fn test_run_of_empty_program() {
    let root = parse("");
    assert_eq!(
        EvalContext::run(&root, std::f64::consts::PI, &literal, &apply),
        Ok(vec![])
    );
}

#[test]
fn test_run_shares_one_context_and_halts_at_first_failure() {
    let statements = vec![parse("x = 2"), parse("x * x"), parse("y"), parse("x = 3")];
    let nodes = statements
        .into_iter()
        .map(|root| match root.ntype {
            NodeType::Root(mut nodes) => nodes.remove(0),
            other => panic!("Expected Root node, got {:?}", other),
        })
        .collect::<Vec<_>>();
    let mut first_two = Vec::new();
    let mut all = Vec::new();
    for (i, node) in nodes.into_iter().enumerate() {
        if i < 2 {
            first_two.push(ParseNode {
                ntype: copy_of(&node.ntype),
                location: node.location,
            });
        }
        all.push(node);
    }
    let first_two = ParseNode {
        ntype: NodeType::Root(first_two),
        location: Location(0, 0),
    };
    let all = ParseNode {
        ntype: NodeType::Root(all),
        location: Location(0, 0),
    };
    assert_eq!(
        EvalContext::run(&first_two, std::f64::consts::PI, &literal, &apply),
        Ok(vec![2.0, 4.0])
    );
    assert_eq!(
        EvalContext::run(&all, std::f64::consts::PI, &literal, &apply),
        Err(EvalError::SymbolNotFound(String::from("y"), Location(0, 0)))
    );
}

fn copy_of(ntype: &NodeType) -> NodeType {
    let child = |node: &ParseNode| {
        Box::new(ParseNode {
            ntype: copy_of(&node.ntype),
            location: node.location,
        })
    };
    match ntype {
        NodeType::Identifier(name) => NodeType::Identifier(name.clone()),
        NodeType::Number(text) => NodeType::Number(text.clone()),
        NodeType::Sum(l, r) => NodeType::Sum(child(l), child(r)),
        NodeType::Substraction(l, r) => NodeType::Substraction(child(l), child(r)),
        NodeType::Multiplication(l, r) => NodeType::Multiplication(child(l), child(r)),
        NodeType::Division(l, r) => NodeType::Division(child(l), child(r)),
        NodeType::GreaterThan(l, r) => NodeType::GreaterThan(child(l), child(r)),
        NodeType::GreaterThanOrEqual(l, r) => NodeType::GreaterThanOrEqual(child(l), child(r)),
        NodeType::LessThan(l, r) => NodeType::LessThan(child(l), child(r)),
        NodeType::LessThanOrEqual(l, r) => NodeType::LessThanOrEqual(child(l), child(r)),
        NodeType::Equal(l, r) => NodeType::Equal(child(l), child(r)),
        NodeType::Assignment(name, r) => NodeType::Assignment(name.clone(), child(r)),
        NodeType::Root(nodes) => NodeType::Root(
            nodes
                .iter()
                .map(|node| ParseNode {
                    ntype: copy_of(&node.ntype),
                    location: node.location,
                })
                .collect(),
        ),
    }
}
