use simple_lexer::lexer::Lexer;
use simple_lexer::parser::{Location, NodeType, ParseNode, Parser, ParsingError};

fn wrap(node: ParseNode) -> ParseNode {
    ParseNode::wrap_in_root(node)
}

fn number_node(num: f64, (line, column): (usize, usize)) -> ParseNode {
    ParseNode {
        ntype: NodeType::Number(num.to_string()),
        location: Location(line, column),
    }
}

fn identifier_node(value: &str, (line, column): (usize, usize)) -> ParseNode {
    ParseNode {
        ntype: NodeType::Identifier(String::from(value)),
        location: Location(line, column),
    }
}

fn multiplication_node(
    left_child: ParseNode,
    right_child: ParseNode,
    (line, column): (usize, usize),
) -> ParseNode {
    let left_child = Box::new(left_child);
    let right_child = Box::new(right_child);
    ParseNode {
        ntype: NodeType::Multiplication(left_child, right_child),
        location: Location(line, column),
    }
}

fn division_node(
    left_child: ParseNode,
    right_child: ParseNode,
    (line, column): (usize, usize),
) -> ParseNode {
    let left_child = Box::new(left_child);
    let right_child = Box::new(right_child);
    ParseNode {
        ntype: NodeType::Division(left_child, right_child),
        location: Location(line, column),
    }
}

fn sum_node(
    left_child: ParseNode,
    right_child: ParseNode,
    (line, column): (usize, usize),
) -> ParseNode {
    let left_child = Box::new(left_child);
    let right_child = Box::new(right_child);
    ParseNode {
        ntype: NodeType::Sum(left_child, right_child),
        location: Location(line, column),
    }
}

fn substraction_node(
    left_child: ParseNode,
    right_child: ParseNode,
    (line, column): (usize, usize),
) -> ParseNode {
    let left_child = Box::new(left_child);
    let right_child = Box::new(right_child);
    ParseNode {
        ntype: NodeType::Substraction(left_child, right_child),
        location: Location(line, column),
    }
}

fn greater_than_node(
    left_child: ParseNode,
    right_child: ParseNode,
    (line, column): (usize, usize),
) -> ParseNode {
    let left_child = Box::new(left_child);
    let right_child = Box::new(right_child);
    ParseNode {
        ntype: NodeType::GreaterThan(left_child, right_child),
        location: Location(line, column),
    }
}

fn greater_than_equal_node(
    left_child: ParseNode,
    right_child: ParseNode,
    (line, column): (usize, usize),
) -> ParseNode {
    let left_child = Box::new(left_child);
    let right_child = Box::new(right_child);
    ParseNode {
        ntype: NodeType::GreaterThanOrEqual(left_child, right_child),
        location: Location(line, column),
    }
}

fn less_than_node(
    left_child: ParseNode,
    right_child: ParseNode,
    (line, column): (usize, usize),
) -> ParseNode {
    let left_child = Box::new(left_child);
    let right_child = Box::new(right_child);
    ParseNode {
        ntype: NodeType::LessThan(left_child, right_child),
        location: Location(line, column),
    }
}

fn less_than_equal_node(
    left_child: ParseNode,
    right_child: ParseNode,
    (line, column): (usize, usize),
) -> ParseNode {
    let left_child = Box::new(left_child);
    let right_child = Box::new(right_child);
    ParseNode {
        ntype: NodeType::LessThanOrEqual(left_child, right_child),
        location: Location(line, column),
    }
}

fn equal_node(
    left_child: ParseNode,
    right_child: ParseNode,
    (line, column): (usize, usize),
) -> ParseNode {
    let left_child = Box::new(left_child);
    let right_child = Box::new(right_child);
    ParseNode {
        ntype: NodeType::Equal(left_child, right_child),
        location: Location(line, column),
    }
}

fn assignment_node(
    identifier: String,
    right_child: ParseNode,
    (line, column): (usize, usize),
) -> ParseNode {
    let right_child = Box::new(right_child);
    ParseNode {
        ntype: NodeType::Assignment(identifier, right_child),
        location: Location(line, column),
    }
}

#[test]
fn test_fn_parse_number() {
    let tokens = Lexer::get_tokens("3.14").unwrap();
    let mut parser = Parser::new(&tokens);
    assert_eq!(
        Some(Ok(number_node(3.14f64, (0, 0)))),
        parser.parse_number(true)
    );

    assert_eq!(parser.position(), 1);
}

#[test]
fn test_fn_parse_number_non_number() {
    let tokens = Lexer::get_tokens("hello").unwrap();
    let mut parser = Parser::new(&tokens);
    assert_eq!(None, parser.parse_number(true));

    assert_eq!(parser.position(), 0);
}

#[test]
fn test_fn_parse_identifier() {
    let tokens = Lexer::get_tokens("hello").unwrap();
    let mut parser = Parser::new(&tokens);
    assert_eq!(
        Some(Ok(identifier_node("hello", (0, 0)))),
        parser.parse_identifier(true)
    );

    assert_eq!(parser.position(), 1);
}

#[test]
fn test_fn_parse_identifier_non_identifier() {
    let tokens = Lexer::get_tokens("3.14").unwrap();
    let mut parser = Parser::new(&tokens);
    assert_eq!(None, parser.parse_identifier(true));

    assert_eq!(parser.position(), 0);
}

#[test]
fn test_fn_parse_factor() {
    let tokens = Lexer::get_tokens("3.14 hello").unwrap();
    let mut parser = Parser::new(&tokens);
    assert_eq!(Ok(number_node(3.14f64, (0, 0))), parser.parse_factor());
    assert_eq!(Ok(identifier_node("hello", (0, 5))), parser.parse_factor());
    assert_eq!(
        Err(ParsingError::UnexpectedEndOfLine(Location(0, 9))),
        parser.parse_factor()
    );
    assert_eq!(parser.position(), 2);
}

#[test]
fn test_fn_parse_factor2() {
    let tokens = Lexer::get_tokens("hello + world").unwrap();
    let mut parser = Parser::new(&tokens);
    assert_eq!(Ok(identifier_node("hello", (0, 0))), parser.parse_factor());
    assert_eq!(
        Err(ParsingError::UnexpectedToken(
            String::from("+"),
            Location(0, 6)
        )),
        parser.parse_factor()
    );
    assert_eq!(parser.position(), 1);
}

#[test]
fn test_fn_expr_in_parens() {
    let tokens = Lexer::get_tokens("(hello)").unwrap();
    let mut parser = Parser::new(&tokens);
    assert_eq!(Ok(identifier_node("hello", (0, 1))), parser.parse_expr());
    assert_eq!(parser.position(), 3);
}

#[test]
fn test_fn_expr_in_double_parens() {
    let tokens = Lexer::get_tokens("((hello) )").unwrap();
    let mut parser = Parser::new(&tokens);
    assert_eq!(Ok(identifier_node("hello", (0, 2))), parser.parse_expr());
    assert_eq!(parser.position(), 5);
}

#[test]
fn test_fn_expr_in_unclosed_paren() {
    let tokens = Lexer::get_tokens("(hello").unwrap();
    let mut parser = Parser::new(&tokens);
    assert_eq!(
        Err(ParsingError::ExpectedCloseParen(
            String::from("EOL"),
            Location(0, 5)
        )),
        parser.parse_expr()
    );
    assert_eq!(parser.position(), 2);
}

#[test]
fn test_fn_expr_in_unclosed_paren2() {
    let tokens = Lexer::get_tokens("(hello j").unwrap();
    let mut parser = Parser::new(&tokens);
    assert_eq!(
        Err(ParsingError::ExpectedCloseParen(
            String::from("j"),
            Location(0, 7)
        )),
        parser.parse_expr()
    );
    assert_eq!(parser.position(), 2);
}

#[test]
fn test_parse_empty_input() {
    let tokens = Lexer::get_tokens("").unwrap();
    let mut parser = Parser::new(&tokens);
    assert_eq!(Ok(ParseNode::empty_root()), parser.parse());
}

#[test]
fn test_parse_number() {
    let tokens = Lexer::get_tokens("3.14").unwrap();
    let mut parser = Parser::new(&tokens);
    assert_eq!(Ok(wrap(number_node(3.14f64, (0, 0)))), parser.parse());
}

#[test]
fn test_parse_identifier() {
    let tokens = Lexer::get_tokens("hello").unwrap();
    let mut parser = Parser::new(&tokens);
    assert_eq!(Ok(wrap(identifier_node("hello", (0, 0)))), parser.parse());
}

#[test]
fn test_parse_expr_in_parens() {
    let tokens = Lexer::get_tokens("(hello)").unwrap();
    let mut parser = Parser::new(&tokens);
    assert_eq!(Ok(wrap(identifier_node("hello", (0, 1)))), parser.parse());
}

#[test]
fn test_parse_expr_in_double_parens() {
    let tokens = Lexer::get_tokens("((3.14))").unwrap();
    let mut parser = Parser::new(&tokens);
    assert_eq!(Ok(wrap(number_node(3.14f64, (0, 2)))), parser.parse());
}

#[test]
fn test_parse_multiplication() {
    let tokens = Lexer::get_tokens("3.14 * hello").unwrap();
    let mut parser = Parser::new(&tokens);
    assert_eq!(
        Ok(wrap(multiplication_node(
            number_node(3.14f64, (0, 0)),
            identifier_node("hello", (0, 7)),
            (0, 5)
        ))),
        parser.parse()
    );
}

#[test]
fn test_parse_division() {
    let tokens = Lexer::get_tokens("3.14 / hello").unwrap();
    let mut parser = Parser::new(&tokens);
    assert_eq!(
        Ok(wrap(division_node(
            number_node(3.14f64, (0, 0)),
            identifier_node("hello", (0, 7)),
            (0, 5)
        ))),
        parser.parse()
    );
}

#[test]
fn test_parse_mutli_div_parens() {
    let tokens = Lexer::get_tokens("3.14 * (hello / world)").unwrap();
    let mut parser = Parser::new(&tokens);
    assert_eq!(
        Ok(wrap(multiplication_node(
            number_node(3.14f64, (0, 0)),
            division_node(
                identifier_node("hello", (0, 8)),
                identifier_node("world", (0, 16)),
                (0, 14)
            ),
            (0, 5)
        ))),
        parser.parse()
    );
}

#[test]
fn test_parse_sum() {
    let tokens = Lexer::get_tokens("3.14 + hello").unwrap();
    let mut parser = Parser::new(&tokens);
    assert_eq!(
        Ok(wrap(sum_node(
            number_node(3.14f64, (0, 0)),
            identifier_node("hello", (0, 7)),
            (0, 5)
        ))),
        parser.parse()
    );
}

#[test]
fn test_parse_substraction() {
    let tokens = Lexer::get_tokens("3.14 - hello").unwrap();
    let mut parser = Parser::new(&tokens);
    assert_eq!(
        Ok(wrap(substraction_node(
            number_node(3.14f64, (0, 0)),
            identifier_node("hello", (0, 7)),
            (0, 5)
        ))),
        parser.parse()
    );
}

#[test]
fn test_parse_sum_multi() {
    let tokens = Lexer::get_tokens("3.14 + hello * world").unwrap();
    let mut parser = Parser::new(&tokens);
    assert_eq!(
        Ok(wrap(sum_node(
            number_node(3.14f64, (0, 0)),
            multiplication_node(
                identifier_node("hello", (0, 7)),
                identifier_node("world", (0, 15)),
                (0, 13)
            ),
            (0, 5)
        ))),
        parser.parse()
    );
}

#[test]
fn test_parse_div_substraction() {
    let tokens = Lexer::get_tokens("3.14 / (hello) - world").unwrap();
    let mut parser = Parser::new(&tokens);
    assert_eq!(
        Ok(wrap(substraction_node(
            division_node(
                number_node(3.14f64, (0, 0)),
                identifier_node("hello", (0, 8)),
                (0, 5)
            ),
            identifier_node("world", (0, 17)),
            (0, 15)
        ))),
        parser.parse()
    );
}

#[test]
fn test_parse_greater_than() {
    let tokens = Lexer::get_tokens("3.14 > hello").unwrap();
    let mut parser = Parser::new(&tokens);
    assert_eq!(
        Ok(wrap(greater_than_node(
            number_node(3.14f64, (0, 0)),
            identifier_node("hello", (0, 7)),
            (0, 5)
        ))),
        parser.parse()
    );
}

#[test]
fn test_parse_greater_than_equal() {
    let tokens = Lexer::get_tokens("3.14 >= hello").unwrap();
    let mut parser = Parser::new(&tokens);
    assert_eq!(
        Ok(wrap(greater_than_equal_node(
            number_node(3.14f64, (0, 0)),
            identifier_node("hello", (0, 8)),
            (0, 5)
        ))),
        parser.parse()
    );
}

#[test]
fn test_parse_less_than() {
    let tokens = Lexer::get_tokens("3.14 < hello").unwrap();
    let mut parser = Parser::new(&tokens);
    assert_eq!(
        Ok(wrap(less_than_node(
            number_node(3.14f64, (0, 0)),
            identifier_node("hello", (0, 7)),
            (0, 5)
        ))),
        parser.parse()
    );
}

#[test]
fn test_parse_less_than_equal() {
    let tokens = Lexer::get_tokens("3.14 <= hello").unwrap();
    let mut parser = Parser::new(&tokens);
    assert_eq!(
        Ok(wrap(less_than_equal_node(
            number_node(3.14f64, (0, 0)),
            identifier_node("hello", (0, 8)),
            (0, 5)
        ))),
        parser.parse()
    );
}

#[test]
fn test_parse_equal() {
    let tokens = Lexer::get_tokens("3.14 == hello").unwrap();
    let mut parser = Parser::new(&tokens);
    assert_eq!(
        Ok(wrap(equal_node(
            number_node(3.14f64, (0, 0)),
            identifier_node("hello", (0, 8)),
            (0, 5)
        ))),
        parser.parse()
    );
}

#[test]
fn test_parse_less_than_sum() {
    let tokens = Lexer::get_tokens("3.14 < hello + world").unwrap();
    let mut parser = Parser::new(&tokens);
    assert_eq!(
        Ok(wrap(less_than_node(
            number_node(3.14f64, (0, 0)),
            sum_node(
                identifier_node("hello", (0, 7)),
                identifier_node("world", (0, 15)),
                (0, 13)
            ),
            (0, 5)
        ))),
        parser.parse()
    );
}

#[test]
fn test_parse_equal_sub_multi() {
    let tokens = Lexer::get_tokens("3.14 - 2 == hello * world").unwrap();
    let mut parser = Parser::new(&tokens);
    assert_eq!(
        Ok(wrap(equal_node(
            substraction_node(
                number_node(3.14f64, (0, 0)),
                number_node(2f64, (0, 7)),
                (0, 5)
            ),
            multiplication_node(
                identifier_node("hello", (0, 12)),
                identifier_node("world", (0, 20)),
                (0, 18)
            ),
            (0, 9)
        ))),
        parser.parse()
    );
}

#[test]
fn test_parse_greater_than_sub() {
    let tokens = Lexer::get_tokens("3.14 >= (hello - world)").unwrap();
    let mut parser = Parser::new(&tokens);
    assert_eq!(
        Ok(wrap(greater_than_equal_node(
            number_node(3.14f64, (0, 0)),
            substraction_node(
                identifier_node("hello", (0, 9)),
                identifier_node("world", (0, 17)),
                (0, 15)
            ),
            (0, 5)
        ))),
        parser.parse()
    );
}

#[test]
fn test_parse_assignment() {
    let tokens = Lexer::get_tokens("pi = 3.14").unwrap();
    let mut parser = Parser::new(&tokens);
    assert_eq!(
        Ok(wrap(assignment_node(
            String::from("pi"),
            number_node(3.14f64, (0, 5)),
            (0, 3)
        ))),
        parser.parse()
    );
}

#[test]
fn test_parse_assignment2() {
    let tokens = Lexer::get_tokens("resp = (hello - world)").unwrap();
    let mut parser = Parser::new(&tokens);
    assert_eq!(
        Ok(wrap(assignment_node(
            String::from("resp"),
            substraction_node(
                identifier_node("hello", (0, 8)),
                identifier_node("world", (0, 16)),
                (0, 14)
            ),
            (0, 5)
        ))),
        parser.parse()
    );
}

#[test]
fn test_parse_trailing_token() {
    let tokens = Lexer::get_tokens("3.14 hello").unwrap();
    let mut parser = Parser::new(&tokens);
    assert_eq!(
        Err(ParsingError::UnexpectedToken(
            String::from("hello"),
            Location(0, 5)
        )),
        parser.parse()
    );
    assert_eq!(parser.position(), 1);
}

#[test]
fn test_parse_invalid_assignment() {
    let tokens = Lexer::get_tokens("hello =").unwrap();
    let mut parser = Parser::new(&tokens);
    assert_eq!(
        Err(ParsingError::UnexpectedEndOfLine(Location(0, 6))),
        parser.parse()
    );
    assert_eq!(parser.position(), 2);
}

#[test]
fn test_number_node_keeps_the_literal() {
    let tokens = Lexer::get_tokens("2.50e+1").unwrap();
    let mut parser = Parser::new(&tokens);
    let node = parser.parse_factor().unwrap();
    assert_eq!(NodeType::Number(String::from("2.50e+1")), node.ntype);
    assert_eq!(Location(0, 0), node.location);
}

#[test]
fn test_new_parser_stands_at_the_start() {
    let tokens = Lexer::get_tokens("a b c").unwrap();
    let parser = Parser::new(&tokens);
    assert_eq!(parser.position(), 0);
}

#[test]
fn test_peek_does_not_advance() {
    let tokens = Lexer::get_tokens("hello 3").unwrap();
    let mut parser = Parser::new(&tokens);
    assert_eq!(
        Some(Ok(identifier_node("hello", (0, 0)))),
        parser.parse_identifier(false)
    );
    assert_eq!(parser.position(), 0);
    assert_eq!(None, parser.parse_number(false));
    assert_eq!(parser.position(), 0);
}

#[test]
fn test_parse_unterminated_parenthesis() {
    let tokens = Lexer::get_tokens("(hello").unwrap();
    let mut parser = Parser::new(&tokens);
    assert_eq!(
        Err(ParsingError::ExpectedCloseParen(
            String::from("EOL"),
            Location(0, 5)
        )),
        parser.parse()
    );
}

#[test]
fn test_parse_lone_operator() {
    let tokens = Lexer::get_tokens("*").unwrap();
    let mut parser = Parser::new(&tokens);
    assert_eq!(
        Err(ParsingError::UnexpectedToken(
            String::from("*"),
            Location(0, 0)
        )),
        parser.parse()
    );
    assert_eq!(parser.position(), 0);
}

#[test]
fn test_parse_missing_right_operand() {
    let tokens = Lexer::get_tokens("1 +\n").unwrap();
    let mut parser = Parser::new(&tokens);
    assert_eq!(
        Err(ParsingError::UnexpectedEndOfLine(Location(0, 2))),
        parser.parse()
    );
    assert_eq!(parser.position(), 2);
}

#[test]
fn test_parse_error_inside_parens() {
    let tokens = Lexer::get_tokens("2 * (3 + )").unwrap();
    let mut parser = Parser::new(&tokens);
    assert_eq!(
        Err(ParsingError::UnexpectedToken(
            String::from(")"),
            Location(0, 9)
        )),
        parser.parse()
    );
    assert_eq!(parser.position(), 5);
}

#[test]
fn test_second_additive_operator_is_left_over() {
    let tokens = Lexer::get_tokens("1 + 2 + 3").unwrap();
    let mut parser = Parser::new(&tokens);
    assert_eq!(
        Err(ParsingError::UnexpectedToken(
            String::from("+"),
            Location(0, 6)
        )),
        parser.parse()
    );
    assert_eq!(parser.position(), 3);
}

#[test]
fn test_second_comparison_is_left_over() {
    let tokens = Lexer::get_tokens("1 < 2 < 3").unwrap();
    let mut parser = Parser::new(&tokens);
    assert_eq!(
        Err(ParsingError::UnexpectedToken(
            String::from("<"),
            Location(0, 6)
        )),
        parser.parse()
    );
}

#[test]
fn test_assignment_inside_parens_is_no_assignment() {
    let tokens = Lexer::get_tokens("(a = 1)").unwrap();
    let mut parser = Parser::new(&tokens);
    assert_eq!(
        Err(ParsingError::ExpectedCloseParen(
            String::from("="),
            Location(0, 3)
        )),
        parser.parse()
    );
}

#[test]
fn test_assignment_of_comparison() {
    let tokens = Lexer::get_tokens("ok = a * 2 >= b").unwrap();
    let mut parser = Parser::new(&tokens);
    assert_eq!(
        Ok(wrap(assignment_node(
            String::from("ok"),
            greater_than_equal_node(
                multiplication_node(
                    identifier_node("a", (0, 5)),
                    number_node(2f64, (0, 9)),
                    (0, 7)
                ),
                identifier_node("b", (0, 14)),
                (0, 11)
            ),
            (0, 3)
        ))),
        parser.parse()
    );
    assert_eq!(parser.position(), 7);
}

#[test]
fn test_root_takes_the_place_of_its_statement() {
    let tokens = Lexer::get_tokens("  1 + 2").unwrap();
    let mut parser = Parser::new(&tokens);
    let root = parser.parse().unwrap();
    assert_eq!(Location(0, 4), root.location);
    assert_eq!(Location(0, 0), ParseNode::empty_root().location);
}

#[test]
fn test_locations_on_later_lines() {
    let tokens = Lexer::get_tokens("a\n  * b").unwrap();
    let mut parser = Parser::new(&tokens);
    assert_eq!(
        Ok(wrap(multiplication_node(
            identifier_node("a", (0, 0)),
            identifier_node("b", (1, 4)),
            (1, 2)
        ))),
        parser.parse()
    );
}
