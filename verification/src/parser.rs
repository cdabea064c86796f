//! The parser: from a sequence of tokens to a syntax tree, by recursive
//! descent with one grammar rule for each level of precedence.
//!
//! ```text
//! expr       := identifier '=' right_expr | right_expr
//! right_expr := comp_term (('>' | '>=' | '<' | '<=' | '==') comp_term)?
//! comp_term  := term (('+' | '-') term)?
//! term       := factor (('*' | '/') factor)?
//! factor     := number | identifier | '(' right_expr ')'
//! ```

use crate::lexer::{token_views, well_formed_tokens, Token, TokenType, TokenView};
use crate::number_fsm::number_literal;
use vstd::prelude::*;

verus! {

/// A line and a column of the source, both counted from 0.
#[derive(Copy, Clone, PartialEq, Eq, Debug, Structural)]
pub struct Location(pub usize, pub usize);

/// The operations that take two operands.
#[derive(Copy, Clone, PartialEq, Eq, Debug, Structural)]
pub enum Operator {
    Sum,
    Substraction,
    Multiplication,
    Division,
    GreaterThan,
    GreaterThanOrEqual,
    LessThan,
    LessThanOrEqual,
    Equal,
}

type Child = Box<ParseNode>;

/// What a node of the syntax tree is, with the nodes below it.
#[derive(PartialEq, Debug)]
pub enum NodeType {
    /// Identifiers and literals; a number is kept as it was written.
    Identifier(String),
    Number(String),
    /// Arithmetic operations
    Sum(Child, Child),
    Substraction(Child, Child),
    Multiplication(Child, Child),
    Division(Child, Child),
    /// Comparison operations
    GreaterThan(Child, Child),
    GreaterThanOrEqual(Child, Child),
    LessThan(Child, Child),
    LessThanOrEqual(Child, Child),
    Equal(Child, Child),
    /// Assignment of the value of the child to a name
    Assignment(String, Child),
    /// The statements of a program, in order
    Root(Vec<ParseNode>),
}

/// A node of the syntax tree with the place in the source that it stands
/// for: a leaf stands for its token, an operation for its operator.
#[derive(PartialEq, Debug)]
pub struct ParseNode {
    pub ntype: NodeType,
    pub location: Location,
}

/// What a [`NodeType`] says, with names and literals as sequences of
/// characters and the nine operations under one variant.
pub enum Shape {
    Identifier(Seq<char>),
    Number(Seq<char>),
    Binary(Operator, Box<Tree>, Box<Tree>),
    Assignment(Seq<char>, Box<Tree>),
    Root(Seq<Tree>),
}

/// What a [`ParseNode`] says.
pub struct Tree {
    pub shape: Shape,
    pub location: Location,
}

impl Tree {
    /// Every number in the tree is a number literal.
    pub open spec fn well_formed(self) -> bool
        decreases self,
    {
        match self.shape {
            Shape::Identifier(_) => true,
            Shape::Number(literal) => number_literal(literal),
            Shape::Binary(_, left, right) => left.well_formed() && right.well_formed(),
            Shape::Assignment(_, right) => right.well_formed(),
            Shape::Root(statements) => forall|i: int|
                0 <= i < statements.len() ==> (#[trigger] statements[i]).well_formed(),
        }
    }
}

impl ParseNode {
    /// The tree that this node and the nodes below it stand for.
    pub open spec fn tree(&self) -> Tree
        decreases self,
    {
        Tree {
            shape: match self.ntype {
                NodeType::Identifier(name) => Shape::Identifier(name@),
                NodeType::Number(literal) => Shape::Number(literal@),
                NodeType::Sum(left, right) => Shape::Binary(
                    Operator::Sum,
                    Box::new(left.tree()),
                    Box::new(right.tree()),
                ),
                NodeType::Substraction(left, right) => Shape::Binary(
                    Operator::Substraction,
                    Box::new(left.tree()),
                    Box::new(right.tree()),
                ),
                NodeType::Multiplication(left, right) => Shape::Binary(
                    Operator::Multiplication,
                    Box::new(left.tree()),
                    Box::new(right.tree()),
                ),
                NodeType::Division(left, right) => Shape::Binary(
                    Operator::Division,
                    Box::new(left.tree()),
                    Box::new(right.tree()),
                ),
                NodeType::GreaterThan(left, right) => Shape::Binary(
                    Operator::GreaterThan,
                    Box::new(left.tree()),
                    Box::new(right.tree()),
                ),
                NodeType::GreaterThanOrEqual(left, right) => Shape::Binary(
                    Operator::GreaterThanOrEqual,
                    Box::new(left.tree()),
                    Box::new(right.tree()),
                ),
                NodeType::LessThan(left, right) => Shape::Binary(
                    Operator::LessThan,
                    Box::new(left.tree()),
                    Box::new(right.tree()),
                ),
                NodeType::LessThanOrEqual(left, right) => Shape::Binary(
                    Operator::LessThanOrEqual,
                    Box::new(left.tree()),
                    Box::new(right.tree()),
                ),
                NodeType::Equal(left, right) => Shape::Binary(
                    Operator::Equal,
                    Box::new(left.tree()),
                    Box::new(right.tree()),
                ),
                NodeType::Assignment(name, right) => Shape::Assignment(
                    name@,
                    Box::new(right.tree()),
                ),
                NodeType::Root(nodes) => Shape::Root(
                    Seq::new(
                        nodes@.len(),
                        |i: int|
                            if 0 <= i < nodes@.len() {
                                nodes@[i].tree()
                            } else {
                                arbitrary()
                            },
                    ),
                ),
            },
            location: self.location,
        }
    }
}

impl View for ParseNode {
    type V = Tree;

    open spec fn view(&self) -> Tree {
        self.tree()
    }
}

/// Why a sequence of tokens has no syntax tree.
#[derive(Debug, PartialEq)]
pub enum ParsingError {
    DummyError,
    /// A token where the grammar allows none, with its lexeme and its place.
    UnexpectedToken(String, Location),
    /// The tokens ended where the grammar asks for more; the place is that
    /// of the last character of the last token.
    UnexpectedEndOfLine(Location),
    /// What stands where a closing parenthesis was due: the lexeme of the
    /// token found there with its place, or `EOL` with the place of the last
    /// character of the last token.
    ExpectedCloseParen(String, Location),
}

/// What a [`ParsingError`] says, with the lexeme as a sequence of characters.
pub enum ParsingErrorView {
    DummyError,
    UnexpectedToken(Seq<char>, Location),
    UnexpectedEndOfLine(Location),
    ExpectedCloseParen(Seq<char>, Location),
}

impl View for ParsingError {
    type V = ParsingErrorView;

    open spec fn view(&self) -> ParsingErrorView {
        match self {
            ParsingError::DummyError => ParsingErrorView::DummyError,
            ParsingError::UnexpectedToken(lexeme, location) => ParsingErrorView::UnexpectedToken(
                lexeme@,
                *location,
            ),
            ParsingError::UnexpectedEndOfLine(location) => ParsingErrorView::UnexpectedEndOfLine(
                *location,
            ),
            ParsingError::ExpectedCloseParen(found, location) => {
                ParsingErrorView::ExpectedCloseParen(found@, *location)
            },
        }
    }
}

type ParseResult = Result<ParseNode, ParsingError>;

type OptParseResult = Option<ParseResult>;

/// What a result of the parser says.
pub open spec fn result_view(result: ParseResult) -> Result<Tree, ParsingErrorView> {
    match result {
        Ok(node) => Ok(node@),
        Err(error) => Err(error@),
    }
}

/// What one grammar rule made of the tokens in front of it: the tree or the
/// error, and the number of tokens that it consumed on the way.
pub struct Parsed {
    pub outcome: Result<Tree, ParsingErrorView>,
    pub consumed: nat,
}

/// The place of the first character of `token`.
pub open spec fn start_of(token: TokenView) -> Location {
    Location(token.line, token.column)
}

/// The place of the last character of `token`.
pub open spec fn end_of(token: TokenView) -> Location {
    Location(token.line, (token.column + token.value.len() - 1) as usize)
}

/// The error for the token at `at`, which the grammar does not allow there,
/// or for the end of the tokens.
pub open spec fn unexpected(tokens: Seq<TokenView>, at: int) -> ParsingErrorView {
    if 0 <= at < tokens.len() {
        ParsingErrorView::UnexpectedToken(tokens[at].value, start_of(tokens[at]))
    } else {
        ParsingErrorView::UnexpectedEndOfLine(end_of(tokens[at - 1]))
    }
}

/// The error for what stands at `at` in place of a closing parenthesis.
pub open spec fn unclosed(tokens: Seq<TokenView>, at: int) -> ParsingErrorView {
    if 0 <= at < tokens.len() {
        ParsingErrorView::ExpectedCloseParen(tokens[at].value, start_of(tokens[at]))
    } else {
        ParsingErrorView::ExpectedCloseParen(seq!['E', 'O', 'L'], end_of(tokens[at - 1]))
    }
}

/// The operation that a token of type `ttype` stands for, if it is an operator.
pub open spec fn operator_of(ttype: TokenType) -> Option<Operator> {
    match ttype {
        TokenType::Plus => Some(Operator::Sum),
        TokenType::Minus => Some(Operator::Substraction),
        TokenType::Times => Some(Operator::Multiplication),
        TokenType::Div => Some(Operator::Division),
        TokenType::GreaterThan => Some(Operator::GreaterThan),
        TokenType::GreaterThanOrEqual => Some(Operator::GreaterThanOrEqual),
        TokenType::LessThan => Some(Operator::LessThan),
        TokenType::LessThanOrEqual => Some(Operator::LessThanOrEqual),
        TokenType::Equal => Some(Operator::Equal),
        _ => None,
    }
}

/// `ttype` is the type of `*` or of `/`.
pub open spec fn multiplicative(ttype: TokenType) -> bool {
    ttype == TokenType::Times || ttype == TokenType::Div
}

/// `ttype` is the type of `+` or of `-`.
pub open spec fn additive(ttype: TokenType) -> bool {
    ttype == TokenType::Plus || ttype == TokenType::Minus
}

/// `ttype` is the type of a comparison operator.
pub open spec fn relational(ttype: TokenType) -> bool {
    ttype == TokenType::GreaterThan || ttype == TokenType::GreaterThanOrEqual || ttype
        == TokenType::LessThan || ttype == TokenType::LessThanOrEqual || ttype == TokenType::Equal
}

/// The leaf for a token of type `Number` or `Identifier`.
pub open spec fn leaf(token: TokenView) -> Tree {
    Tree {
        shape: if token.ttype == TokenType::Number {
            Shape::Number(token.value)
        } else {
            Shape::Identifier(token.value)
        },
        location: start_of(token),
    }
}

/// The operation of `operator` on two operands, placed at the operator.
pub open spec fn operation(operator: TokenView, left: Tree, right: Tree) -> Tree {
    Tree {
        shape: Shape::Binary(
            operator_of(operator.ttype).unwrap(),
            Box::new(left),
            Box::new(right),
        ),
        location: start_of(operator),
    }
}

/// `left operator right`, where `left` has been parsed and `right` is what
/// the rule for the right operand made of the tokens behind the operator.
pub open spec fn joined(operator: TokenView, left: Parsed, right: Parsed) -> Parsed {
    Parsed {
        outcome: match right.outcome {
            Ok(operand) => Ok(operation(operator, left.outcome->Ok_0, operand)),
            Err(error) => Err(error),
        },
        consumed: left.consumed + 1 + right.consumed,
    }
}

/// `factor := number | identifier | '(' right_expr ')'`
pub open spec fn factor(tokens: Seq<TokenView>, at: int) -> Parsed
    decreases tokens.len() - at, 0nat,
{
    if 0 <= at < tokens.len() && (tokens[at].ttype == TokenType::Number || tokens[at].ttype
        == TokenType::Identifier) {
        Parsed { outcome: Ok(leaf(tokens[at])), consumed: 1 }
    } else if 0 <= at < tokens.len() && tokens[at].ttype == TokenType::LeftParenthesis {
        let inner = right_expr(tokens, at + 1);
        let close = at + 1 + inner.consumed;
        if inner.outcome is Err {
            Parsed { outcome: inner.outcome, consumed: 1 + inner.consumed }
        } else if close < tokens.len() && tokens[close].ttype == TokenType::RightParenthesis {
            Parsed { outcome: inner.outcome, consumed: 2 + inner.consumed }
        } else {
            Parsed { outcome: Err(unclosed(tokens, close)), consumed: 1 + inner.consumed }
        }
    } else {
        Parsed { outcome: Err(unexpected(tokens, at)), consumed: 0 }
    }
}

/// `term := factor (('*' | '/') factor)?`
pub open spec fn term(tokens: Seq<TokenView>, at: int) -> Parsed
    decreases tokens.len() - at, 1nat,
{
    let left = factor(tokens, at);
    let next = at + left.consumed;
    if left.outcome is Ok && 0 <= next < tokens.len() && multiplicative(tokens[next].ttype) {
        joined(tokens[next], left, factor(tokens, next + 1))
    } else {
        left
    }
}

/// `comp_term := term (('+' | '-') term)?`
pub open spec fn comp_term(tokens: Seq<TokenView>, at: int) -> Parsed
    decreases tokens.len() - at, 2nat,
{
    let left = term(tokens, at);
    let next = at + left.consumed;
    if left.outcome is Ok && 0 <= next < tokens.len() && additive(tokens[next].ttype) {
        joined(tokens[next], left, term(tokens, next + 1))
    } else {
        left
    }
}

/// `right_expr := comp_term (('>' | '>=' | '<' | '<=' | '==') comp_term)?`
pub open spec fn right_expr(tokens: Seq<TokenView>, at: int) -> Parsed
    decreases tokens.len() - at, 3nat,
{
    let left = comp_term(tokens, at);
    let next = at + left.consumed;
    if left.outcome is Ok && 0 <= next < tokens.len() && relational(tokens[next].ttype) {
        joined(tokens[next], left, comp_term(tokens, next + 1))
    } else {
        left
    }
}

/// There is an identifier at `at` and an assignment operator right behind it.
pub open spec fn assigns(tokens: Seq<TokenView>, at: int) -> bool {
    &&& 0 <= at
    &&& at + 1 < tokens.len()
    &&& tokens[at].ttype == TokenType::Identifier
    &&& tokens[at + 1].ttype == TokenType::Assign
}

/// `expr := identifier '=' right_expr | right_expr`
pub open spec fn expr(tokens: Seq<TokenView>, at: int) -> Parsed {
    if assigns(tokens, at) {
        let right = right_expr(tokens, at + 2);
        Parsed {
            outcome: match right.outcome {
                Ok(value) => Ok(
                    Tree {
                        shape: Shape::Assignment(tokens[at].value, Box::new(value)),
                        location: start_of(tokens[at + 1]),
                    },
                ),
                Err(error) => Err(error),
            },
            consumed: 2 + right.consumed,
        }
    } else {
        right_expr(tokens, at)
    }
}

/// The root without statements, which stands for an empty program.
pub open spec fn empty_tree() -> Tree {
    Tree { shape: Shape::Root(Seq::empty()), location: Location(0, 0) }
}

/// The root whose one statement is `statement`, placed where it is.
pub open spec fn rooted(statement: Tree) -> Tree {
    Tree { shape: Shape::Root(seq![statement]), location: statement.location }
}

/// The program that the tokens from `at` on spell: nothing where there are
/// no tokens at all, else one expression with no token left behind it.
pub open spec fn program(tokens: Seq<TokenView>, at: int) -> Parsed {
    if tokens.len() == 0 {
        Parsed { outcome: Ok(empty_tree()), consumed: 0 }
    } else {
        let whole = expr(tokens, at);
        match whole.outcome {
            Ok(statement) => if at + whole.consumed >= tokens.len() {
                Parsed { outcome: Ok(rooted(statement)), consumed: whole.consumed }
            } else {
                Parsed {
                    outcome: Err(unexpected(tokens, at + whole.consumed)),
                    consumed: whole.consumed,
                }
            },
            Err(error) => whole,
        }
    }
}

/// The syntax tree of a whole sequence of tokens, or the first syntax error.
pub open spec fn parse_tokens(tokens: Seq<TokenView>) -> Result<Tree, ParsingErrorView> {
    program(tokens, 0).outcome
}

/// What a grammar rule makes of well-formed tokens is a well-formed tree.
pub open spec fn keeps_well_formed(parsed: Parsed) -> bool {
    parsed.outcome matches Ok(tree) ==> tree.well_formed()
}

proof fn lemma_factor_well_formed(tokens: Seq<TokenView>, at: int)
    requires
        well_formed_tokens(tokens),
    ensures
        keeps_well_formed(factor(tokens, at)),
    decreases tokens.len() - at, 0nat,
{
    if 0 <= at < tokens.len() && tokens[at].ttype == TokenType::LeftParenthesis {
        lemma_right_expr_well_formed(tokens, at + 1);
    }
}

proof fn lemma_term_well_formed(tokens: Seq<TokenView>, at: int)
    requires
        well_formed_tokens(tokens),
    ensures
        keeps_well_formed(term(tokens, at)),
    decreases tokens.len() - at, 1nat,
{
    lemma_factor_well_formed(tokens, at);
    let next = at + factor(tokens, at).consumed;
    if 0 <= next < tokens.len() {
        lemma_factor_well_formed(tokens, next + 1);
    }
}

proof fn lemma_comp_term_well_formed(tokens: Seq<TokenView>, at: int)
    requires
        well_formed_tokens(tokens),
    ensures
        keeps_well_formed(comp_term(tokens, at)),
    decreases tokens.len() - at, 2nat,
{
    lemma_term_well_formed(tokens, at);
    let next = at + term(tokens, at).consumed;
    if 0 <= next < tokens.len() {
        lemma_term_well_formed(tokens, next + 1);
    }
}

proof fn lemma_right_expr_well_formed(tokens: Seq<TokenView>, at: int)
    requires
        well_formed_tokens(tokens),
    ensures
        keeps_well_formed(right_expr(tokens, at)),
    decreases tokens.len() - at, 3nat,
{
    lemma_comp_term_well_formed(tokens, at);
    let next = at + comp_term(tokens, at).consumed;
    if 0 <= next < tokens.len() {
        lemma_comp_term_well_formed(tokens, next + 1);
    }
}

/// Every tree that the grammar makes of well-formed tokens is well formed:
/// its numbers are number literals.
pub proof fn lemma_parsed_well_formed(tokens: Seq<TokenView>, at: int)
    requires
        well_formed_tokens(tokens),
    ensures
        keeps_well_formed(factor(tokens, at)),
        keeps_well_formed(term(tokens, at)),
        keeps_well_formed(comp_term(tokens, at)),
        keeps_well_formed(right_expr(tokens, at)),
        keeps_well_formed(expr(tokens, at)),
        keeps_well_formed(program(tokens, at)),
{
    lemma_factor_well_formed(tokens, at);
    lemma_term_well_formed(tokens, at);
    lemma_comp_term_well_formed(tokens, at);
    lemma_right_expr_well_formed(tokens, at);
    lemma_right_expr_well_formed(tokens, at + 2);
    if let Ok(statement) = expr(tokens, at).outcome {
        let statements = rooted(statement).shape->Root_0;
        assert forall|i: int| 0 <= i < statements.len() implies (
        #[trigger] statements[i]).well_formed() by {}
    }
}

impl ParseNode {
    /// The root of an empty program, placed at line 0 and column 0.
    pub fn empty_root() -> (root: Self)
        ensures
            root@ == empty_tree(),
    {
        let root = ParseNode { ntype: NodeType::Root(Vec::new()), location: Location(0, 0) };
        assert(root@.shape->Root_0 =~= Seq::empty());
        root
    }

    /// The root of the program whose one statement is `node`, placed where
    /// `node` is.
    pub fn wrap_in_root(node: Self) -> (root: Self)
        ensures
            root@ == rooted(node@),
    {
        let location = node.location;
        let ghost statement = node@;
        let mut nodes: Vec<ParseNode> = Vec::new();
        nodes.push(node);
        let root = ParseNode { ntype: NodeType::Root(nodes), location };
        assert(root@.shape->Root_0 =~= seq![statement]);
        root
    }
}

/// A parser over one sequence of tokens, with a cursor that stands on the
/// next token to read.
pub struct Parser<'a> {
    input: &'a Vec<Token<'a>>,
    position: usize,
}

impl<'a> Parser<'a> {
    #[verifier::type_invariant]
    spec fn consistent(&self) -> bool {
        &&& self.position <= self.input.len()
        &&& well_formed_tokens(token_views(self.input@))
    }

    /// The tokens that this parser reads.
    pub closed spec fn tokens(&self) -> Seq<TokenView> {
        token_views(self.input@)
    }

    /// The number of tokens in front of the cursor.
    pub closed spec fn cursor(&self) -> int {
        self.position as int
    }

    /// `result` and the parser `after` are what a grammar rule that made
    /// `parsed` of the tokens under this parser's cursor leaves behind.
    pub open spec fn advances(&self, parsed: Parsed, result: ParseResult, after: &Self) -> bool {
        &&& after.tokens() == self.tokens()
        &&& after.cursor() == self.cursor() + parsed.consumed
        &&& result_view(result) == parsed.outcome
    }

    /// A parser at the start of `input`. The tokens must end at columns that
    /// are in range, as those of the lexer do.
    pub fn new(input: &'a Vec<Token<'a>>) -> (parser: Self)
        requires
            well_formed_tokens(token_views(input@)),
        ensures
            parser.tokens() == token_views(input@),
            parser.cursor() == 0,
    {
        Parser { input, position: 0 }
    }

    /// The number of tokens consumed so far.
    pub fn position(&self) -> (position: usize)
        ensures
            position == self.cursor(),
    {
        self.position
    }

    /// Parses the tokens from the cursor on as a whole program.
    pub fn parse(&mut self) -> (result: ParseResult)
        ensures
            old(self).advances(
                program(old(self).tokens(), old(self).cursor()),
                result,
                final(self),
            ),
            result matches Ok(node) ==> node@.well_formed(),
    {
        proof {
            use_type_invariant(&*self);
            lemma_parsed_well_formed(self.tokens(), self.cursor());
        }
        if self.input.len() == 0 {
            return Ok(ParseNode::empty_root());
        }
        match self.parse_expr() {
            Ok(node) => {
                if self.current().is_none() {
                    Ok(ParseNode::wrap_in_root(node))
                } else {
                    Err(self.create_unexpected_error())
                }
            },
            Err(error) => Err(error),
        }
    }

    fn look_ahead(&self, count: usize) -> (token: Option<&'a Token<'a>>)
        ensures
            match token {
                Some(found) => self.position + count < self.input.len() && *found
                    == self.input[self.position + count],
                None => self.position + count >= self.input.len(),
            },
    {
        proof {
            use_type_invariant(self);
        }
        let input = self.input;
        if count < input.len() - self.position {
            Some(&input[self.position + count])
        } else {
            None
        }
    }

    fn current(&self) -> (token: Option<&'a Token<'a>>)
        ensures
            match token {
                Some(found) => self.position < self.input.len() && *found
                    == self.input[self.position as int],
                None => self.position >= self.input.len(),
            },
    {
        self.look_ahead(0)
    }

    fn last_token(&self) -> (token: &'a Token<'a>)
        requires
            self.position >= 1,
        ensures
            *token == self.input[self.position - 1],
    {
        proof {
            use_type_invariant(self);
        }
        let input = self.input;
        &input[self.position - 1]
    }

    fn move_forward(&mut self, count: usize)
        requires
            old(self).position + count <= old(self).input.len(),
        ensures
            final(self).input == old(self).input,
            final(self).position == old(self).position + count,
    {
        proof {
            use_type_invariant(&*self);
        }
        self.position += count;
    }

    fn advance(&mut self)
        requires
            old(self).position < old(self).input.len(),
        ensures
            final(self).input == old(self).input,
            final(self).position == old(self).position + 1,
    {
        self.move_forward(1);
    }

    /// The token under the cursor if it is of type `token_type`; the cursor
    /// then moves behind it if `advance` is set.
    fn check_current(&mut self, token_type: TokenType, advance: bool) -> (token: Option<
        &'a Token<'a>,
    >)
        ensures
            final(self).input == old(self).input,
            match token {
                Some(found) => {
                    &&& old(self).position < old(self).input.len()
                    &&& *found == old(self).input[old(self).position as int]
                    &&& found.ttype == token_type
                    &&& final(self).position == old(self).position + if advance {
                        1int
                    } else {
                        0int
                    }
                },
                None => {
                    &&& final(self).position == old(self).position
                    &&& old(self).position < old(self).input.len() ==> old(self).input[old(
                        self,
                    ).position as int].ttype != token_type
                },
            },
    {
        match self.current() {
            Some(token) => {
                if token.ttype == token_type {
                    if advance {
                        self.advance();
                    }
                    Some(token)
                } else {
                    None
                }
            },
            None => None,
        }
    }

    fn check_ahead(&self, token_type: TokenType, count: usize) -> (token: Option<&'a Token<'a>>)
        ensures
            match token {
                Some(found) => {
                    &&& self.position + count < self.input.len()
                    &&& *found == self.input[self.position + count]
                    &&& found.ttype == token_type
                },
                None => self.position + count < self.input.len() ==> self.input[self.position
                    + count].ttype != token_type,
            },
    {
        match self.look_ahead(count) {
            Some(token) => {
                if token.ttype == token_type {
                    Some(token)
                } else {
                    None
                }
            },
            None => None,
        }
    }

    /// The leaf for a token of type `Number` or `Identifier`.
    fn token_to_node(token: &Token<'_>) -> (node: ParseNode)
        requires
            token.ttype == TokenType::Number || token.ttype == TokenType::Identifier,
        ensures
            node@ == leaf(token@),
    {
        let ntype = match token.ttype {
            TokenType::Identifier => NodeType::Identifier(token.value.to_owned()),
            _ => NodeType::Number(token.value.to_owned()),
        };
        ParseNode { ntype, location: Location(token.line, token.column) }
    }

    /// The node for the operation of `token` on two operands.
    fn token_to_bin_op_node(
        token: &Token<'_>,
        left_child: ParseNode,
        right_child: ParseNode,
    ) -> (node: ParseNode)
        requires
            operator_of(token.ttype) is Some,
        ensures
            node@ == operation(token@, left_child@, right_child@),
    {
        let left_child = Box::new(left_child);
        let right_child = Box::new(right_child);
        let ntype = match token.ttype {
            TokenType::Plus => NodeType::Sum(left_child, right_child),
            TokenType::Minus => NodeType::Substraction(left_child, right_child),
            TokenType::Times => NodeType::Multiplication(left_child, right_child),
            TokenType::Div => NodeType::Division(left_child, right_child),
            TokenType::GreaterThan => NodeType::GreaterThan(left_child, right_child),
            TokenType::GreaterThanOrEqual => NodeType::GreaterThanOrEqual(left_child, right_child),
            TokenType::LessThan => NodeType::LessThan(left_child, right_child),
            TokenType::LessThanOrEqual => NodeType::LessThanOrEqual(left_child, right_child),
            _ => NodeType::Equal(left_child, right_child),
        };
        ParseNode { ntype, location: Location(token.line, token.column) }
    }

    /// The node that assigns the value of `right_child` to the name in
    /// `left_child`, placed at the assignment operator `token`.
    fn token_to_assignment_node(
        token: &Token<'_>,
        left_child: ParseNode,
        right_child: ParseNode,
    ) -> (node: ParseNode)
        requires
            token.ttype == TokenType::Assign,
            left_child.ntype is Identifier,
        ensures
            node@ == (Tree {
                shape: Shape::Assignment(
                    left_child.ntype->Identifier_0@,
                    Box::new(right_child@),
                ),
                location: start_of(token@),
            }),
    {
        let right_child = Box::new(right_child);
        let ntype = match left_child.ntype {
            NodeType::Identifier(value) => NodeType::Assignment(value, right_child),
            _ => NodeType::Root(Vec::new()),
        };
        ParseNode { ntype, location: Location(token.line, token.column) }
    }

    /// The leaf for the token under the cursor if that is a number.
    pub fn parse_number(&mut self, advance: bool) -> (result: OptParseResult)
        ensures
            old(self).takes_leaf(TokenType::Number, advance, result, final(self)),
            result matches Some(Ok(node)) ==> node@.well_formed(),
    {
        proof {
            use_type_invariant(&*self);
        }
        match self.check_current(TokenType::Number, advance) {
            Some(token) => {
                Some(Ok(Self::token_to_node(token)))
            },
            None => None,
        }
    }

    /// The leaf for the token under the cursor if that is an identifier.
    pub fn parse_identifier(&mut self, advance: bool) -> (result: OptParseResult)
        ensures
            old(self).takes_leaf(TokenType::Identifier, advance, result, final(self)),
            result matches Some(Ok(node)) ==> node@.well_formed(),
    {
        proof {
            use_type_invariant(&*self);
        }
        match self.check_current(TokenType::Identifier, advance) {
            Some(token) => {
                Some(Ok(Self::token_to_node(token)))
            },
            None => None,
        }
    }

    /// `result` and the parser `after` are what looking for a leaf of type
    /// `ttype` under this parser's cursor leaves behind: the leaf where the
    /// token there has that type, with the cursor behind it if `advance` is
    /// set, and nothing otherwise.
    pub open spec fn takes_leaf(
        &self,
        ttype: TokenType,
        advance: bool,
        result: OptParseResult,
        after: &Self,
    ) -> bool {
        let tokens = self.tokens();
        let at = self.cursor();
        &&& after.tokens() == tokens
        &&& if 0 <= at < tokens.len() && tokens[at].ttype == ttype {
            &&& result matches Some(Ok(node)) && node@ == leaf(tokens[at])
            &&& after.cursor() == at + if advance {
                1int
            } else {
                0int
            }
        } else {
            result is None && after.cursor() == at
        }
    }

    fn check_open_paren(&mut self, advance: bool) -> (token: Option<&'a Token<'a>>)
        ensures
            final(self).input == old(self).input,
            match token {
                Some(found) => {
                    &&& old(self).position < old(self).input.len()
                    &&& old(self).input[old(self).position as int].ttype
                        == TokenType::LeftParenthesis
                    &&& final(self).position == old(self).position + if advance {
                        1int
                    } else {
                        0int
                    }
                },
                None => {
                    &&& final(self).position == old(self).position
                    &&& old(self).position < old(self).input.len() ==> old(self).input[old(
                        self,
                    ).position as int].ttype != TokenType::LeftParenthesis
                },
            },
    {
        self.check_current(TokenType::LeftParenthesis, advance)
    }

    /// Hands `node` on if a closing parenthesis stands under the cursor, and
    /// moves behind it.
    fn expect_close_paren(&mut self, node: ParseNode) -> (result: ParseResult)
        requires
            old(self).tokens().len() > 0,
        ensures
            final(self).input == old(self).input,
            ({
                let tokens = old(self).tokens();
                let at = old(self).cursor();
                if at < tokens.len() && tokens[at].ttype == TokenType::RightParenthesis {
                    result == Ok::<_, ParsingError>(node) && final(self).position == at + 1
                } else {
                    &&& result matches Err(error) && error@ == unclosed(tokens, at)
                    &&& final(self).position == at
                }
            }),
    {
        match self.check_current(TokenType::RightParenthesis, true) {
            Some(_) => Ok(node),
            None => Err(self.create_close_paren_error()),
        }
    }

    /// The expression between the parentheses if an opening parenthesis
    /// stands under the cursor.
    fn parse_expr_in_parens(&mut self, advance: bool) -> (result: OptParseResult)
        requires
            old(self).tokens().len() > 0,
            advance,
        ensures
            final(self).tokens() == old(self).tokens(),
            ({
                let tokens = old(self).tokens();
                let at = old(self).cursor();
                if at < tokens.len() && tokens[at].ttype == TokenType::LeftParenthesis {
                    &&& result matches Some(inner) && result_view(inner) == factor(
                        tokens,
                        at,
                    ).outcome
                    &&& final(self).position == at + factor(tokens, at).consumed
                } else {
                    result is None && final(self).position == at
                }
            }),
        decreases old(self).tokens().len() - old(self).cursor(), 0nat, 0nat,
    {
        match self.check_open_paren(advance) {
            Some(_) => {
                match self.parse_right_expr() {
                    Ok(node) => Some(self.expect_close_paren(node)),
                    Err(error) => Some(Err(error)),
                }
            },
            None => None,
        }
    }

    /// The token under the cursor if its type is among `token_types`; the
    /// cursor then moves behind it if `advance` is set.
    fn check_current_in_list(&mut self, token_types: &[TokenType], advance: bool) -> (token: Option<
        &'a Token<'a>,
    >)
        ensures
            final(self).input == old(self).input,
            match token {
                Some(found) => {
                    &&& old(self).position < old(self).input.len()
                    &&& *found == old(self).input[old(self).position as int]
                    &&& token_types@.contains(found.ttype)
                    &&& final(self).position == old(self).position + if advance {
                        1int
                    } else {
                        0int
                    }
                },
                None => {
                    &&& final(self).position == old(self).position
                    &&& old(self).position < old(self).input.len() ==> !token_types@.contains(
                        old(self).input[old(self).position as int].ttype,
                    )
                },
            },
    {
        let mut i: usize = 0;
        while i < token_types.len()
            invariant
                *self == *old(self),
                i <= token_types.len(),
                self.position < self.input.len() ==> forall|k: int|
                    0 <= k < i ==> token_types[k] != self.input[self.position as int].ttype,
            decreases token_types.len() - i,
        {
            match self.check_current(token_types[i], advance) {
                Some(token) => {
                    return Some(token);
                },
                None => {},
            }
            i += 1;
        }
        None
    }

    fn check_assignment_op(&self) -> (token: Option<&'a Token<'a>>)
        ensures
            match token {
                Some(found) => {
                    &&& self.position + 1 < self.input.len()
                    &&& *found == self.input[self.position + 1]
                    &&& found.ttype == TokenType::Assign
                },
                None => self.position + 1 < self.input.len() ==> self.input[self.position
                    + 1].ttype != TokenType::Assign,
            },
    {
        self.check_ahead(TokenType::Assign, 1)
    }

    /// `factor := number | identifier | '(' right_expr ')'`
    pub fn parse_factor(&mut self) -> (result: ParseResult)
        requires
            old(self).tokens().len() > 0,
        ensures
            old(self).advances(factor(old(self).tokens(), old(self).cursor()), result, final(self)),
            result matches Ok(node) ==> node@.well_formed(),
        decreases old(self).tokens().len() - old(self).cursor(), 0nat, 1nat,
    {
        proof {
            use_type_invariant(&*self);
            lemma_parsed_well_formed(self.tokens(), self.cursor());
        }
        if let Some(number) = self.parse_number(true) {
            return number;
        }
        if let Some(identifier) = self.parse_identifier(true) {
            return identifier;
        }
        if let Some(inner) = self.parse_expr_in_parens(true) {
            return inner;
        }
        Err(self.create_unexpected_error())
    }

    /// `term := factor (('*' | '/') factor)?`
    fn parse_term(&mut self) -> (result: ParseResult)
        requires
            old(self).tokens().len() > 0,
        ensures
            old(self).advances(term(old(self).tokens(), old(self).cursor()), result, final(self)),
        decreases old(self).tokens().len() - old(self).cursor(), 1nat, 0nat,
    {
        let node = match self.parse_factor() {
            Ok(node) => node,
            Err(error) => {
                return Err(error);
            },
        };
        match self.check_current_in_list(&[TokenType::Times, TokenType::Div], true) {
            Some(token) => match self.parse_factor() {
                Ok(right_child) => Ok(Self::token_to_bin_op_node(token, node, right_child)),
                Err(error) => Err(error),
            },
            None => Ok(node),
        }
    }

    /// `comp_term := term (('+' | '-') term)?`
    fn parse_comp_term(&mut self) -> (result: ParseResult)
        requires
            old(self).tokens().len() > 0,
        ensures
            old(self).advances(
                comp_term(old(self).tokens(), old(self).cursor()),
                result,
                final(self),
            ),
        decreases old(self).tokens().len() - old(self).cursor(), 2nat, 0nat,
    {
        let node = match self.parse_term() {
            Ok(node) => node,
            Err(error) => {
                return Err(error);
            },
        };
        match self.check_current_in_list(&[TokenType::Plus, TokenType::Minus], true) {
            Some(token) => match self.parse_term() {
                Ok(right_child) => Ok(Self::token_to_bin_op_node(token, node, right_child)),
                Err(error) => Err(error),
            },
            None => Ok(node),
        }
    }

    /// `right_expr := comp_term (('>' | '>=' | '<' | '<=' | '==') comp_term)?`
    fn parse_right_expr(&mut self) -> (result: ParseResult)
        requires
            old(self).tokens().len() > 0,
        ensures
            old(self).advances(
                right_expr(old(self).tokens(), old(self).cursor()),
                result,
                final(self),
            ),
        decreases old(self).tokens().len() - old(self).cursor(), 3nat, 0nat,
    {
        let node = match self.parse_comp_term() {
            Ok(node) => node,
            Err(error) => {
                return Err(error);
            },
        };
        match self.check_current_in_list(
            &[
                TokenType::GreaterThan,
                TokenType::GreaterThanOrEqual,
                TokenType::LessThan,
                TokenType::LessThanOrEqual,
                TokenType::Equal,
            ],
            true,
        ) {
            Some(token) => match self.parse_comp_term() {
                Ok(right_child) => Ok(Self::token_to_bin_op_node(token, node, right_child)),
                Err(error) => Err(error),
            },
            None => Ok(node),
        }
    }

    /// `expr := identifier '=' right_expr | right_expr`
    pub fn parse_expr(&mut self) -> (result: ParseResult)
        requires
            old(self).tokens().len() > 0,
        ensures
            old(self).advances(expr(old(self).tokens(), old(self).cursor()), result, final(self)),
            result matches Ok(node) ==> node@.well_formed(),
    {
        proof {
            use_type_invariant(&*self);
            lemma_parsed_well_formed(self.tokens(), self.cursor());
        }
        if let Some(Ok(id_node)) = self.parse_identifier(false) {
            if let Some(assign_token) = self.check_assignment_op() {
                self.move_forward(2);
                return match self.parse_right_expr() {
                    Ok(right_expr) => Ok(
                        Self::token_to_assignment_node(assign_token, id_node, right_expr),
                    ),
                    Err(error) => Err(error),
                };
            }
        }
        self.parse_right_expr()
    }

    /// The error for the token under the cursor, or for the end of the
    /// tokens where the cursor stands behind the last of them.
    fn create_unexpected_error(&self) -> (error: ParsingError)
        requires
            self.tokens().len() > 0,
        ensures
            error@ == unexpected(self.tokens(), self.cursor()),
    {
        proof {
            use_type_invariant(self);
        }
        match self.current() {
            Some(token) => ParsingError::UnexpectedToken(
                token.value.to_owned(),
                Location(token.line, token.column),
            ),
            None => {
                let last_token = self.last_token();
                ParsingError::UnexpectedEndOfLine(
                    Location(
                        last_token.line,
                        last_token.column + last_token.value.unicode_len() - 1,
                    ),
                )
            },
        }
    }

    /// The error for what stands under the cursor in place of a closing
    /// parenthesis.
    fn create_close_paren_error(&self) -> (error: ParsingError)
        requires
            self.tokens().len() > 0,
        ensures
            error@ == unclosed(self.tokens(), self.cursor()),
    {
        proof {
            use_type_invariant(self);
            reveal_strlit("EOL");
        }
        match self.current() {
            Some(token) => ParsingError::ExpectedCloseParen(
                token.value.to_owned(),
                Location(token.line, token.column),
            ),
            None => {
                let last_token = self.last_token();
                let found = "EOL".to_owned();
                assert(found@ =~= seq!['E', 'O', 'L']);
                ParsingError::ExpectedCloseParen(
                    found,
                    Location(
                        last_token.line,
                        last_token.column + last_token.value.unicode_len() - 1,
                    ),
                )
            },
        }
    }
}

} // verus!
