//! The lexical analyzer: from source text to a sequence of tokens, each with
//! the line and column of its first character.

use crate::ascii::{
    digit, is_digit, is_letter, is_whitespace, is_word_char, letter, whitespace, word_char,
};
use crate::decimal::{append_decimal, decimal};
use crate::number_fsm::{
    build_number_recognizer, lemma_recognized_before, lemma_recognized_is_literal,
    lemma_recognized_is_longest, lemma_recognizes_literals, lemma_scan_bounds, lemma_walk_is_scan,
    number_literal, recognized, NumberFSMState,
};
use vstd::prelude::*;
use vstd::string::StringExecFns;

verus! {

/// Enumeration of all types of token.
#[derive(Copy, Clone, Eq, PartialEq, Debug, Structural)]
pub enum TokenType {
    /// Identifiers and literals
    Identifier,
    Number,
    /// Arithmetic operators: `+`, `-`, `*`, `/`
    Plus,
    Minus,
    Times,
    Div,
    /// Comparison operators: `>`, `>=`, `<`, `<=`, `==`
    GreaterThan,
    GreaterThanOrEqual,
    LessThan,
    LessThanOrEqual,
    Equal,
    /// Assignment operator: `=`
    Assign,
    /// Parenthesis: `(`, `)`
    LeftParenthesis,
    RightParenthesis,
    /// The end of the input; the lexer never puts it among the tokens it returns.
    EndOfInput,
}

/// A lexeme of the source with its kind and the position of its first character.
#[derive(Eq, PartialEq, Debug)]
pub struct Token<'a> {
    pub ttype: TokenType,
    /// The characters of the lexeme, borrowed from the source.
    pub value: &'a str,
    /// The line of the lexeme's first character, counted from 0.
    pub line: usize,
    /// The column of the lexeme's first character, counted from 0.
    pub column: usize,
}

/// What a [`Token`] says, with the lexeme as a sequence of characters.
pub struct TokenView {
    pub ttype: TokenType,
    pub value: Seq<char>,
    pub line: usize,
    pub column: usize,
}

impl<'a> View for Token<'a> {
    type V = TokenView;

    open spec fn view(&self) -> TokenView {
        TokenView { ttype: self.ttype, value: self.value@, line: self.line, column: self.column }
    }
}

impl TokenView {
    /// What holds of every token that the lexer makes, and what the parser
    /// asks of its tokens: the column behind the lexeme is one that a
    /// `usize` can hold, that of its last character is not in front of the
    /// line, and the lexeme of a number is a number literal.
    pub open spec fn well_formed(self) -> bool {
        &&& 1 <= self.column + self.value.len() <= usize::MAX
        &&& self.ttype == TokenType::Number ==> number_literal(self.value)
    }
}

/// The name under which a token of type `ttype` is shown.
pub open spec fn label(ttype: TokenType) -> Seq<char> {
    match ttype {
        TokenType::Identifier => "Iden"@,
        TokenType::Number => "Num"@,
        TokenType::Plus | TokenType::Minus | TokenType::Times | TokenType::Div => "ArOp"@,
        TokenType::GreaterThan
        | TokenType::GreaterThanOrEqual
        | TokenType::LessThan
        | TokenType::LessThanOrEqual
        | TokenType::Equal => "ComOp"@,
        TokenType::Assign => "Assi"@,
        TokenType::LeftParenthesis | TokenType::RightParenthesis => "Paren"@,
        TokenType::EndOfInput => "EOI"@,
    }
}

/// A token as text: `<Label(lexeme), line:column>`, and `<EOI, line:column>`
/// for the end of the input.
pub open spec fn shown(token: TokenView) -> Seq<char> {
    let what = if token.ttype == TokenType::EndOfInput {
        label(token.ttype)
    } else {
        label(token.ttype) + "("@ + token.value + ")"@
    };
    "<"@ + what + ", "@ + decimal(token.line as nat) + ":"@ + decimal(token.column as nat) + ">"@
}

impl<'a> Token<'a> {
    /// This token as text.
    pub fn to_string(&self) -> (text: String)
        ensures
            text@ == shown(self@),
    {
        let mut text = "<".to_owned();
        let name = match self.ttype {
            TokenType::Identifier => "Iden",
            TokenType::Number => "Num",
            TokenType::Plus | TokenType::Minus | TokenType::Times | TokenType::Div => "ArOp",
            TokenType::GreaterThan
            | TokenType::GreaterThanOrEqual
            | TokenType::LessThan
            | TokenType::LessThanOrEqual
            | TokenType::Equal => "ComOp",
            TokenType::Assign => "Assi",
            TokenType::LeftParenthesis | TokenType::RightParenthesis => "Paren",
            TokenType::EndOfInput => "EOI",
        };
        text.append(name);
        match self.ttype {
            TokenType::EndOfInput => {},
            _ => {
                text.append("(");
                text.append(self.value);
                text.append(")");
            },
        }
        text.append(", ");
        append_decimal(&mut text, self.line);
        text.append(":");
        append_decimal(&mut text, self.column);
        text.append(">");
        assert(text@ =~= shown(self@));
        text
    }
}

/// All of `tokens` are well formed.
pub open spec fn well_formed_tokens(tokens: Seq<TokenView>) -> bool {
    forall|i: int| 0 <= i < tokens.len() ==> (#[trigger] tokens[i]).well_formed()
}

/// The views of a run of tokens, in order.
pub open spec fn token_views(tokens: Seq<Token<'_>>) -> Seq<TokenView> {
    tokens.map_values(|token: Token<'_>| token@)
}

/// Why a source has no tokens.
#[derive(Debug, PartialEq)]
pub enum LexingError {
    /// A character that starts no lexeme, with its position.
    UnrecognizedCharacter { character: char, line: usize, column: usize },
    /// A digit that starts no complete number literal, with its position.
    InvalidNumber { line: usize, column: usize },
}

/// The number of line feeds among the first `index` characters of `source`:
/// the line on which the character at `index` stands.
pub open spec fn line_at(source: Seq<char>, index: int) -> int
    decreases index,
{
    if index <= 0 {
        0
    } else if source[index - 1] == '\n' {
        line_at(source, index - 1) + 1
    } else {
        line_at(source, index - 1)
    }
}

/// The number of characters between the last line feed before `index` (or the
/// start of `source`) and `index`: the column of the character at `index`.
pub open spec fn column_at(source: Seq<char>, index: int) -> int
    decreases index,
{
    if index <= 0 || source[index - 1] == '\n' {
        0
    } else {
        column_at(source, index - 1) + 1
    }
}

/// The first position at or after `index` that holds no whitespace.
pub open spec fn skip_whitespace(source: Seq<char>, index: int) -> int
    decreases source.len() - index,
{
    if 0 <= index < source.len() && whitespace(source[index]) {
        skip_whitespace(source, index + 1)
    } else {
        index
    }
}

/// The first position at or after `index` that holds no letter, digit or underscore.
pub open spec fn word_end(source: Seq<char>, index: int) -> int
    decreases source.len() - index,
{
    if 0 <= index < source.len() && word_char(source[index]) {
        word_end(source, index + 1)
    } else {
        index
    }
}

/// `c` is one of `+`, `-`, `*` and `/`.
pub open spec fn arithmetic_operator(c: char) -> bool {
    c == '+' || c == '-' || c == '*' || c == '/'
}

/// `c` is one of `=`, `<` and `>`, with which the comparison operators and
/// the assignment operator start.
pub open spec fn comparison_operator(c: char) -> bool {
    c == '=' || c == '<' || c == '>'
}

/// The token type of an operator or parenthesis lexeme; `None` for any other text.
pub open spec fn operator_type(lexeme: Seq<char>) -> Option<TokenType> {
    if lexeme =~= seq!['+'] {
        Some(TokenType::Plus)
    } else if lexeme =~= seq!['-'] {
        Some(TokenType::Minus)
    } else if lexeme =~= seq!['*'] {
        Some(TokenType::Times)
    } else if lexeme =~= seq!['/'] {
        Some(TokenType::Div)
    } else if lexeme =~= seq!['>'] {
        Some(TokenType::GreaterThan)
    } else if lexeme =~= seq!['>', '='] {
        Some(TokenType::GreaterThanOrEqual)
    } else if lexeme =~= seq!['<'] {
        Some(TokenType::LessThan)
    } else if lexeme =~= seq!['<', '='] {
        Some(TokenType::LessThanOrEqual)
    } else if lexeme =~= seq!['=', '='] {
        Some(TokenType::Equal)
    } else if lexeme =~= seq!['='] {
        Some(TokenType::Assign)
    } else if lexeme =~= seq!['('] {
        Some(TokenType::LeftParenthesis)
    } else if lexeme =~= seq![')'] {
        Some(TokenType::RightParenthesis)
    } else {
        None
    }
}

/// A lexeme can start with `c`.
pub open spec fn starts_lexeme(c: char) -> bool {
    letter(c) || digit(c) || c == '(' || c == ')' || arithmetic_operator(c) || comparison_operator(
        c,
    )
}

/// The lexeme that starts at `start`, where no whitespace stands: its type
/// and the position just behind it, or the error that the character there causes.
pub open spec fn lexeme_at(source: Seq<char>, start: int) -> Result<(TokenType, int), LexingError>
    recommends
        0 <= start < source.len(),
{
    let c = source[start];
    if letter(c) {
        Ok((TokenType::Identifier, word_end(source, start + 1)))
    } else if c == '(' || c == ')' || arithmetic_operator(c) {
        Ok((operator_type(source.subrange(start, start + 1)).unwrap(), start + 1))
    } else if comparison_operator(c) {
        let end = if start + 1 < source.len() && source[start + 1] == '=' {
            start + 2
        } else {
            start + 1
        };
        Ok((operator_type(source.subrange(start, end)).unwrap(), end))
    } else if digit(c) {
        match recognized(source.skip(start)) {
            Some(length) => Ok((TokenType::Number, start + length)),
            None => Err(
                LexingError::InvalidNumber {
                    line: line_at(source, start) as usize,
                    column: column_at(source, start) as usize,
                },
            ),
        }
    } else {
        Err(
            LexingError::UnrecognizedCharacter {
                character: c,
                line: line_at(source, start) as usize,
                column: column_at(source, start) as usize,
            },
        )
    }
}

/// The token of type `ttype` that spans `source` from `start` up to `end`.
pub open spec fn token_at(source: Seq<char>, ttype: TokenType, start: int, end: int) -> TokenView {
    TokenView {
        ttype,
        value: source.subrange(start, end),
        line: line_at(source, start) as usize,
        column: column_at(source, start) as usize,
    }
}

/// Whitespace is skipped forwards, and never past the end of the source.
pub proof fn lemma_skip_whitespace_bounds(source: Seq<char>, index: int)
    requires
        0 <= index <= source.len(),
    ensures
        index <= skip_whitespace(source, index) <= source.len(),
        forall|i: int| index <= i < skip_whitespace(source, index) ==> whitespace(source[i]),
        skip_whitespace(source, index) < source.len() ==> !whitespace(
            source[skip_whitespace(source, index)],
        ),
    decreases source.len() - index,
{
    if index < source.len() && whitespace(source[index]) {
        lemma_skip_whitespace_bounds(source, index + 1);
    }
}

/// A word ends at or after the place where it was looked for and within the
/// source; up to there stand letters, digits and underscores, and none
/// stands at its end.
pub proof fn lemma_word_end_bounds(source: Seq<char>, index: int)
    requires
        0 <= index <= source.len(),
    ensures
        index <= word_end(source, index) <= source.len(),
        forall|i: int| index <= i < word_end(source, index) ==> word_char(source[i]),
        word_end(source, index) < source.len() ==> !word_char(source[word_end(source, index)]),
    decreases source.len() - index,
{
    if index < source.len() && word_char(source[index]) {
        lemma_word_end_bounds(source, index + 1);
    }
}

/// A lexeme is not empty, lies within the source and has no line feed in it.
pub proof fn lemma_lexeme_bounds(source: Seq<char>, start: int)
    requires
        0 <= start < source.len(),
    ensures
        lexeme_at(source, start) matches Ok((_, end)) ==> {
            &&& start < end <= source.len()
            &&& forall|i: int| start <= i < end ==> source[i] != '\n'
        },
{
    let c = source[start];
    if letter(c) {
        lemma_word_end_bounds(source, start + 1);
    } else if digit(c) {
        let rest = source.skip(start);
        lemma_scan_bounds(rest, NumberFSMState::Initial, 0);
        if let Some(length) = recognized(rest) {
            assert forall|i: int| start <= i < start + length implies source[i] != '\n' by {
                assert(source[i] == rest[i - start]);
            }
        }
    }
}

/// The tokens of `source` from `index` on: whitespace is skipped, then one
/// lexeme after the other is taken until the source ends or a lexeme fails.
pub open spec fn tokens_from(source: Seq<char>, index: int) -> Result<Seq<TokenView>, LexingError>
    decreases source.len() - index,
    via tokens_from_decreases
{
    let start = skip_whitespace(source, index);
    if 0 <= start < source.len() {
        match lexeme_at(source, start) {
            Ok((ttype, end)) => match tokens_from(source, end) {
                Ok(rest) => Ok(seq![token_at(source, ttype, start, end)] + rest),
                Err(error) => Err(error),
            },
            Err(error) => Err(error),
        }
    } else {
        Ok(Seq::empty())
    }
}

#[via_fn]
proof fn tokens_from_decreases(source: Seq<char>, index: int) {
    let start = skip_whitespace(source, index);
    if 0 <= start < source.len() {
        if 0 <= index <= source.len() {
            lemma_skip_whitespace_bounds(source, index);
        }
        lemma_lexeme_bounds(source, start);
    }
}

/// `tokens`, followed by what `rest` holds.
pub open spec fn prepend(
    tokens: Seq<TokenView>,
    rest: Result<Seq<TokenView>, LexingError>,
) -> Result<Seq<TokenView>, LexingError> {
    match rest {
        Ok(more) => Ok(tokens + more),
        Err(error) => Err(error),
    }
}

/// The tokens of the whole of `source`, or the first lexical error in it.
pub open spec fn tokenize(source: Seq<char>) -> Result<Seq<TokenView>, LexingError> {
    tokens_from(source, 0)
}

/// The position at which lexing `source` from `index` on comes to rest: the
/// end of the source, or the start of the lexeme that fails.
pub open spec fn rest_from(source: Seq<char>, index: int) -> int
    decreases source.len() - index,
    via rest_from_decreases
{
    let start = skip_whitespace(source, index);
    if 0 <= start < source.len() {
        match lexeme_at(source, start) {
            Ok((_, end)) => rest_from(source, end),
            Err(_) => start,
        }
    } else {
        start
    }
}

#[via_fn]
proof fn rest_from_decreases(source: Seq<char>, index: int) {
    let start = skip_whitespace(source, index);
    if 0 <= start < source.len() {
        if 0 <= index <= source.len() {
            lemma_skip_whitespace_bounds(source, index);
        }
        lemma_lexeme_bounds(source, start);
    }
}

/// Positions never run ahead of the cursor.
pub proof fn lemma_position_bounds(source: Seq<char>, index: int)
    requires
        0 <= index,
    ensures
        0 <= line_at(source, index) <= index,
        0 <= column_at(source, index) <= index,
    decreases index,
{
    if index > 0 {
        lemma_position_bounds(source, index - 1);
    }
}

/// Over a stretch without a line feed the line stays and the column grows
/// with the cursor.
pub proof fn lemma_same_line(source: Seq<char>, from: int, to: int)
    requires
        0 <= from <= to,
        forall|i: int| from <= i < to ==> source[i] != '\n',
    ensures
        line_at(source, to) == line_at(source, from),
        column_at(source, to) == column_at(source, from) + (to - from),
    decreases to - from,
{
    if from < to {
        lemma_same_line(source, from, to - 1);
    }
}

/// A source that is one number literal, and nothing else, lexes to one token
/// of type `Number`, which holds the whole source and stands at line 0,
/// column 0.
pub proof fn lemma_number_literal_is_one_token(source: Seq<char>)
    requires
        number_literal(source),
    ensures
        tokenize(source) == Ok::<_, LexingError>(
            seq![
                TokenView { ttype: TokenType::Number, value: source, line: 0, column: 0 },
            ],
        ),
{
    let end = source.len() as int;
    lemma_recognizes_literals(source);
    lemma_scan_bounds(source, NumberFSMState::Initial, 0);
    assert(source.subrange(0, end) =~= source);
    assert(tokens_from(source, end) == Ok::<_, LexingError>(Seq::<TokenView>::empty()));
}

/// The lexeme of a number is the longest number literal that starts where it
/// starts.
pub proof fn lemma_number_is_longest_literal(source: Seq<char>, start: int)
    requires
        0 <= start < source.len(),
    ensures
        lexeme_at(source, start) matches Ok((ttype, end)) ==> ttype == TokenType::Number ==> {
            &&& number_literal(source.subrange(start, end))
            &&& forall|longer: int|
                end < longer <= source.len() ==> !number_literal(
                    #[trigger] source.subrange(start, longer),
                )
        },
{
    if let Ok((ttype, end)) = lexeme_at(source, start) {
        if ttype == TokenType::Number {
            let rest = source.skip(start);
            lemma_recognized_is_literal(rest);
            assert(rest.take(end - start) =~= source.subrange(start, end));
            assert forall|longer: int| end < longer <= source.len() implies !number_literal(
                #[trigger] source.subrange(start, longer),
            ) by {
                assert(rest.take(longer - start) =~= source.subrange(start, longer));
                if number_literal(source.subrange(start, longer)) {
                    lemma_recognized_is_longest(rest, longer - start);
                }
            }
        }
    }
}

/// Where the first character of `source` that is not whitespace starts no
/// lexeme, lexing fails on that character, and the error names it with its
/// own line and column.
pub proof fn lemma_unrecognized_character(source: Seq<char>, index: int)
    requires
        0 <= index < source.len(),
        forall|i: int| 0 <= i < index ==> whitespace(source[i]),
        !whitespace(source[index]),
        !starts_lexeme(source[index]),
    ensures
        tokenize(source) == Err::<Seq<TokenView>, _>(
            LexingError::UnrecognizedCharacter {
                character: source[index],
                line: line_at(source, index) as usize,
                column: column_at(source, index) as usize,
            },
        ),
{
    lemma_skip_whitespace_bounds(source, 0);
    let start = skip_whitespace(source, 0);
}

/// `c` is foreign to the language: it is no whitespace and no lexeme has it,
/// at its start or further on.
pub open spec fn foreign(c: char) -> bool {
    !whitespace(c) && !starts_lexeme(c) && c != '_' && c != '.'
}

/// Up to its end a prefix of the source has the lines and columns of the
/// source.
proof fn lemma_positions_of_prefix(source: Seq<char>, length: int, index: int)
    requires
        0 <= index <= length <= source.len(),
    ensures
        line_at(source.take(length), index) == line_at(source, index),
        column_at(source.take(length), index) == column_at(source, index),
    decreases index,
{
    if index > 0 {
        lemma_positions_of_prefix(source, length, index - 1);
    }
}

/// In front of a character that is no whitespace, whitespace ends in the
/// source where it ends in the prefix up to that character.
proof fn lemma_skip_whitespace_of_prefix(source: Seq<char>, length: int, index: int)
    requires
        0 <= index <= length < source.len(),
        !whitespace(source[length]),
    ensures
        skip_whitespace(source, index) == skip_whitespace(source.take(length), index),
    decreases length - index,
{
    if index < length && whitespace(source[index]) {
        lemma_skip_whitespace_of_prefix(source, length, index + 1);
    }
}

/// In front of a character that no word holds, a word ends in the source
/// where it ends in the prefix up to that character.
proof fn lemma_word_end_of_prefix(source: Seq<char>, length: int, index: int)
    requires
        0 <= index <= length < source.len(),
        !word_char(source[length]),
    ensures
        word_end(source, index) == word_end(source.take(length), index),
    decreases length - index,
{
    if index < length && word_char(source[index]) {
        lemma_word_end_of_prefix(source, length, index + 1);
    }
}

/// In front of a foreign character, a lexeme of the prefix up to that
/// character is the same lexeme of the source, and makes the same token.
proof fn lemma_lexeme_of_prefix(source: Seq<char>, length: int, start: int)
    requires
        0 <= start < length < source.len(),
        foreign(source[length]),
    ensures
        lexeme_at(source.take(length), start) matches Ok((ttype, end)) ==> {
            &&& end <= length
            &&& lexeme_at(source, start) == Ok::<_, LexingError>((ttype, end))
            &&& token_at(source, ttype, start, end) == token_at(
                source.take(length),
                ttype,
                start,
                end,
            )
        },
{
    let prefix = source.take(length);
    if let Ok((ttype, end)) = lexeme_at(prefix, start) {
        lemma_lexeme_bounds(prefix, start);
        lemma_positions_of_prefix(source, length, start);
        lemma_word_end_of_prefix(source, length, start + 1);
        assert(prefix.subrange(start, end) =~= source.subrange(start, end));
        assert(prefix.subrange(start, start + 1) =~= source.subrange(start, start + 1));
        if digit(source[start]) {
            assert(prefix.skip(start) =~= source.skip(start).take(length - start));
            lemma_recognized_before(source.skip(start), length - start);
        }
    }
}

proof fn lemma_foreign_from(source: Seq<char>, length: int, index: int)
    requires
        0 <= index <= length < source.len(),
        foreign(source[length]),
        tokens_from(source.take(length), index) is Ok,
    ensures
        tokens_from(source, index) == Err::<Seq<TokenView>, _>(
            LexingError::UnrecognizedCharacter {
                character: source[length],
                line: line_at(source, length) as usize,
                column: column_at(source, length) as usize,
            },
        ),
    decreases length - index,
{
    let prefix = source.take(length);
    lemma_skip_whitespace_bounds(prefix, index);
    lemma_skip_whitespace_of_prefix(source, length, index);
    let start = skip_whitespace(prefix, index);
    if start < length {
        lemma_lexeme_bounds(prefix, start);
        lemma_lexeme_of_prefix(source, length, start);
        if let Ok((_, end)) = lexeme_at(prefix, start) {
            lemma_foreign_from(source, length, end);
        }
    }
}

/// Where the characters in front of a foreign character have tokens, lexing
/// fails on that character, and the error names it with its own line and
/// column.
pub proof fn lemma_foreign_character(source: Seq<char>, index: int)
    requires
        0 <= index < source.len(),
        foreign(source[index]),
        tokenize(source.take(index)) is Ok,
    ensures
        tokenize(source) == Err::<Seq<TokenView>, _>(
            LexingError::UnrecognizedCharacter {
                character: source[index],
                line: line_at(source, index) as usize,
                column: column_at(source, index) as usize,
            },
        ),
{
    lemma_foreign_from(source, index, 0);
}

/// Where lexing `source` from `index` on fails, it has come to rest on a
/// character of the source, the error carries the line and the column of that
/// character, and the kind of the error says what stands there: a character
/// that starts no lexeme, or a digit with which no number literal starts.
pub proof fn lemma_error_position(source: Seq<char>, index: int)
    requires
        0 <= index <= source.len(),
    ensures
        tokens_from(source, index) matches Err(error) ==> {
            let at = rest_from(source, index);
            &&& index <= at < source.len()
            &&& !whitespace(source[at])
            &&& match error {
                LexingError::UnrecognizedCharacter { character, line, column } => {
                    &&& character == source[at]
                    &&& !starts_lexeme(character)
                    &&& line == line_at(source, at) as usize
                    &&& column == column_at(source, at) as usize
                },
                LexingError::InvalidNumber { line, column } => {
                    &&& digit(source[at])
                    &&& recognized(source.skip(at)) is None
                    &&& line == line_at(source, at) as usize
                    &&& column == column_at(source, at) as usize
                },
            }
        },
    decreases source.len() - index,
{
    lemma_skip_whitespace_bounds(source, index);
    let start = skip_whitespace(source, index);
    if start < source.len() {
        lemma_lexeme_bounds(source, start);
        if let Ok((_, end)) = lexeme_at(source, start) {
            lemma_error_position(source, end);
        }
    }
}

/// The tokens of a source whose length a `usize` can hold are well formed,
/// never empty and never of type `EndOfInput`.
pub proof fn lemma_tokens_well_formed(source: Seq<char>, index: int)
    requires
        0 <= index <= source.len() <= usize::MAX,
    ensures
        tokens_from(source, index) matches Ok(tokens) ==> forall|k: int|
            0 <= k < tokens.len() ==> {
                &&& (#[trigger] tokens[k]).well_formed()
                &&& tokens[k].value.len() >= 1
                &&& tokens[k].ttype != TokenType::EndOfInput
            },
    decreases source.len() - index,
{
    lemma_skip_whitespace_bounds(source, index);
    let start = skip_whitespace(source, index);
    if start < source.len() {
        lemma_lexeme_bounds(source, start);
        lemma_position_bounds(source, start);
        if let Ok((ttype, end)) = lexeme_at(source, start) {
            lemma_tokens_well_formed(source, end);
            if let Ok(rest) = tokens_from(source, end) {
                let first = token_at(source, ttype, start, end);
                if ttype == TokenType::Number {
                    lemma_recognized_is_literal(source.skip(start));
                    assert(source.skip(start).take(end - start) =~= first.value);
                }
                let tokens = seq![first] + rest;
                assert forall|k: int| 0 <= k < tokens.len() implies {
                    &&& (#[trigger] tokens[k]).well_formed()
                    &&& tokens[k].value.len() >= 1
                    &&& tokens[k].ttype != TokenType::EndOfInput
                } by {}
            }
        }
    }
}

/// A lexer over one source text. It keeps a cursor into the text together
/// with the line and the column of the character under the cursor.
pub struct Lexer<'a> {
    input: &'a str,
    /// The number of characters of `input`.
    length: usize,
    /// The number of characters consumed so far.
    position: usize,
    line: usize,
    column: usize,
}

type TokenRes<'a> = Result<Token<'a>, LexingError>;

impl<'a> Lexer<'a> {
    #[verifier::type_invariant]
    spec fn consistent(&self) -> bool {
        &&& self.length == self.input@.len()
        &&& self.position <= self.length
        &&& self.line == line_at(self.input@, self.position as int)
        &&& self.column == column_at(self.input@, self.position as int)
    }

    /// The text that this lexer reads.
    pub closed spec fn source(&self) -> Seq<char> {
        self.input@
    }

    /// The number of characters that this lexer has consumed.
    pub closed spec fn offset(&self) -> int {
        self.position as int
    }

    /// A lexer at the start of `input`, at line 0 and column 0.
    pub fn new(input: &'a str) -> (lexer: Self)
        ensures
            lexer.source() == input@,
            lexer.offset() == 0,
    {
        Lexer { input, length: input.unicode_len(), position: 0, line: 0, column: 0 }
    }

    /// Moves the cursor over `count` characters of one line.
    fn advance(&mut self, count: usize)
        requires
            old(self).position + count <= old(self).length,
            forall|i: int|
                old(self).position <= i < old(self).position + count ==> old(self).input@[i]
                    != '\n',
        ensures
            final(self).input == old(self).input,
            final(self).position == old(self).position + count,
            final(self).line == old(self).line,
    {
        proof {
            use_type_invariant(&*self);
            lemma_same_line(self.input@, self.position as int, self.position + count);
            lemma_position_bounds(self.input@, self.position + count);
        }
        *self = Lexer {
            input: self.input,
            length: self.length,
            position: self.position + count,
            line: self.line,
            column: self.column + count,
        };
    }

    /// Reads the tokens from the cursor to the end of the source. At the first
    /// lexeme that fails, the error is returned and the cursor stays in front
    /// of that lexeme.
    pub fn all_tokens(&mut self) -> (result: Result<Vec<Token<'a>>, LexingError>)
        ensures
            final(self).source() == old(self).source(),
            final(self).offset() == rest_from(old(self).source(), old(self).offset()),
            match tokens_from(old(self).source(), old(self).offset()) {
                Ok(expected) => result matches Ok(tokens) && token_views(tokens@) == expected,
                Err(error) => result == Err::<Vec<Token<'a>>, _>(error),
            },
            result matches Ok(tokens) ==> well_formed_tokens(token_views(tokens@)),
    {
        let mut tokens: Vec<Token<'a>> = Vec::new();
        let ghost source = self.input@;
        let ghost origin = self.position as int;
        proof {
            use_type_invariant(&*self);
        }
        loop
            invariant
                self.consistent(),
                source == old(self).input@,
                origin == old(self).position,
                origin <= source.len() <= usize::MAX,
                self.input@ == source,
                rest_from(source, self.position as int) == rest_from(source, origin),
                tokens_from(source, origin) == prepend(
                    token_views(tokens@),
                    tokens_from(source, self.position as int),
                ),
            decreases self.length - self.position,
        {
            let ghost before = self.position as int;
            proof {
                lemma_skip_whitespace_bounds(source, before);
                let start = skip_whitespace(source, before);
                if start < source.len() {
                    lemma_lexeme_bounds(source, start);
                }
            }
            match self.next_token() {
                Ok(token) => {
                    if let TokenType::EndOfInput = token.ttype {
                        proof {
                            lemma_tokens_well_formed(source, origin);
                        }
                        return Ok(tokens);
                    }
                    proof {
                        use_type_invariant(&*self);
                        let rest = tokens_from(source, self.position as int);
                        if let Ok(more) = rest {
                            assert(token_views(tokens@.push(token)) + more =~= token_views(tokens@)
                                + (seq![token@] + more));
                        }
                    }
                    tokens.push(token);
                },
                Err(error) => {
                    return Err(error);
                },
            }
        }
    }

    /// Reads all the tokens of `input`.
    pub fn get_tokens(input: &'a str) -> (result: Result<Vec<Token<'a>>, LexingError>)
        ensures
            match tokenize(input@) {
                Ok(expected) => result matches Ok(tokens) && token_views(tokens@) == expected,
                Err(error) => result == Err::<Vec<Token<'a>>, _>(error),
            },
            result matches Ok(tokens) ==> well_formed_tokens(token_views(tokens@)),
    {
        let mut lexer = Lexer::new(input);
        lexer.all_tokens()
    }

    /// Returns the next recognized token in the input, or the token of type
    /// `EndOfInput` where only whitespace is left.
    fn next_token(&mut self) -> (result: TokenRes<'a>)
        ensures
            final(self).input == old(self).input,
            ({
                let source = old(self).input@;
                let start = skip_whitespace(source, old(self).position as int);
                if start < source.len() {
                    match lexeme_at(source, start) {
                        Ok((ttype, end)) => {
                            &&& ttype != TokenType::EndOfInput
                            &&& final(self).position == end
                            &&& result matches Ok(token) && token@ == token_at(
                                source,
                                ttype,
                                start,
                                end,
                            )
                        },
                        Err(error) => final(self).position == start && result == Err::<
                            Token<'a>,
                            _,
                        >(error),
                    }
                } else {
                    &&& final(self).position == start
                    &&& result matches Ok(token) && token.ttype == TokenType::EndOfInput
                }
            }),
    {
        // We skip all the whitespaces and new lines in the input.
        self.skip_whitespaces_and_new_lines();
        proof {
            use_type_invariant(&*self);
            lemma_skip_whitespace_bounds(old(self).input@, old(self).position as int);
        }
        if self.position >= self.length {
            return Ok(
                Token {
                    ttype: TokenType::EndOfInput,
                    value: self.input.substring_char(self.position, self.position),
                    line: self.line,
                    column: self.column,
                },
            );
        }
        let character = self.input.get_char(self.position);
        if is_letter(character) {
            self.recognize_identifier()
        } else if character == '(' || character == ')' {
            self.recognize_parenthesis()
        } else if character == '+' || character == '-' || character == '*' || character == '/' {
            self.recognize_arithmetic_operator()
        } else if character == '=' || character == '<' || character == '>' {
            self.recognize_comparison_operator()
        } else if is_digit(character) {
            self.recognize_number()
        } else {
            Err(unrecognized_character(self, character))
        }
    }

    /// `after` and `result` are what taking the lexeme under this lexer's
    /// cursor leaves behind: the token and the cursor behind it, or the
    /// error and the cursor where it was.
    spec fn takes_lexeme(&self, result: TokenRes<'a>, after: &Self) -> bool {
        &&& after.input == self.input
        &&& match lexeme_at(self.input@, self.position as int) {
            Ok((ttype, end)) => {
                &&& after.position == end
                &&& result matches Ok(token) && token@ == token_at(
                    self.input@,
                    ttype,
                    self.position as int,
                    end,
                )
            },
            Err(error) => after.position == self.position && result == Err::<Token<'a>, _>(error),
        }
    }

    /// Consumes the character under the cursor and returns it.
    fn expect_next(&mut self) -> (character: char)
        requires
            old(self).position < old(self).length,
            old(self).input@[old(self).position as int] != '\n',
        ensures
            final(self).input == old(self).input,
            final(self).position == old(self).position + 1,
            final(self).line == old(self).line,
            character == old(self).input@[old(self).position as int],
    {
        proof {
            use_type_invariant(&*self);
        }
        let character = self.input.get_char(self.position);
        self.advance(1);
        character
    }

    fn recognize_identifier(&mut self) -> (result: TokenRes<'a>)
        requires
            old(self).position < old(self).length,
            letter(old(self).input@[old(self).position as int]),
        ensures
            old(self).takes_lexeme(result, final(self)),
    {
        proof {
            use_type_invariant(&*self);
            lemma_position_bounds(self.input@, self.position as int);
            lemma_word_end_bounds(self.input@, self.position + 1);
        }
        let line = self.line;
        let column = self.column;
        let position = self.position;
        let mut size: usize = 1;
        while position + size < self.length && is_word_char(self.input.get_char(position + size))
            invariant
                self.consistent(),
                *self == *old(self),
                position == self.position,
                1 <= size,
                position + size <= self.length,
                word_end(self.input@, position + size) == word_end(self.input@, position + 1),
            decreases self.length - size,
        {
            size += 1;
        }
        self.advance(size);
        Ok(
            Token {
                ttype: TokenType::Identifier,
                value: self.input.substring_char(position, position + size),
                line,
                column,
            },
        )
    }

    fn recognize_parenthesis(&mut self) -> (result: TokenRes<'a>)
        requires
            old(self).position < old(self).length,
            old(self).input@[old(self).position as int] == '(' || old(self).input@[old(
                self,
            ).position as int] == ')',
        ensures
            old(self).takes_lexeme(result, final(self)),
    {
        proof {
            use_type_invariant(&*self);
        }
        let line = self.line;
        let column = self.column;
        let position = self.position;
        let character = self.expect_next();
        let ttype = if character == '(' {
            TokenType::LeftParenthesis
        } else {
            TokenType::RightParenthesis
        };
        Ok(Token { ttype, value: self.input.substring_char(position, position + 1), line, column })
    }

    fn recognize_arithmetic_operator(&mut self) -> (result: TokenRes<'a>)
        requires
            old(self).position < old(self).length,
            arithmetic_operator(old(self).input@[old(self).position as int]),
        ensures
            old(self).takes_lexeme(result, final(self)),
    {
        proof {
            use_type_invariant(&*self);
        }
        let line = self.line;
        let column = self.column;
        let position = self.position;
        self.expect_next();
        let value = self.input.substring_char(position, position + 1);
        Ok(Token { ttype: Self::match_token_type(value), value, line, column })
    }

    fn recognize_comparison_operator(&mut self) -> (result: TokenRes<'a>)
        requires
            old(self).position < old(self).length,
            comparison_operator(old(self).input@[old(self).position as int]),
        ensures
            old(self).takes_lexeme(result, final(self)),
    {
        proof {
            use_type_invariant(&*self);
        }
        let line = self.line;
        let column = self.column;
        let position = self.position;
        self.expect_next();
        proof {
            use_type_invariant(&*self);
        }
        let value = if self.position < self.length && self.input.get_char(self.position) == '=' {
            self.expect_next();
            proof {
                use_type_invariant(&*self);
            }
            self.input.substring_char(position, position + 2)
        } else {
            self.input.substring_char(position, position + 1)
        };
        Ok(Token { ttype: Self::match_token_type(value), value, line, column })
    }

    fn recognize_number(&mut self) -> (result: TokenRes<'a>)
        requires
            old(self).position < old(self).length,
            digit(old(self).input@[old(self).position as int]),
        ensures
            old(self).takes_lexeme(result, final(self)),
    {
        proof {
            use_type_invariant(&*self);
        }
        let line = self.line;
        let column = self.column;
        let position = self.position;
        let fsm = build_number_recognizer();
        let fsm_input = self.input.substring_char(position, self.length);
        proof {
            lemma_scan_bounds(fsm_input@, NumberFSMState::Initial, 0);
        }
        let matched = fsm.run(fsm_input);
        proof {
            let trace = choose|trace: Seq<NumberFSMState>|
                {
                    &&& #[trigger] fsm.walks(fsm_input@, trace)
                    &&& fsm.stuck(fsm_input@, trace)
                    &&& (matched is Some <==> fsm.accepts(trace.last()))
                    &&& matched matches Some(prefix) ==> prefix@ == fsm_input@.take(
                        trace.len() - 1,
                    )
                };
            lemma_walk_is_scan(fsm, fsm_input@, trace);
        }
        if let Some(number) = matched {
            let size = number.unicode_len();
            proof {
                assert(number@ =~= self.input@.subrange(position as int, position + size));
                assert forall|i: int| position <= i < position + size implies self.input@[i]
                    != '\n' by {
                    assert(self.input@[i] == fsm_input@[i - position]);
                }
            }
            self.advance(size);
            Ok(Token { ttype: TokenType::Number, value: number, line, column })
        } else {
            Err(invalid_number(self))
        }
    }

    /// The token type of an operator or a parenthesis.
    pub fn match_token_type(value: &str) -> (ttype: TokenType)
        requires
            operator_type(value@) is Some,
        ensures
            Some(ttype) == operator_type(value@),
    {
        let first = value.get_char(0);
        if value.unicode_len() == 1 {
            if first == '+' {
                TokenType::Plus
            } else if first == '-' {
                TokenType::Minus
            } else if first == '*' {
                TokenType::Times
            } else if first == '/' {
                TokenType::Div
            } else if first == '>' {
                TokenType::GreaterThan
            } else if first == '<' {
                TokenType::LessThan
            } else if first == '=' {
                TokenType::Assign
            } else if first == '(' {
                TokenType::LeftParenthesis
            } else {
                TokenType::RightParenthesis
            }
        } else if first == '>' {
            TokenType::GreaterThanOrEqual
        } else if first == '<' {
            TokenType::LessThanOrEqual
        } else {
            TokenType::Equal
        }
    }

    fn skip_whitespaces_and_new_lines(&mut self)
        ensures
            final(self).input == old(self).input,
            final(self).position == skip_whitespace(old(self).input@, old(self).position as int),
    {
        proof {
            use_type_invariant(&*self);
        }
        while self.position < self.length && is_whitespace(self.input.get_char(self.position))
            invariant
                self.consistent(),
                self.input == old(self).input,
                skip_whitespace(self.input@, self.position as int) == skip_whitespace(
                    old(self).input@,
                    old(self).position as int,
                ),
            decreases self.length - self.position,
        {
            let character = self.input.get_char(self.position);
            proof {
                lemma_position_bounds(self.input@, self.position + 1);
            }
            if character == '\n' {
                *self = Lexer {
                    input: self.input,
                    length: self.length,
                    position: self.position + 1,
                    line: self.line + 1,
                    column: 0,
                };
            } else {
                *self = Lexer {
                    input: self.input,
                    length: self.length,
                    position: self.position + 1,
                    line: self.line,
                    column: self.column + 1,
                };
            }
        }
    }
}

fn unrecognized_character(lexer: &Lexer, character: char) -> (error: LexingError)
    ensures
        error == (LexingError::UnrecognizedCharacter {
            character,
            line: lexer.line,
            column: lexer.column,
        }),
{
    LexingError::UnrecognizedCharacter { character, line: lexer.line, column: lexer.column }
}

fn invalid_number(lexer: &Lexer) -> (error: LexingError)
    ensures
        error == (LexingError::InvalidNumber { line: lexer.line, column: lexer.column }),
{
    LexingError::InvalidNumber { line: lexer.line, column: lexer.column }
}

} // verus!
