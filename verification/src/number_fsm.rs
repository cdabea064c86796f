//! The automaton that recognizes number literals:
//! `digit+ ('.' digit+)? (('e' | 'E') ('+' | '-')? digit+)?`.

use crate::ascii::{digit, is_digit};
use crate::fsm::FSM;
use vstd::prelude::*;

verus! {

/// The phases of reading a number literal. A state whose name starts with
/// `Begin` has just read a marker (`.`, `e`, a sign) and still needs a digit.
#[derive(Hash, Eq, Copy, Clone, Debug)]
pub enum NumberFSMState {
    Initial,
    Integer,
    BeginNumberWithFractionalPart,
    NumberWithFractionalPart,
    BeginNumberWithExponent,
    BeginNumberWithSignedExponent,
    NumberWithExponent,
}

impl PartialEq for NumberFSMState {
    fn eq(&self, other: &Self) -> (equal: bool) {
        match (*self, *other) {
            (NumberFSMState::Initial, NumberFSMState::Initial) => true,
            (NumberFSMState::Integer, NumberFSMState::Integer) => true,
            (
                NumberFSMState::BeginNumberWithFractionalPart,
                NumberFSMState::BeginNumberWithFractionalPart,
            ) => true,
            (
                NumberFSMState::NumberWithFractionalPart,
                NumberFSMState::NumberWithFractionalPart,
            ) => true,
            (
                NumberFSMState::BeginNumberWithExponent,
                NumberFSMState::BeginNumberWithExponent,
            ) => true,
            (
                NumberFSMState::BeginNumberWithSignedExponent,
                NumberFSMState::BeginNumberWithSignedExponent,
            ) => true,
            (NumberFSMState::NumberWithExponent, NumberFSMState::NumberWithExponent) => true,
            _ => false,
        }
    }
}

impl vstd::std_specs::cmp::PartialEqSpecImpl for NumberFSMState {
    open spec fn obeys_eq_spec() -> bool {
        true
    }

    open spec fn eq_spec(&self, other: &Self) -> bool {
        *self == *other
    }
}

/// The seven states, in the order of their declaration.
pub open spec fn all_states() -> Seq<NumberFSMState> {
    seq![
        NumberFSMState::Initial,
        NumberFSMState::Integer,
        NumberFSMState::BeginNumberWithFractionalPart,
        NumberFSMState::NumberWithFractionalPart,
        NumberFSMState::BeginNumberWithExponent,
        NumberFSMState::BeginNumberWithSignedExponent,
        NumberFSMState::NumberWithExponent,
    ]
}

/// The states in which a complete literal has been read.
pub open spec fn accepting(state: NumberFSMState) -> bool {
    state == NumberFSMState::Integer || state == NumberFSMState::NumberWithFractionalPart || state
        == NumberFSMState::NumberWithExponent
}

/// The transition table: the state that follows `state` on `c`, or `None`
/// where the automaton halts.
pub open spec fn transition(state: NumberFSMState, c: char) -> Option<NumberFSMState> {
    match state {
        NumberFSMState::Initial => if digit(c) {
            Some(NumberFSMState::Integer)
        } else {
            None
        },
        NumberFSMState::Integer => if digit(c) {
            Some(NumberFSMState::Integer)
        } else if c == '.' {
            Some(NumberFSMState::BeginNumberWithFractionalPart)
        } else if c == 'e' || c == 'E' {
            Some(NumberFSMState::BeginNumberWithExponent)
        } else {
            None
        },
        NumberFSMState::BeginNumberWithFractionalPart => if digit(c) {
            Some(NumberFSMState::NumberWithFractionalPart)
        } else {
            None
        },
        NumberFSMState::NumberWithFractionalPart => if digit(c) {
            Some(NumberFSMState::NumberWithFractionalPart)
        } else if c == 'e' || c == 'E' {
            Some(NumberFSMState::BeginNumberWithExponent)
        } else {
            None
        },
        NumberFSMState::BeginNumberWithExponent => if digit(c) {
            Some(NumberFSMState::NumberWithExponent)
        } else if c == '+' || c == '-' {
            Some(NumberFSMState::BeginNumberWithSignedExponent)
        } else {
            None
        },
        NumberFSMState::BeginNumberWithSignedExponent
        | NumberFSMState::NumberWithExponent => if digit(c) {
            Some(NumberFSMState::NumberWithExponent)
        } else {
            None
        },
    }
}

/// Where the automaton stands after it has gone from `state`, with `consumed`
/// characters of `input` behind it, as far as the table lets it: the state
/// reached and the number of characters consumed.
pub open spec fn scan(input: Seq<char>, state: NumberFSMState, consumed: int) -> (
    NumberFSMState,
    int,
)
    decreases input.len() - consumed,
{
    if 0 <= consumed < input.len() {
        match transition(state, input[consumed]) {
            Some(next) => scan(input, next, consumed + 1),
            None => (state, consumed),
        }
    } else {
        (state, consumed)
    }
}

/// The length of the prefix of `input` that the automaton matches, if it
/// halts in an accepting state.
pub open spec fn recognized(input: Seq<char>) -> Option<int> {
    let (state, consumed) = scan(input, NumberFSMState::Initial, 0);
    if accepting(state) {
        Some(consumed)
    } else {
        None
    }
}

impl NumberFSMState {
    /// All the states of the automaton.
    pub fn get_all() -> (states: Vec<Self>)
        ensures
            states@ == all_states(),
    {
        let mut states: Vec<Self> = Vec::new();
        states.push(NumberFSMState::Initial);
        states.push(NumberFSMState::Integer);
        states.push(NumberFSMState::BeginNumberWithFractionalPart);
        states.push(NumberFSMState::NumberWithFractionalPart);
        states.push(NumberFSMState::BeginNumberWithExponent);
        states.push(NumberFSMState::BeginNumberWithSignedExponent);
        states.push(NumberFSMState::NumberWithExponent);
        states
    }
}

/// Builds the automaton for number literals. Its transition function follows
/// [`transition`] on every state and character.
pub fn build_number_recognizer() -> (fsm: FSM<
    NumberFSMState,
    impl Fn(NumberFSMState, char) -> Option<NumberFSMState>,
>)
    ensures
        fsm.states@ == all_states(),
        fsm.initial_state == NumberFSMState::Initial,
        fsm.accepting_states@ == seq![
            NumberFSMState::Integer,
            NumberFSMState::NumberWithFractionalPart,
            NumberFSMState::NumberWithExponent,
        ],
        forall|state: NumberFSMState, c: char| call_requires(fsm.next_state, (state, c)),
        forall|state: NumberFSMState, c: char, next: Option<NumberFSMState>|
            fsm.moves(state, c, next) ==> next == transition(state, c),
{
    let mut accepting_states: Vec<NumberFSMState> = Vec::new();
    accepting_states.push(NumberFSMState::Integer);
    accepting_states.push(NumberFSMState::NumberWithFractionalPart);
    accepting_states.push(NumberFSMState::NumberWithExponent);
    let next_state = |current_state: NumberFSMState, character: char| -> (next: Option<
        NumberFSMState,
    >)
        ensures
            next == transition(current_state, character),
        {
            match current_state {
                NumberFSMState::Initial => {
                    if is_digit(character) {
                        return Some(NumberFSMState::Integer);
                    }
                },
                NumberFSMState::Integer => {
                    if is_digit(character) {
                        return Some(NumberFSMState::Integer);
                    } else if character == '.' {
                        return Some(NumberFSMState::BeginNumberWithFractionalPart);
                    } else if character == 'e' || character == 'E' {
                        return Some(NumberFSMState::BeginNumberWithExponent);
                    }
                },
                NumberFSMState::BeginNumberWithFractionalPart => {
                    if is_digit(character) {
                        return Some(NumberFSMState::NumberWithFractionalPart);
                    }
                },
                NumberFSMState::NumberWithFractionalPart => {
                    if is_digit(character) {
                        return Some(NumberFSMState::NumberWithFractionalPart);
                    } else if character == 'e' || character == 'E' {
                        return Some(NumberFSMState::BeginNumberWithExponent);
                    }
                },
                NumberFSMState::BeginNumberWithExponent => {
                    if is_digit(character) {
                        return Some(NumberFSMState::NumberWithExponent);
                    } else if character == '+' || character == '-' {
                        return Some(NumberFSMState::BeginNumberWithSignedExponent);
                    }
                },
                NumberFSMState::BeginNumberWithSignedExponent
                | NumberFSMState::NumberWithExponent => {
                    if is_digit(character) {
                        return Some(NumberFSMState::NumberWithExponent);
                    }
                },
            }
            None
        };
    FSM {
        states: NumberFSMState::get_all(),
        initial_state: NumberFSMState::Initial,
        accepting_states,
        next_state,
    }
}

/// The automaton never stands still on a character it accepts, never
/// consumes a line feed, and by the time it accepts it has consumed at least
/// one character.
pub proof fn lemma_scan_bounds(input: Seq<char>, state: NumberFSMState, consumed: int)
    requires
        0 <= consumed <= input.len(),
    ensures
        consumed <= scan(input, state, consumed).1 <= input.len(),
        forall|i: int| consumed <= i < scan(input, state, consumed).1 ==> input[i] != '\n',
        state != NumberFSMState::Initial ==> scan(input, state, consumed).0
            != NumberFSMState::Initial,
        state == NumberFSMState::Initial && accepting(scan(input, state, consumed).0)
            ==> consumed < scan(input, state, consumed).1,
    decreases input.len() - consumed,
{
    if consumed < input.len() {
        match transition(state, input[consumed]) {
            Some(next) => {
                lemma_scan_bounds(input, next, consumed + 1);
            },
            None => {},
        }
    }
}

/// A walk of the number recognizer that cannot go on ends where [`scan`]
/// ends, and the recognizer accepts its last state exactly if that state is
/// [`accepting`].
pub proof fn lemma_walk_is_scan<F: Fn(NumberFSMState, char) -> Option<NumberFSMState>>(
    fsm: FSM<NumberFSMState, F>,
    input: Seq<char>,
    trace: Seq<NumberFSMState>,
)
    requires
        fsm.initial_state == NumberFSMState::Initial,
        fsm.accepting_states@ == seq![
            NumberFSMState::Integer,
            NumberFSMState::NumberWithFractionalPart,
            NumberFSMState::NumberWithExponent,
        ],
        forall|state: NumberFSMState, c: char, next: Option<NumberFSMState>|
            fsm.moves(state, c, next) ==> next == transition(state, c),
        fsm.walks(input, trace),
        fsm.stuck(input, trace),
    ensures
        scan(input, NumberFSMState::Initial, 0) == (trace.last(), trace.len() - 1),
        fsm.accepts(trace.last()) <==> accepting(trace.last()),
{
    lemma_walk_from(fsm, input, trace, 0);
}

proof fn lemma_walk_from<F: Fn(NumberFSMState, char) -> Option<NumberFSMState>>(
    fsm: FSM<NumberFSMState, F>,
    input: Seq<char>,
    trace: Seq<NumberFSMState>,
    at: int,
)
    requires
        forall|state: NumberFSMState, c: char, next: Option<NumberFSMState>|
            fsm.moves(state, c, next) ==> next == transition(state, c),
        fsm.walks(input, trace),
        fsm.stuck(input, trace),
        0 <= at < trace.len(),
    ensures
        scan(input, trace[at], at) == (trace.last(), trace.len() - 1),
    decreases trace.len() - at,
{
    if at < trace.len() - 1 {
        lemma_walk_from(fsm, input, trace, at + 1);
    }
}

/// `text` is a run of one or more digits.
pub open spec fn digits(text: Seq<char>) -> bool {
    text.len() >= 1 && forall|i: int| 0 <= i < text.len() ==> digit(#[trigger] text[i])
}

/// `text` is empty, or a point followed by digits.
pub open spec fn fraction(text: Seq<char>) -> bool {
    text.len() == 0 || (text[0] == '.' && digits(text.skip(1)))
}

/// `text` is empty, or `e` or `E`, then at most one sign, then digits.
pub open spec fn exponent(text: Seq<char>) -> bool {
    text.len() == 0 || ((text[0] == 'e' || text[0] == 'E') && (digits(text.skip(1)) || (text.len()
        >= 2 && (text[1] == '+' || text[1] == '-') && digits(text.skip(2)))))
}

/// `text` is a number literal: digits, then a fraction, then an exponent,
/// where `point` and `mark` are the places at which the last two start.
pub open spec fn literal_parts(text: Seq<char>, point: int, mark: int) -> bool {
    &&& 0 <= point <= mark <= text.len()
    &&& digits(text.subrange(0, point))
    &&& fraction(text.subrange(point, mark))
    &&& exponent(text.subrange(mark, text.len() as int))
}

/// `text` follows the grammar `digit+ ('.' digit+)? (('e' | 'E') ('+' | '-')? digit+)?`.
pub open spec fn number_literal(text: Seq<char>) -> bool {
    exists|point: int, mark: int| literal_parts(text, point, mark)
}

/// The state in which a digit leaves the automaton.
spec fn after_digit(state: NumberFSMState) -> NumberFSMState {
    match state {
        NumberFSMState::Initial | NumberFSMState::Integer => NumberFSMState::Integer,
        NumberFSMState::BeginNumberWithFractionalPart
        | NumberFSMState::NumberWithFractionalPart => NumberFSMState::NumberWithFractionalPart,
        _ => NumberFSMState::NumberWithExponent,
    }
}

/// Over a run of digits the automaton goes from `state` to `after_digit(state)`.
proof fn lemma_scan_digits(input: Seq<char>, state: NumberFSMState, from: int, to: int)
    requires
        0 <= from < to <= input.len(),
        digits(input.subrange(from, to)),
    ensures
        scan(input, state, from) == scan(input, after_digit(state), to),
    decreases to - from,
{
    assert(input[from] == input.subrange(from, to)[0]);
    if from + 1 < to {
        assert forall|i: int| 0 <= i < to - from - 1 implies digit(
            #[trigger] input.subrange(from + 1, to)[i],
        ) by {
            assert(input.subrange(from + 1, to)[i] == input.subrange(from, to)[i + 1]);
        }
        lemma_scan_digits(input, after_digit(state), from + 1, to);
    }
}

/// The automaton matches the whole of every text that follows the grammar of
/// number literals.
pub proof fn lemma_recognizes_literals(text: Seq<char>)
    requires
        number_literal(text),
    ensures
        recognized(text) == Some(text.len() as int),
{
    let (point, mark) = choose|point: int, mark: int| literal_parts(text, point, mark);
    let end = text.len() as int;
    let frac = text.subrange(point, mark);
    let exp = text.subrange(mark, end);
    lemma_scan_digits(text, NumberFSMState::Initial, 0, point);
    if point < mark {
        assert(frac.skip(1) =~= text.subrange(point + 1, mark));
        lemma_scan_digits(text, NumberFSMState::BeginNumberWithFractionalPart, point + 1, mark);
    }
    if mark < end {
        if digits(exp.skip(1)) {
            assert(exp.skip(1) =~= text.subrange(mark + 1, end));
            lemma_scan_digits(text, NumberFSMState::BeginNumberWithExponent, mark + 1, end);
        } else {
            assert(exp.skip(2) =~= text.subrange(mark + 2, end));
            assert(scan(text, NumberFSMState::BeginNumberWithExponent, mark + 1) == scan(
                text,
                NumberFSMState::BeginNumberWithSignedExponent,
                mark + 2,
            ));
            lemma_scan_digits(text, NumberFSMState::BeginNumberWithSignedExponent, mark + 2, end);
        }
    }
}

/// `text` starts with digits up to `point` and goes on with a fraction up to
/// `mark`.
spec fn mantissa(text: Seq<char>, point: int, mark: int) -> bool {
    &&& 0 <= point <= mark <= text.len()
    &&& digits(text.subrange(0, point))
    &&& fraction(text.subrange(point, mark))
}

/// What the automaton has read when it stands in `state` behind the first
/// `consumed` characters of `text`, where `point` and `mark` are the places
/// of the point and of the exponent's letter, as far as it has passed them.
spec fn has_read(
    text: Seq<char>,
    state: NumberFSMState,
    consumed: int,
    point: int,
    mark: int,
) -> bool {
    match state {
        NumberFSMState::Initial => consumed == 0,
        NumberFSMState::Integer => digits(text.subrange(0, consumed)),
        NumberFSMState::BeginNumberWithFractionalPart => {
            &&& 0 <= point == consumed - 1
            &&& digits(text.subrange(0, point))
            &&& text[point] == '.'
        },
        NumberFSMState::NumberWithFractionalPart => {
            &&& 0 <= point < consumed
            &&& digits(text.subrange(0, point))
            &&& text[point] == '.'
            &&& digits(text.subrange(point + 1, consumed))
        },
        NumberFSMState::BeginNumberWithExponent => {
            &&& mark == consumed - 1
            &&& mantissa(text, point, mark)
            &&& (text[mark] == 'e' || text[mark] == 'E')
        },
        NumberFSMState::BeginNumberWithSignedExponent => {
            &&& mark == consumed - 2
            &&& mantissa(text, point, mark)
            &&& (text[mark] == 'e' || text[mark] == 'E')
            &&& (text[mark + 1] == '+' || text[mark + 1] == '-')
        },
        NumberFSMState::NumberWithExponent => {
            &&& mark < consumed
            &&& mantissa(text, point, mark)
            &&& (text[mark] == 'e' || text[mark] == 'E')
            &&& (digits(text.subrange(mark + 1, consumed)) || (mark + 2 < consumed && (text[mark
                + 1] == '+' || text[mark + 1] == '-') && digits(
                text.subrange(mark + 2, consumed),
            )))
        },
    }
}

/// A run of digits with one more digit behind it is a run of digits.
proof fn lemma_digits_grow(text: Seq<char>, from: int, to: int)
    requires
        0 <= from <= to < text.len(),
        from < to ==> digits(text.subrange(from, to)),
        digit(text[to]),
    ensures
        digits(text.subrange(from, to + 1)),
{
    let longer = text.subrange(from, to + 1);
}

/// Whatever the automaton has read by the time it accepts is a number
/// literal.
proof fn lemma_scan_reads_literal(
    text: Seq<char>,
    state: NumberFSMState,
    consumed: int,
    point: int,
    mark: int,
)
    requires
        0 <= consumed <= text.len(),
        has_read(text, state, consumed, point, mark),
    ensures
        accepting(scan(text, state, consumed).0) ==> number_literal(
            text.take(scan(text, state, consumed).1),
        ),
    decreases text.len() - consumed,
{
    let next = if consumed < text.len() {
        transition(state, text[consumed])
    } else {
        None
    };
    match next {
        Some(target) => {
            let c = text[consumed];
            match state {
                NumberFSMState::Initial => {
                    lemma_digits_grow(text, 0, consumed);
                    lemma_scan_reads_literal(text, target, consumed + 1, point, mark);
                },
                NumberFSMState::Integer => {
                    if digit(c) {
                        lemma_digits_grow(text, 0, consumed);
                        lemma_scan_reads_literal(text, target, consumed + 1, point, mark);
                    } else if c == '.' {
                        lemma_scan_reads_literal(text, target, consumed + 1, consumed, mark);
                    } else {
                        lemma_scan_reads_literal(text, target, consumed + 1, consumed, consumed);
                    }
                },
                NumberFSMState::BeginNumberWithFractionalPart => {
                    lemma_digits_grow(text, point + 1, consumed);
                    lemma_scan_reads_literal(text, target, consumed + 1, point, mark);
                },
                NumberFSMState::NumberWithFractionalPart => {
                    if digit(c) {
                        lemma_digits_grow(text, point + 1, consumed);
                        lemma_scan_reads_literal(text, target, consumed + 1, point, mark);
                    } else {
                        let part = text.subrange(point, consumed);
                        assert(part.skip(1) =~= text.subrange(point + 1, consumed));
                        lemma_scan_reads_literal(text, target, consumed + 1, point, consumed);
                    }
                },
                NumberFSMState::BeginNumberWithExponent => {
                    if digit(c) {
                        lemma_digits_grow(text, mark + 1, consumed);
                    }
                    lemma_scan_reads_literal(text, target, consumed + 1, point, mark);
                },
                NumberFSMState::BeginNumberWithSignedExponent => {
                    lemma_digits_grow(text, mark + 2, consumed);
                    lemma_scan_reads_literal(text, target, consumed + 1, point, mark);
                },
                NumberFSMState::NumberWithExponent => {
                    if digits(text.subrange(mark + 1, consumed)) {
                        lemma_digits_grow(text, mark + 1, consumed);
                    } else {
                        lemma_digits_grow(text, mark + 2, consumed);
                    }
                    lemma_scan_reads_literal(text, target, consumed + 1, point, mark);
                },
            }
        },
        None => {
            let read = text.take(consumed);
            match state {
                NumberFSMState::Integer => {
                    assert(literal_parts(read, consumed, consumed));
                },
                NumberFSMState::NumberWithFractionalPart => {
                    let part = read.subrange(point, consumed);
                    assert(part.skip(1) =~= text.subrange(point + 1, consumed));
                    assert(literal_parts(read, point, consumed));
                },
                NumberFSMState::NumberWithExponent => {
                    let part = read.subrange(mark, consumed);
                    assert(read.subrange(point, mark) =~= text.subrange(point, mark));
                    assert(part.skip(1) =~= text.subrange(mark + 1, consumed));
                    if !digits(text.subrange(mark + 1, consumed)) {
                        assert(part.skip(2) =~= text.subrange(mark + 2, consumed));
                    }
                    assert(literal_parts(read, point, mark));
                },
                _ => {},
            }
        },
    }
}

/// What the automaton matches is a number literal.
pub proof fn lemma_recognized_is_literal(text: Seq<char>)
    ensures
        recognized(text) matches Some(length) ==> 1 <= length <= text.len() && number_literal(
            text.take(length),
        ),
{
    lemma_scan_bounds(text, NumberFSMState::Initial, 0);
    lemma_scan_reads_literal(text, NumberFSMState::Initial, 0, 0, 0);
}

/// Over the whole of `text` the automaton goes as it goes over the first
/// `length` characters, and where it gets through all of them it goes on
/// from the state in which they left it.
proof fn lemma_scan_prefix(text: Seq<char>, state: NumberFSMState, consumed: int, length: int)
    requires
        0 <= consumed <= length <= text.len(),
    ensures
        ({
            let (reached, end) = scan(text.take(length), state, consumed);
            scan(text, state, consumed) == if end == length {
                scan(text, reached, length)
            } else {
                (reached, end)
            }
        }),
    decreases length - consumed,
{
    if consumed < length {
        match transition(state, text[consumed]) {
            Some(next) => {
                lemma_scan_prefix(text, next, consumed + 1, length);
            },
            None => {},
        }
    }
}

/// No state has a move on `c`.
pub open spec fn halts_on(c: char) -> bool {
    !digit(c) && c != '.' && c != 'e' && c != 'E' && c != '+' && c != '-'
}

/// A character on which the automaton halts cuts the text for it: it matches
/// in the whole of `text` what it matches in the characters in front of
/// such a character.
pub proof fn lemma_recognized_before(text: Seq<char>, length: int)
    requires
        0 <= length < text.len(),
        halts_on(text[length]),
    ensures
        recognized(text) == recognized(text.take(length)),
{
    lemma_scan_prefix(text, NumberFSMState::Initial, 0, length);
}

/// No number literal at the start of `text` is longer than what the
/// automaton matches: where it matches, it matches the longest prefix of
/// `text` that is a number literal.
pub proof fn lemma_recognized_is_longest(text: Seq<char>, length: int)
    requires
        0 <= length <= text.len(),
        number_literal(text.take(length)),
    ensures
        recognized(text) matches Some(matched) ==> length <= matched,
{
    let prefix = text.take(length);
    lemma_recognizes_literals(prefix);
    lemma_scan_prefix(text, NumberFSMState::Initial, 0, length);
    lemma_scan_bounds(text, scan(prefix, NumberFSMState::Initial, 0).0, length);
}

} // verus!
