//! A generic deterministic automaton over characters.

use vstd::prelude::*;
use vstd::std_specs::cmp::PartialEqSpec;

verus! {

/// A finite-state machine: its states, the state it starts in, the states in
/// which it accepts, and the transition function, which answers `None` where
/// the automaton has no move.
pub struct FSM<T, F> {
    pub states: Vec<T>,
    pub initial_state: T,
    pub accepting_states: Vec<T>,
    pub next_state: F,
}

impl<T: Copy + PartialEq, F: Fn(T, char) -> Option<T>> FSM<T, F> {
    /// The transition function can answer `to` when asked about `from` and `c`.
    pub open spec fn moves(&self, from: T, c: char, to: Option<T>) -> bool {
        call_ensures(self.next_state, (from, c), to)
    }

    /// `trace` is a walk of the automaton over a prefix of `input`: it starts
    /// in the initial state, and each further state is the one the transition
    /// function gave for the state before it and the character consumed.
    /// The walk has consumed `trace.len() - 1` characters.
    pub open spec fn walks(&self, input: Seq<char>, trace: Seq<T>) -> bool {
        &&& 1 <= trace.len() <= input.len() + 1
        &&& trace[0] == self.initial_state
        &&& forall|i: int|
            0 <= i < trace.len() - 1 ==> self.moves(
                #[trigger] trace[i],
                input[i],
                Some(trace[i + 1]),
            )
    }

    /// The walk `trace` cannot go on: the input is used up, or the transition
    /// function has no move from the last state on the next character.
    pub open spec fn stuck(&self, input: Seq<char>, trace: Seq<T>) -> bool {
        trace.len() == input.len() + 1 || self.moves(
            trace.last(),
            input[trace.len() - 1],
            None,
        )
    }

    /// `state` equals one of the accepting states.
    pub open spec fn accepts(&self, state: T) -> bool {
        exists|i: int|
            0 <= i < self.accepting_states.len() && (#[trigger] self.accepting_states[i]).eq_spec(
                &state,
            )
    }

    /// Whether `state` is among the accepting states.
    fn is_accepting(&self, state: T) -> (found: bool)
        ensures
            T::obeys_eq_spec() ==> found == self.accepts(state),
    {
        let mut i: usize = 0;
        while i < self.accepting_states.len()
            invariant
                i <= self.accepting_states.len(),
                T::obeys_eq_spec() ==> forall|j: int|
                    0 <= j < i ==> !(#[trigger] self.accepting_states[j]).eq_spec(&state),
            decreases self.accepting_states.len() - i,
        {
            if self.accepting_states[i] == state {
                return true;
            }
            i += 1;
        }
        false
    }

    /// Runs the automaton over `input` from the initial state for as long as
    /// the transition function has a move, and returns the prefix consumed if
    /// the state then reached is accepting.
    pub fn run<'a>(&self, input: &'a str) -> (matched: Option<&'a str>)
        requires
            forall|state: T, c: char| call_requires(self.next_state, (state, c)),
        ensures
            exists|trace: Seq<T>|
                {
                    &&& #[trigger] self.walks(input@, trace)
                    &&& self.stuck(input@, trace)
                    &&& T::obeys_eq_spec() ==> (matched is Some <==> self.accepts(trace.last()))
                    &&& matched matches Some(prefix) ==> prefix@ == input@.take(trace.len() - 1)
                },
    {
        let length = input.unicode_len();
        let mut current_state = self.initial_state;
        let mut size: usize = 0;
        let mut halted = false;
        let ghost mut trace: Seq<T> = seq![self.initial_state];
        while !halted && size < length
            invariant
                length == input@.len(),
                size <= length,
                trace.len() == size + 1,
                trace.last() == current_state,
                self.walks(input@, trace),
                halted ==> self.stuck(input@, trace),
                forall|state: T, c: char| call_requires(self.next_state, (state, c)),
            decreases length - size, (if halted { 0int } else { 1int }),
        {
            let character = input.get_char(size);
            match (self.next_state)(current_state, character) {
                Some(next_state) => {
                    proof {
                        let longer = trace.push(next_state);
                        trace = longer;
                    }
                    size += 1;
                    current_state = next_state;
                },
                None => {
                    halted = true;
                },
            }
        }
        if self.is_accepting(current_state) {
            Some(input.substring_char(0, size))
        } else {
            None
        }
    }
}

} // verus!
