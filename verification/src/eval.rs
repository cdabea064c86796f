//! The evaluator: walks a syntax tree and keeps the values of the names in a
//! symbol table. It is generic in the type of the values: the caller hands
//! in how a literal becomes a value and how an operation acts on two values.

use crate::number_fsm::number_literal;
use crate::parser::{Location, NodeType, Operator, ParseNode, Shape, Tree};
use vstd::prelude::*;

verus! {

/// Why an evaluation came to nothing.
#[derive(Debug, PartialEq)]
pub enum EvalError {
    /// A node that cannot be evaluated, with a description of it.
    Unimplemented(String),
    /// A name that has no value, with the place where it is used.
    SymbolNotFound(String, Location),
}

type EvalResult<V> = Result<V, EvalError>;

/// The symbol table that a list of entries stands for. A later entry for a
/// name overrides an earlier one.
spec fn table<V>(entries: Seq<(String, V)>) -> Map<Seq<char>, V>
    decreases entries.len(),
{
    if entries.len() == 0 {
        Map::empty()
    } else {
        table(entries.drop_last()).insert(entries.last().0@, entries.last().1)
    }
}

/// No name has two entries.
spec fn distinct_names<V>(entries: Seq<(String, V)>) -> bool {
    forall|i: int, j: int|
        0 <= i < j < entries.len() ==> (#[trigger] entries[i]).0@ != (#[trigger] entries[j]).0@
}

/// Where no name has two entries, the table holds each entry's value under
/// its name.
proof fn lemma_table_holds<V>(entries: Seq<(String, V)>, at: int)
    requires
        distinct_names(entries),
        0 <= at < entries.len(),
    ensures
        table(entries).contains_key(entries[at].0@),
        table(entries)[entries[at].0@] == entries[at].1,
    decreases entries.len(),
{
    if at < entries.len() - 1 {
        lemma_table_holds(entries.drop_last(), at);
    }
}

/// The table holds no name that has no entry.
proof fn lemma_table_lacks<V>(entries: Seq<(String, V)>, name: Seq<char>)
    requires
        forall|i: int| 0 <= i < entries.len() ==> (#[trigger] entries[i]).0@ != name,
    ensures
        !table(entries).contains_key(name),
    decreases entries.len(),
{
    if entries.len() > 0 {
        lemma_table_lacks(entries.drop_last(), name);
    }
}

/// Giving the entry at `at` a new value is an insertion under its name.
proof fn lemma_table_update<V>(entries: Seq<(String, V)>, at: int, name: String, value: V)
    requires
        distinct_names(entries),
        0 <= at < entries.len(),
        entries[at].0@ == name@,
    ensures
        distinct_names(entries.update(at, (name, value))),
        table(entries.update(at, (name, value))) == table(entries).insert(name@, value),
    decreases entries.len(),
{
    let updated = entries.update(at, (name, value));
    let front = entries.drop_last();
    if at == entries.len() - 1 {
        assert(updated.drop_last() =~= front);
    } else {
        lemma_table_update(front, at, name, value);
        assert(updated.drop_last() =~= front.update(at, (name, value)));
    }
}

/// A new entry for a name that has none keeps the names distinct.
proof fn lemma_table_push<V>(entries: Seq<(String, V)>, name: String, value: V)
    requires
        distinct_names(entries),
        forall|i: int| 0 <= i < entries.len() ==> (#[trigger] entries[i]).0@ != name@,
    ensures
        distinct_names(entries.push((name, value))),
        table(entries.push((name, value))) == table(entries).insert(name@, value),
{
    assert(entries.push((name, value)).drop_last() =~= entries);
}

/// What an [`EvalError`] says. The description of a node that cannot be
/// evaluated is meant for a reader and is left out.
pub enum EvalErrorView {
    Unimplemented,
    SymbolNotFound(Seq<char>, Location),
}

impl View for EvalError {
    type V = EvalErrorView;

    open spec fn view(&self) -> EvalErrorView {
        match self {
            EvalError::Unimplemented(_) => EvalErrorView::Unimplemented,
            EvalError::SymbolNotFound(name, location) => EvalErrorView::SymbolNotFound(
                name@,
                *location,
            ),
        }
    }
}

/// What a result of the evaluator says.
pub open spec fn outcome_view<V>(outcome: EvalResult<V>) -> Result<V, EvalErrorView> {
    match outcome {
        Ok(value) => Ok(value),
        Err(error) => Err(error@),
    }
}

/// `literal` can be called on every number literal and gives one value for
/// each text.
pub open spec fn reads_literals<V, L: Fn(&String) -> V>(literal: L) -> bool {
    &&& forall|text: &String| number_literal(text@) ==> call_requires(literal, (text,))
    &&& forall|text: &String, again: &String, value: V, other: V|
        {
            &&& text@ == again@
            &&& #[trigger] call_ensures(literal, (text,), value)
            &&& #[trigger] call_ensures(literal, (again,), other)
        } ==> value == other
}

/// `apply` can be called on every operator and every two values and gives
/// one value for each.
pub open spec fn performs_operations<V, A: Fn(Operator, V, V) -> V>(apply: A) -> bool {
    &&& forall|operator: Operator, left: V, right: V| call_requires(apply, (operator, left, right))
    &&& forall|operator: Operator, left: V, right: V, value: V, other: V|
        {
            &&& #[trigger] call_ensures(apply, (operator, left, right), value)
            &&& #[trigger] call_ensures(apply, (operator, left, right), other)
        } ==> value == other
}

/// The value that `literal` gives for the text `lexeme`.
pub open spec fn literal_value<V, L: Fn(&String) -> V>(literal: L, lexeme: Seq<char>) -> V {
    let (value, text) = choose|value: V, text: &String|
        text@ == lexeme && #[trigger] call_ensures(literal, (text,), value);
    value
}

/// The value that `apply` gives for `operator` on `left` and `right`.
pub open spec fn applied<V, A: Fn(Operator, V, V) -> V>(
    apply: A,
    operator: Operator,
    left: V,
    right: V,
) -> V {
    choose|value: V| call_ensures(apply, (operator, left, right), value)
}

/// What evaluating `tree` with the symbol table `symbols` gives, and the
/// symbol table that it leaves, where `literal` turns a number literal into
/// a value and `apply` performs an operation on two values.
///
/// - A number is the value of its literal.
/// - An identifier is the value that the table holds for it; without one it
///   is `SymbolNotFound` with the name and the place of the node.
/// - An operation evaluates its left operand, then its right one in the
///   table that the left one left, and applies the operator to the two
///   values. The first operand that fails is the outcome; the right operand
///   is not evaluated where the left one failed.
/// - An assignment evaluates its right side, stores the value under the name
///   and has that value. Where the right side fails nothing is stored.
/// - A root has no value: it is `Unimplemented`.
pub open spec fn evaluation<V, L: Fn(&String) -> V, A: Fn(Operator, V, V) -> V>(
    tree: Tree,
    symbols: Map<Seq<char>, V>,
    literal: L,
    apply: A,
) -> (Result<V, EvalErrorView>, Map<Seq<char>, V>)
    decreases tree,
{
    match tree.shape {
        Shape::Number(lexeme) => (Ok(literal_value(literal, lexeme)), symbols),
        Shape::Identifier(name) => if symbols.contains_key(name) {
            (Ok(symbols[name]), symbols)
        } else {
            (Err(EvalErrorView::SymbolNotFound(name, tree.location)), symbols)
        },
        Shape::Binary(operator, left, right) => {
            let (first, between) = evaluation(*left, symbols, literal, apply);
            match first {
                Ok(left_value) => {
                    let (second, after) = evaluation(*right, between, literal, apply);
                    match second {
                        Ok(right_value) => (
                            Ok(applied(apply, operator, left_value, right_value)),
                            after,
                        ),
                        Err(error) => (Err(error), after),
                    }
                },
                Err(error) => (Err(error), between),
            }
        },
        Shape::Assignment(name, right) => {
            let (value, after) = evaluation(*right, symbols, literal, apply);
            match value {
                Ok(assigned) => (Ok(assigned), after.insert(name, assigned)),
                Err(error) => (Err(error), after),
            }
        },
        Shape::Root(_) => (Err(EvalErrorView::Unimplemented), symbols),
    }
}

/// What evaluating `statements` one after the other gives, each in the
/// symbol table that the one before it left: the values of all of them in
/// order, or the error of the first that fails, after which none is
/// evaluated.
pub open spec fn evaluation_of_all<V, L: Fn(&String) -> V, A: Fn(Operator, V, V) -> V>(
    statements: Seq<Tree>,
    symbols: Map<Seq<char>, V>,
    literal: L,
    apply: A,
) -> (Result<Seq<V>, EvalErrorView>, Map<Seq<char>, V>)
    decreases statements.len(),
{
    if statements.len() == 0 {
        (Ok(Seq::empty()), symbols)
    } else {
        let (front, between) = evaluation_of_all(statements.drop_last(), symbols, literal, apply);
        match front {
            Ok(values) => {
                let (last, after) = evaluation(statements.last(), between, literal, apply);
                match last {
                    Ok(value) => (Ok(values.push(value)), after),
                    Err(error) => (Err(error), after),
                }
            },
            Err(error) => (Err(error), between),
        }
    }
}

/// Once the first `count` statements have failed, the whole list fails in
/// the same way.
proof fn lemma_failure_lasts<V, L: Fn(&String) -> V, A: Fn(Operator, V, V) -> V>(
    statements: Seq<Tree>,
    count: int,
    symbols: Map<Seq<char>, V>,
    literal: L,
    apply: A,
)
    requires
        0 <= count <= statements.len(),
        evaluation_of_all(statements.take(count), symbols, literal, apply).0 is Err,
    ensures
        evaluation_of_all(statements, symbols, literal, apply) == evaluation_of_all(
            statements.take(count),
            symbols,
            literal,
            apply,
        ),
    decreases statements.len() - count,
{
    if count < statements.len() {
        assert(statements.take(count + 1).drop_last() =~= statements.take(count));
        lemma_failure_lasts(statements, count + 1, symbols, literal, apply);
    } else {
        assert(statements.take(count) =~= statements);
    }
}

/// After an assignment has been evaluated, the name that it assigns to has
/// the value of the assignment, wherever it is looked up.
pub proof fn lemma_assignment_then_lookup<V, L: Fn(&String) -> V, A: Fn(Operator, V, V) -> V>(
    name: Seq<char>,
    right: Tree,
    assigned_at: Location,
    used_at: Location,
    symbols: Map<Seq<char>, V>,
    literal: L,
    apply: A,
)
    ensures
        ({
            let assignment = Tree {
                shape: Shape::Assignment(name, Box::new(right)),
                location: assigned_at,
            };
            let lookup = Tree { shape: Shape::Identifier(name), location: used_at };
            let (value, after) = evaluation(assignment, symbols, literal, apply);
            value matches Ok(assigned) ==> evaluation(lookup, after, literal, apply) == (
                Ok::<V, EvalErrorView>(assigned),
                after,
            )
        }),
{
}

/// An identifier that has no value evaluates to `SymbolNotFound` with its
/// name and its place, and leaves the symbol table as it was.
pub proof fn lemma_unassigned_identifier<V, L: Fn(&String) -> V, A: Fn(Operator, V, V) -> V>(
    name: Seq<char>,
    used_at: Location,
    symbols: Map<Seq<char>, V>,
    literal: L,
    apply: A,
)
    requires
        !symbols.contains_key(name),
    ensures
        evaluation(
            Tree { shape: Shape::Identifier(name), location: used_at },
            symbols,
            literal,
            apply,
        ) == (Err::<V, _>(EvalErrorView::SymbolNotFound(name, used_at)), symbols),
{
}

/// The values of the names of one evaluation.
pub struct EvalContext<V> {
    syms: Vec<(String, V)>,
}

impl<V> EvalContext<V> {
    #[verifier::type_invariant]
    spec fn consistent(&self) -> bool {
        distinct_names(self.syms@)
    }

    /// The symbol table: the names that have a value, each with its value.
    pub closed spec fn symbols(&self) -> Map<Seq<char>, V> {
        table(self.syms@)
    }
}

impl<V: Copy> EvalContext<V> {

    /// A context in which no name has a value.
    pub fn new() -> (context: Self)
        ensures
            context.symbols() == Map::<Seq<char>, V>::empty(),
    {
        EvalContext { syms: Vec::new() }
    }

    /// A context in which `PI` has the value `pi`, and no other name has one.
    pub fn populated(pi: V) -> (context: Self)
        ensures
            context.symbols() == Map::<Seq<char>, V>::empty().insert(seq!['P', 'I'], pi),
    {
        let mut ctx = Self::new();
        ctx.populate_symbol_table(pi);
        ctx
    }

    /// Evaluates `node` in this context. `literal` is called on each number
    /// literal that is reached and `apply` on each operation whose operands
    /// both have a value.
    pub fn eval<L: Fn(&String) -> V, A: Fn(Operator, V, V) -> V>(
        &mut self,
        node: &ParseNode,
        literal: &L,
        apply: &A,
    ) -> (outcome: EvalResult<V>)
        requires
            node@.well_formed(),
            reads_literals(*literal),
            performs_operations(*apply),
        ensures
            (outcome_view(outcome), final(self).symbols()) == evaluation(
                node@,
                old(self).symbols(),
                *literal,
                *apply,
            ),
        decreases node,
    {
        match &node.ntype {
            NodeType::Number(num) => {
                let value = literal(num);
                Ok(value)
            },
            NodeType::Sum(left, right)
            | NodeType::Substraction(left, right)
            | NodeType::Multiplication(left, right)
            | NodeType::Division(left, right)
            | NodeType::GreaterThan(left, right)
            | NodeType::GreaterThanOrEqual(left, right)
            | NodeType::LessThan(left, right)
            | NodeType::LessThanOrEqual(left, right)
            | NodeType::Equal(left, right) => {
                let operator = operator_of(node);
                let left_res = match self.eval(left, literal, apply) {
                    Ok(value) => value,
                    Err(error) => {
                        return Err(error);
                    },
                };
                let right_res = match self.eval(right, literal, apply) {
                    Ok(value) => value,
                    Err(error) => {
                        return Err(error);
                    },
                };
                Ok(apply(operator, left_res, right_res))
            },
            NodeType::Assignment(identifier, right) => {
                let val = match self.eval(right, literal, apply) {
                    Ok(val) => val,
                    Err(error) => {
                        return Err(error);
                    },
                };
                self.insert(identifier.clone(), val);
                Ok(val)
            },
            NodeType::Identifier(identifier) => match self.get(identifier) {
                Some(value) => Ok(value),
                None => Err(EvalError::SymbolNotFound(identifier.clone(), node.location)),
            },
            NodeType::Root(_) => Err(EvalError::Unimplemented(describe(node))),
        }
    }

    /// Evaluates the statements of `root` in order, in one context in which
    /// `PI` has the value `pi`, and returns their values. The first
    /// statement that fails ends the evaluation with its error.
    pub fn run<L: Fn(&String) -> V, A: Fn(Operator, V, V) -> V>(
        root: &ParseNode,
        pi: V,
        literal: &L,
        apply: &A,
    ) -> (outcome: Result<Vec<V>, EvalError>)
        requires
            root@.shape is Root,
            root@.well_formed(),
            reads_literals(*literal),
            performs_operations(*apply),
        ensures
            match evaluation_of_all(
                root@.shape->Root_0,
                Map::<Seq<char>, V>::empty().insert(seq!['P', 'I'], pi),
                *literal,
                *apply,
            ).0 {
                Ok(values) => outcome matches Ok(results) && results@ == values,
                Err(error) => outcome matches Err(failure) && failure@ == error,
            },
    {
        let nodes = match &root.ntype {
            NodeType::Root(nodes) => nodes,
            _ => {
                assert(false);
                return Ok(Vec::new());
            },
        };
        let mut ctx = Self::populated(pi);
        let ghost statements = root@.shape->Root_0;
        let ghost initial = ctx.symbols();
        let mut results: Vec<V> = Vec::new();
        let mut i: usize = 0;
        while i < nodes.len()
            invariant
                i <= nodes.len(),
                root@.shape == Shape::Root(statements),
                root@.well_formed(),
                initial == Map::<Seq<char>, V>::empty().insert(seq!['P', 'I'], pi),
                statements.len() == nodes.len(),
                forall|k: int| 0 <= k < nodes.len() ==> statements[k] == (#[trigger] nodes[k])@,
                reads_literals(*literal),
                performs_operations(*apply),
                evaluation_of_all(statements.take(i as int), initial, *literal, *apply) == (
                    Ok::<Seq<V>, EvalErrorView>(results@),
                    ctx.symbols(),
                ),
            decreases nodes.len() - i,
        {
            proof {
                assert(statements.take(i + 1).drop_last() =~= statements.take(i as int));
            }
            match ctx.eval(&nodes[i], literal, apply) {
                Ok(res) => {
                    results.push(res);
                },
                Err(error) => {
                    proof {
                        lemma_failure_lasts(statements, i + 1, initial, *literal, *apply);
                    }
                    return Err(error);
                },
            }
            i += 1;
        }
        proof {
            assert(statements.take(i as int) =~= statements);
        }
        Ok(results)
    }

    fn populate_symbol_table(&mut self, pi: V)
        ensures
            final(self).symbols() == old(self).symbols().insert(seq!['P', 'I'], pi),
    {
        let name = "PI".to_owned();
        proof {
            reveal_strlit("PI");
            assert(name@ =~= seq!['P', 'I']);
        }
        self.insert(name, pi);
    }

    /// The value of `name`, if it has one.
    fn get(&self, name: &String) -> (value: Option<V>)
        ensures
            value == (if self.symbols().contains_key(name@) {
                Some(self.symbols()[name@])
            } else {
                None
            }),
    {
        let mut i: usize = 0;
        while i < self.syms.len()
            invariant
                i <= self.syms.len(),
                forall|k: int| 0 <= k < i ==> (#[trigger] self.syms[k]).0@ != name@,
            decreases self.syms.len() - i,
        {
            if self.syms[i].0 == *name {
                proof {
                    use_type_invariant(self);
                    lemma_table_holds(self.syms@, i as int);
                }
                return Some(self.syms[i].1);
            }
            i += 1;
        }
        proof {
            lemma_table_lacks(self.syms@, name@);
        }
        None
    }

    /// Gives `name` the value `value`, whether or not it had one.
    fn insert(&mut self, name: String, value: V)
        ensures
            final(self).symbols() == old(self).symbols().insert(name@, value),
    {
        proof {
            use_type_invariant(&*self);
        }
        let mut syms: Vec<(String, V)> = Vec::new();
        core::mem::swap(&mut syms, &mut self.syms);
        let mut i: usize = 0;
        let mut found = false;
        while !found && i < syms.len()
            invariant
                i <= syms.len(),
                syms@ == old(self).syms@,
                forall|k: int| 0 <= k < i ==> (#[trigger] syms[k]).0@ != name@,
                found ==> i < syms.len() && syms[i as int].0@ == name@,
            decreases syms.len() - i, (if found { 0int } else { 1int }),
        {
            if syms[i].0 == name {
                found = true;
            } else {
                i += 1;
            }
        }
        proof {
            if found {
                lemma_table_update(syms@, i as int, name, value);
            } else {
                lemma_table_push(syms@, name, value);
            }
        }
        if found {
            syms.set(i, (name, value));
        } else {
            syms.push((name, value));
        }
        self.syms = syms;
    }
}

/// The operation that a node with two operands stands for.
fn operator_of(node: &ParseNode) -> (operator: Operator)
    requires
        node@.shape is Binary,
    ensures
        operator == node@.shape->Binary_0,
{
    match &node.ntype {
        NodeType::Sum(_, _) => Operator::Sum,
        NodeType::Substraction(_, _) => Operator::Substraction,
        NodeType::Multiplication(_, _) => Operator::Multiplication,
        NodeType::Division(_, _) => Operator::Division,
        NodeType::GreaterThan(_, _) => Operator::GreaterThan,
        NodeType::GreaterThanOrEqual(_, _) => Operator::GreaterThanOrEqual,
        NodeType::LessThan(_, _) => Operator::LessThan,
        NodeType::LessThanOrEqual(_, _) => Operator::LessThanOrEqual,
        _ => Operator::Equal,
    }
}

/// Describes a node that has no value, for the error that says so. The text
/// comes from `format!` with the `Debug` form of the node; nothing is
/// claimed of it.
#[verifier::external_body]
fn describe(node: &ParseNode) -> String {
    format!("Eval for type {:?}", node.ntype)
}

} // verus!
