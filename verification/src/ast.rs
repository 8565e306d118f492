//! The tree-shaped data model of a parsed program.
//!
//! A `Program` is an ordered sequence of items; an item is either a fact
//! stated outright or a rule "consequence holds if condition holds". The
//! recursive formula node is `FactData`, reached through the owning
//! indirection in `Fact`. Every node carries a `Span`, a half-open range
//! `[lo, hi)` into the original source; spans are informational only and
//! never affect equality or analysis.

use vstd::prelude::*;

use lalrpop_intern::InternedString;

verus! {

#[derive(Copy, Clone, Debug, PartialEq, Eq, Structural)]
pub struct Span {
    pub lo: usize,
    pub hi: usize,
}

impl Span {
    pub fn new(lo: usize, hi: usize) -> (s: Self)
        ensures
            s.lo == lo,
            s.hi == hi,
    {
        Span { lo: lo, hi: hi }
    }
}

#[derive(Debug)]
pub struct Program {
    pub items: Vec<Item>,
}

impl Program {
    /// A program holds exactly the items it was built from, in their
    /// original order; iterating `items` gives them back unchanged.
    pub fn new(items: Vec<Item>) -> (p: Self)
        ensures
            p.items@ == items@,
    {
        Program { items }
    }
}

#[derive(Debug)]
pub enum Item {
    Fact(Application),
    Rule(Rule),
}

#[derive(Debug)]
pub struct Rule {
    pub span: Span,
    pub consequence: Application,
    pub condition: Fact,
}

#[derive(Debug)]
pub struct Fact {
    pub span: Span,
    pub data: Box<FactData>,
}

// A Fact looks something like one of these things:
// - `a + b`
// - `a |- c : T`
// - `a |- c : T with: out`
#[derive(Debug)]
pub enum FactData {
    And(Fact, Fact),
    Or(Fact, Fact),

    Not(Fact),

    Implication(Fact, Fact), // A => B
    Exists(Variable, Fact), // exists(x: A)
    ForAll(Variable, Fact), // forall(x: A)

    Apply(Application),
}

#[derive(Debug)]
pub struct Application {
    pub span: Span,
    pub bits: Vec<Bit>,
}

#[derive(Debug)]
pub struct Bit {
    pub span: Span,
    pub kind: BitKind,
}

#[derive(Debug)]
pub enum BitKind {
    Value(Value),
    Operator(Operator),
}

// Component of a fact
#[derive(Debug)]
pub struct Value {
    pub span: Span,
    pub kind: ValueKind,
}

#[derive(Debug)]
pub enum ValueKind {
    Atom(Atom),
    Variable(Variable),
    Application(Application),
    Wildcard,
}

// `+`, `|-`, or `foo:`
#[derive(Debug)]
pub enum Operator {
    Colon(InternedString), // Foo:...
    Parens(InternedString), // Foo(...)
    SquareBrackets(Option<InternedString>), // Foo[...] or [...]
    Symbols(InternedString), // arbitrary stuff, like +
}

// `foo` or `bar`
#[derive(Copy, Clone, Debug, PartialEq, Eq)]
pub struct Atom {
    pub id: InternedString,
}

// `Foo` or `Bar`
#[derive(Copy, Clone, Debug, PartialEq, Eq)]
pub struct Variable {
    pub id: InternedString,
}

/// Equality of atoms is equality of their interned names and nothing else:
/// two occurrences of one name compare equal wherever they stand in the
/// source, since an occurrence's span lives on the enclosing `Value`, never
/// on the atom itself.
pub proof fn lemma_atom_eq_is_name_eq(x: Atom, y: Atom)
    ensures
        (x == y) <==> (x.id == y.id),
{
}

/// Equality of variables is equality of their interned names and nothing
/// else, exactly as for atoms.
pub proof fn lemma_variable_eq_is_name_eq(x: Variable, y: Variable)
    ensures
        (x == y) <==> (x.id == y.id),
{
}

/// Atoms and variables live in disjoint namespaces: a value holding an atom
/// is never the same value as one holding a variable, whatever names the two
/// carry.
pub proof fn lemma_atom_variable_disjoint(a: Atom, v: Variable)
    ensures
        ValueKind::Atom(a) != ValueKind::Variable(v),
{
}

} // verus!
