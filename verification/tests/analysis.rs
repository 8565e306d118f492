use chalk_parse::ast::{
    Application, Atom, Bit, BitKind, Fact, FactData, Item, Operator, Program, Rule, Span, Value,
    ValueKind, Variable,
};
use lalrpop_intern::intern;

fn sp() -> Span {
    Span::new(0, 0)
}

fn atom(name: &str) -> Atom {
    Atom { id: intern(name) }
}

fn var(name: &str) -> Variable {
    Variable { id: intern(name) }
}

fn value_bit(kind: ValueKind) -> Bit {
    Bit { span: sp(), kind: BitKind::Value(Value { span: sp(), kind }) }
}

fn op_bit(sym: &str) -> Bit {
    Bit { span: sp(), kind: BitKind::Operator(Operator::Symbols(intern(sym))) }
}

fn application(bits: Vec<Bit>) -> Application {
    Application { span: sp(), bits }
}

fn fact(data: FactData) -> Fact {
    Fact { span: sp(), data: Box::new(data) }
}

fn apply(bits: Vec<Bit>) -> Fact {
    fact(FactData::Apply(application(bits)))
}

/// A predicate application like `b(X)`: the predicate atom followed by one
/// argument value.
fn call1(pred: &str, arg: ValueKind) -> Fact {
    apply(vec![value_bit(ValueKind::Atom(atom(pred))), value_bit(arg)])
}

fn same_set(r: &Vec<Variable>, expect: &[Variable]) -> bool {
    r.len() == expect.len() && expect.iter().all(|v| r.contains(v))
}

#[test]
fn span_new_carries_bounds() {
    let s = Span::new(2, 7);
    assert_eq!(s.lo, 2);
    assert_eq!(s.hi, 7);
    assert_eq!(s, Span::new(2, 7));
    assert_ne!(s, Span::new(2, 8));
}

#[test]
fn equal_names_give_equal_identifiers() {
    let a1 = atom("parent");
    let a2 = atom("parent");
    assert_eq!(a1, a2);
    assert_ne!(atom("parent"), atom("child"));

    let v1 = var("X");
    let v2 = var("X");
    assert_eq!(v1, v2);
    assert_ne!(var("X"), var("Y"));

    // Occurrences at different source positions still compare equal: the
    // span lives on the enclosing value, never on the identifier.
    let occ1 = Value { span: Span::new(0, 1), kind: ValueKind::Variable(var("X")) };
    let occ2 = Value { span: Span::new(9, 10), kind: ValueKind::Variable(var("X")) };
    match (&occ1.kind, &occ2.kind) {
        (ValueKind::Variable(x), ValueKind::Variable(y)) => assert_eq!(x, y),
        _ => panic!("both occurrences hold variables"),
    }
}

#[test]
fn atom_and_variable_namespaces_are_disjoint() {
    // The same spelling as an atom and as a variable yields values of two
    // distinct kinds; they can never be the same value.
    let as_atom = ValueKind::Atom(atom("foo"));
    let as_var = ValueKind::Variable(var("foo"));
    assert!(matches!(as_atom, ValueKind::Atom(_)));
    assert!(!matches!(as_atom, ValueKind::Variable(_)));
    assert!(matches!(as_var, ValueKind::Variable(_)));
    assert!(!matches!(as_var, ValueKind::Atom(_)));
}

#[test]
fn quantifier_removes_bound_variable() {
    let x = var("X");
    let y = var("Y");

    // exists(X: b(X)) has no free variables.
    let bound = fact(FactData::Exists(x, call1("b", ValueKind::Variable(x))));
    assert!(same_set(&bound.free_variables(), &[]));

    // exists(X: b(Y)) leaves Y free, and removing the absent X changes
    // nothing.
    let absent = fact(FactData::Exists(x, call1("b", ValueKind::Variable(y))));
    assert!(same_set(&absent.free_variables(), &[y]));

    // forall binds in the same way.
    let all_bound = fact(FactData::ForAll(x, call1("b", ValueKind::Variable(x))));
    assert!(same_set(&all_bound.free_variables(), &[]));
}

#[test]
fn binary_connectives_take_unions() {
    let x = var("X");
    let y = var("Y");
    let bx = || call1("b", ValueKind::Variable(var("X")));
    let cy = || call1("c", ValueKind::Variable(var("Y")));

    let and_xy = fact(FactData::And(bx(), cy()));
    assert!(same_set(&and_xy.free_variables(), &[x, y]));
    let or_xy = fact(FactData::Or(bx(), cy()));
    assert!(same_set(&or_xy.free_variables(), &[x, y]));
    let imp_xy = fact(FactData::Implication(bx(), cy()));
    assert!(same_set(&imp_xy.free_variables(), &[x, y]));

    // Swapping the operands changes the tree but not the set.
    let and_yx = fact(FactData::And(cy(), bx()));
    let l = and_xy.free_variables();
    let r = and_yx.free_variables();
    assert!(same_set(&l, &[x, y]) && same_set(&r, &[x, y]));
}

#[test]
fn negation_is_transparent() {
    let x = var("X");
    let inner = call1("b", ValueKind::Variable(x));
    let negated = fact(FactData::Not(inner));
    assert!(same_set(&negated.free_variables(), &[x]));

    let closed = fact(FactData::Not(call1("b", ValueKind::Atom(atom("a")))));
    assert!(same_set(&closed.free_variables(), &[]));
}

#[test]
fn nested_quantifiers_shadow() {
    let x = var("X");
    let y = var("Y");

    // forall(X: forall(X: app(X))) is closed.
    let twice = fact(FactData::ForAll(
        x,
        fact(FactData::ForAll(x, call1("app", ValueKind::Variable(x)))),
    ));
    assert!(same_set(&twice.free_variables(), &[]));

    // exists(X: app(Y)) with Y distinct from X leaves {Y}.
    let other = fact(FactData::Exists(x, call1("app", ValueKind::Variable(y))));
    assert!(same_set(&other.free_variables(), &[y]));
}

#[test]
fn rule_style_formula_scenario() {
    // The shape of `a(X) :- b(X), c(Y)`:
    // Implication(Apply(a(X)), And(Apply(b(X)), Apply(c(Y)))).
    let x = var("X");
    let y = var("Y");
    let build = || {
        fact(FactData::Implication(
            call1("a", ValueKind::Variable(var("X"))),
            fact(FactData::And(
                call1("b", ValueKind::Variable(var("X"))),
                call1("c", ValueKind::Variable(var("Y"))),
            )),
        ))
    };
    assert!(same_set(&build().free_variables(), &[x, y]));

    // Wrapping the whole formula in exists(X: ...) leaves {Y}.
    let wrapped = fact(FactData::Exists(x, build()));
    assert!(same_set(&wrapped.free_variables(), &[y]));
}

#[test]
fn program_round_trip_keeps_items_in_order() {
    let first = Item::Fact(application(vec![value_bit(ValueKind::Atom(atom("a")))]));
    let second = Item::Rule(Rule {
        span: Span::new(10, 20),
        consequence: application(vec![value_bit(ValueKind::Atom(atom("head")))]),
        condition: call1("body", ValueKind::Variable(var("X"))),
    });
    let third = Item::Fact(Application {
        span: Span::new(30, 40),
        bits: vec![value_bit(ValueKind::Atom(atom("c")))],
    });
    let program = Program::new(vec![first, second, third]);

    assert_eq!(program.items.len(), 3);
    assert!(matches!(&program.items[0], Item::Fact(_)));
    match &program.items[1] {
        Item::Rule(rule) => assert_eq!(rule.span, Span::new(10, 20)),
        _ => panic!("second item is the rule"),
    }
    match &program.items[2] {
        Item::Fact(app) => assert_eq!(app.span, Span::new(30, 40)),
        _ => panic!("third item is the second fact"),
    }
}

#[test]
fn wildcards_are_never_free() {
    // f(_) has an empty free-variable set.
    let f = call1("f", ValueKind::Wildcard);
    assert!(same_set(&f.free_variables(), &[]));
}

#[test]
fn operators_contribute_no_variables() {
    // `a + X`: the symbolic operator carries a name, never a variable.
    let x = var("X");
    let f = apply(vec![
        value_bit(ValueKind::Atom(atom("a"))),
        op_bit("+"),
        value_bit(ValueKind::Variable(x)),
    ]);
    assert!(same_set(&f.free_variables(), &[x]));
}

#[test]
fn nested_applications_are_searched() {
    // f(g(X)): the variable sits in an application nested as a value.
    let x = var("X");
    let inner = application(vec![
        value_bit(ValueKind::Atom(atom("g"))),
        value_bit(ValueKind::Variable(x)),
    ]);
    let f = call1("f", ValueKind::Application(inner));
    assert!(same_set(&f.free_variables(), &[x]));
}

#[test]
fn repeated_occurrences_are_reported_once() {
    let x = var("X");
    let f = fact(FactData::And(
        call1("b", ValueKind::Variable(x)),
        call1("c", ValueKind::Variable(x)),
    ));
    let free = f.free_variables();
    assert_eq!(free.len(), 1);
    assert!(free.contains(&x));
}
