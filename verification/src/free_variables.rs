//! The free-variable analysis: which variables occur in a formula without
//! being bound by an enclosing `exists`/`forall` on that variable.
//!
//! The specification side is a family of mutually recursive spec functions
//! over the tree; the executable `Fact::free_variables` returns a
//! duplicate-free vector whose element set is exactly that specification.

use vstd::prelude::*;

use crate::ast::{Application, Bit, BitKind, Fact, FactData, Value, ValueKind, Variable};

verus! {

/// The set of variables occurring free in a formula node.
pub open spec fn fact_free_vars(f: Fact) -> Set<Variable>
    decreases f,
{
    data_free_vars(*f.data)
}

/// The set of variables occurring free in formula data, compositional over
/// the connectives: binary connectives take the union of their operands,
/// negation is transparent, and a quantifier removes its bound variable.
pub open spec fn data_free_vars(d: FactData) -> Set<Variable>
    decreases d,
{
    match d {
        FactData::And(a, b) => fact_free_vars(a).union(fact_free_vars(b)),
        FactData::Or(a, b) => fact_free_vars(a).union(fact_free_vars(b)),
        FactData::Not(a) => fact_free_vars(a),
        FactData::Implication(a, b) => fact_free_vars(a).union(fact_free_vars(b)),
        FactData::Exists(v, a) => fact_free_vars(a).remove(v),
        FactData::ForAll(v, a) => fact_free_vars(a).remove(v),
        FactData::Apply(app) => app_free_vars(app),
    }
}

/// The variables occurring in an application: the union over its bits.
pub open spec fn app_free_vars(app: Application) -> Set<Variable>
    decreases app,
{
    bits_free_vars(app.bits@)
}

/// The union of the variables occurring in each bit of a sequence.
pub open spec fn bits_free_vars(bits: Seq<Bit>) -> Set<Variable>
    decreases bits,
{
    if bits.len() == 0 {
        Set::empty()
    } else {
        bit_free_vars(bits[0]).union(bits_free_vars(bits.drop_first()))
    }
}

/// The variables occurring in one bit: operators carry only names and
/// contribute nothing.
pub open spec fn bit_free_vars(b: Bit) -> Set<Variable>
    decreases b,
{
    match b.kind {
        BitKind::Value(v) => value_free_vars(v),
        BitKind::Operator(_) => Set::empty(),
    }
}

/// The variables occurring in one value: a variable contributes itself, a
/// nested application recurses, atoms and wildcards contribute nothing.
pub open spec fn value_free_vars(v: Value) -> Set<Variable>
    decreases v,
{
    match v.kind {
        ValueKind::Atom(_) => Set::empty(),
        ValueKind::Variable(x) => Set::empty().insert(x),
        ValueKind::Application(app) => app_free_vars(app),
        ValueKind::Wildcard => Set::empty(),
    }
}

/// Equality of variables: two variables are equal exactly when their
/// interned name handles are.
pub fn variable_eq(a: &Variable, b: &Variable) -> (r: bool)
    ensures
        r == (*a == *b),
{
    crate::interning::interned_eq(a.id, b.id)
}

/// Adds `v` to `acc` unless it is already there, keeping `acc` duplicate-free.
fn push_if_absent(acc: &mut Vec<Variable>, v: Variable)
    requires
        old(acc)@.no_duplicates(),
    ensures
        final(acc)@.to_set() == old(acc)@.to_set().insert(v),
        final(acc)@.no_duplicates(),
{
    let ghost entry = acc@;
    let mut i: usize = 0;
    while i < acc.len()
        invariant
            acc@ == entry,
            entry == old(acc)@,
            entry.no_duplicates(),
            i <= acc@.len(),
            forall|j: int| 0 <= j < i ==> acc@[j] != v,
        decreases acc@.len() - i,
    {
        if variable_eq(&acc[i], &v) {
            proof {
                assert(acc@.contains(v));
                assert(acc@.to_set() =~= acc@.to_set().insert(v));
            }
            return ;
        }
        i = i + 1;
    }
    proof {
        assert(!acc@.contains(v));
    }
    acc.push(v);
    proof {
        assert(acc@.to_set() =~= entry.to_set().insert(v)) by {
            assert(forall|x: Variable| acc@.contains(x) <==> entry.contains(x) || x == v) by {
                assert(forall|x: Variable| entry.contains(x) ==> #[trigger] acc@.contains(x)) by {
                    assert(forall|j: int|
                        0 <= j < entry.len() ==> acc@[j] == #[trigger] entry[j]);
                }
                assert(acc@[acc@.len() - 1] == v);
            }
        }
        assert(acc@.no_duplicates()) by {
            assert(forall|j: int| 0 <= j < entry.len() ==> acc@[j] == #[trigger] entry[j]);
        }
    }
}

/// The elements of `src` with every occurrence of `v` left out.
fn without_var(src: &Vec<Variable>, v: Variable) -> (out: Vec<Variable>)
    requires
        src@.no_duplicates(),
    ensures
        out@.to_set() == src@.to_set().remove(v),
        out@.no_duplicates(),
{
    let mut out: Vec<Variable> = Vec::new();
    let mut i: usize = 0;
    while i < src.len()
        invariant
            i <= src@.len(),
            src@.no_duplicates(),
            out@.to_set() == src@.take(i as int).to_set().remove(v),
            out@.no_duplicates(),
        decreases src@.len() - i,
    {
        let ghost before = out@;
        let keep = !variable_eq(&src[i], &v);
        if keep {
            proof {
                assert(!out@.contains(src@[i as int])) by {
                    if out@.contains(src@[i as int]) {
                        assert(out@.to_set().contains(src@[i as int]));
                        assert(src@.take(i as int).to_set().contains(src@[i as int]));
                        assert(src@.take(i as int).contains(src@[i as int]));
                        let j = choose|j: int|
                            0 <= j < i && src@.take(i as int)[j] == src@[i as int];
                        assert(src@[j] == src@[i as int]);
                        assert(src@[j] != src@[i as int]);
                    }
                }
            }
            out.push(src[i]);
            proof {
                assert(forall|j: int| 0 <= j < before.len() ==> out@[j] == #[trigger] before[j]);
                assert(out@.no_duplicates());
            }
        }
        i = i + 1;
        proof {
            let s = src@;
            assert(s.take(i as int) =~= s.take(i - 1).push(s[i - 1]));
            assert(s.take(i as int).to_set() =~= s.take(i - 1).to_set().insert(s[i - 1])) by {
                assert(forall|x: Variable|
                    s.take(i as int).contains(x) <==> s.take(i - 1).contains(x) || x == s[i - 1]) by {
                    assert(forall|j: int|
                        0 <= j < i - 1 ==> s.take(i as int)[j] == #[trigger] s.take(i - 1)[j]);
                    assert(forall|j: int|
                        0 <= j < i - 1 ==> s.take(i - 1).contains(#[trigger] s.take(i - 1)[j]));
                    assert(s.take(i as int)[i - 1] == s[i - 1]);
                }
            }
            if keep {
                assert(forall|j: int| 0 <= j < before.len() ==> out@[j] == #[trigger] before[j]);
                assert(out@[out@.len() - 1] == s[i - 1]);
                assert(out@.to_set() =~= before.to_set().insert(s[i - 1])) by {
                    assert(forall|x: Variable|
                        out@.contains(x) <==> before.contains(x) || x == s[i - 1]) by {
                        assert(forall|j: int|
                            0 <= j < before.len() ==> before.contains(#[trigger] before[j]));
                    }
                }
                assert(out@.to_set() =~= s.take(i as int).to_set().remove(v));
            } else {
                assert(out@.to_set() =~= s.take(i as int).to_set().remove(v));
            }
        }
    }
    proof {
        assert(src@.take(src@.len() as int) =~= src@);
    }
    out
}

/// Adds every element of `other` that `acc` lacks, keeping `acc`
/// duplicate-free.
fn append_absent(acc: &mut Vec<Variable>, other: &Vec<Variable>)
    requires
        old(acc)@.no_duplicates(),
    ensures
        final(acc)@.to_set() == old(acc)@.to_set().union(other@.to_set()),
        final(acc)@.no_duplicates(),
{
    let mut i: usize = 0;
    while i < other.len()
        invariant
            i <= other@.len(),
            acc@.to_set() == old(acc)@.to_set().union(other@.take(i as int).to_set()),
            acc@.no_duplicates(),
        decreases other@.len() - i,
    {
        push_if_absent(acc, other[i]);
        i = i + 1;
        proof {
            let s = other@;
            assert(s.take(i as int).to_set() =~= s.take(i - 1).to_set().insert(s[i - 1])) by {
                assert(forall|x: Variable|
                    s.take(i as int).contains(x) <==> s.take(i - 1).contains(x) || x == s[i - 1]) by {
                    assert(forall|j: int|
                        0 <= j < i - 1 ==> s.take(i as int)[j] == #[trigger] s.take(i - 1)[j]);
                    assert(forall|j: int|
                        0 <= j < i - 1 ==> s.take(i - 1).contains(#[trigger] s.take(i - 1)[j]));
                    assert(s.take(i as int)[i - 1] == s[i - 1]);
                }
            }
            assert(acc@.to_set() =~= old(acc)@.to_set().union(s.take(i as int).to_set()));
        }
    }
    proof {
        assert(other@.take(other@.len() as int) =~= other@);
    }
}

/// Collects the free variables of `f` into `acc`.
fn collect_fact(f: &Fact, acc: &mut Vec<Variable>)
    requires
        old(acc)@.no_duplicates(),
    ensures
        final(acc)@.to_set() == old(acc)@.to_set().union(fact_free_vars(*f)),
        final(acc)@.no_duplicates(),
    decreases *f,
{
    match &*f.data {
        FactData::And(a, b) => {
            collect_fact(a, acc);
            collect_fact(b, acc);
            proof {
                assert(acc@.to_set() =~= old(acc)@.to_set().union(fact_free_vars(*f)));
            }
        },
        FactData::Or(a, b) => {
            collect_fact(a, acc);
            collect_fact(b, acc);
            proof {
                assert(acc@.to_set() =~= old(acc)@.to_set().union(fact_free_vars(*f)));
            }
        },
        FactData::Not(a) => {
            collect_fact(a, acc);
        },
        FactData::Implication(a, b) => {
            collect_fact(a, acc);
            collect_fact(b, acc);
            proof {
                assert(acc@.to_set() =~= old(acc)@.to_set().union(fact_free_vars(*f)));
            }
        },
        FactData::Exists(v, a) => {
            let mut inner: Vec<Variable> = Vec::new();
            collect_fact(a, &mut inner);
            proof {
                assert(inner@.to_set() =~= fact_free_vars(*a));
            }
            let pruned = without_var(&inner, *v);
            append_absent(acc, &pruned);
        },
        FactData::ForAll(v, a) => {
            let mut inner: Vec<Variable> = Vec::new();
            collect_fact(a, &mut inner);
            proof {
                assert(inner@.to_set() =~= fact_free_vars(*a));
            }
            let pruned = without_var(&inner, *v);
            append_absent(acc, &pruned);
        },
        FactData::Apply(app) => {
            collect_app(app, acc);
        },
    }
}

/// Collects the variables occurring in `app` into `acc`.
fn collect_app(app: &Application, acc: &mut Vec<Variable>)
    requires
        old(acc)@.no_duplicates(),
    ensures
        final(acc)@.to_set() == old(acc)@.to_set().union(app_free_vars(*app)),
        final(acc)@.no_duplicates(),
    decreases *app,
{
    let ghost bits = app.bits@;
    let mut i: usize = 0;
    proof {
        assert(bits.skip(0) =~= bits);
    }
    while i < app.bits.len()
        invariant
            i <= bits.len(),
            bits == app.bits@,
            acc@.no_duplicates(),
            acc@.to_set().union(bits_free_vars(bits.skip(i as int)))
                == old(acc)@.to_set().union(app_free_vars(*app)),
        decreases bits.len() - i,
    {
        let ghost prev = acc@;
        collect_bit(&app.bits[i], acc);
        i = i + 1;
        proof {
            let tail = bits.skip(i - 1);
            assert(tail[0] == bits[i - 1]);
            assert(tail.drop_first() =~= bits.skip(i as int));
            assert(bits_free_vars(tail)
                == bit_free_vars(bits[i - 1]).union(bits_free_vars(bits.skip(i as int))));
            assert(acc@.to_set() == prev.to_set().union(bit_free_vars(bits[i - 1])));
            assert(acc@.to_set().union(bits_free_vars(bits.skip(i as int)))
                =~= prev.to_set().union(bits_free_vars(tail)));
            assert(acc@.to_set().union(bits_free_vars(bits.skip(i as int)))
                =~= old(acc)@.to_set().union(app_free_vars(*app)));
        }
    }
    proof {
        assert(bits.skip(bits.len() as int).len() == 0);
        assert(acc@.to_set() =~= old(acc)@.to_set().union(app_free_vars(*app)));
    }
}

/// Collects the variables occurring in `b` into `acc`.
fn collect_bit(b: &Bit, acc: &mut Vec<Variable>)
    requires
        old(acc)@.no_duplicates(),
    ensures
        final(acc)@.to_set() == old(acc)@.to_set().union(bit_free_vars(*b)),
        final(acc)@.no_duplicates(),
    decreases *b,
{
    match &b.kind {
        BitKind::Value(val) => {
            collect_value(val, acc);
        },
        BitKind::Operator(_) => {
            proof {
                assert(acc@.to_set() =~= acc@.to_set().union(bit_free_vars(*b)));
            }
        },
    }
}

/// Collects the variables occurring in `val` into `acc`.
fn collect_value(val: &Value, acc: &mut Vec<Variable>)
    requires
        old(acc)@.no_duplicates(),
    ensures
        final(acc)@.to_set() == old(acc)@.to_set().union(value_free_vars(*val)),
        final(acc)@.no_duplicates(),
    decreases *val,
{
    match &val.kind {
        ValueKind::Atom(_) => {
            proof {
                assert(acc@.to_set() =~= acc@.to_set().union(value_free_vars(*val)));
            }
        },
        ValueKind::Variable(x) => {
            push_if_absent(acc, *x);
            proof {
                assert(acc@.to_set() =~= old(acc)@.to_set().union(value_free_vars(*val)));
            }
        },
        ValueKind::Application(app) => {
            collect_app(app, acc);
        },
        ValueKind::Wildcard => {
            proof {
                assert(acc@.to_set() =~= acc@.to_set().union(value_free_vars(*val)));
            }
        },
    }
}

/// A quantifier removes its bound variable: the free variables of
/// `Exists(v, f)` and of `ForAll(v, f)` are those of `f` with `v` taken out;
/// in particular, when `v` does not occur free in `f`, they are exactly the
/// free variables of `f`, unchanged.
pub proof fn lemma_quantifier_removes_bound(v: Variable, f: Fact)
    ensures
        data_free_vars(FactData::Exists(v, f)) == fact_free_vars(f).remove(v),
        data_free_vars(FactData::ForAll(v, f)) == fact_free_vars(f).remove(v),
        !fact_free_vars(f).contains(v) ==> data_free_vars(FactData::Exists(v, f))
            == fact_free_vars(f),
        !fact_free_vars(f).contains(v) ==> data_free_vars(FactData::ForAll(v, f))
            == fact_free_vars(f),
{
    if !fact_free_vars(f).contains(v) {
        assert(fact_free_vars(f).remove(v) =~= fact_free_vars(f));
    }
}

/// A quantifier's bound variable is never free in the quantified formula.
pub proof fn lemma_bound_variable_not_free(v: Variable, f: Fact)
    ensures
        !data_free_vars(FactData::Exists(v, f)).contains(v),
        !data_free_vars(FactData::ForAll(v, f)).contains(v),
{
}

/// Nested quantifiers over one variable shadow harmlessly: binding `v` again
/// around a formula `g` that already binds `v` over `f` leaves the free
/// variables those of the inner quantification.
pub proof fn lemma_quantifier_shadows(v: Variable, f: Fact, g: Fact)
    requires
        *g.data == FactData::Exists(v, f) || *g.data == FactData::ForAll(v, f),
    ensures
        fact_free_vars(g) == fact_free_vars(f).remove(v),
        data_free_vars(FactData::Exists(v, g)) == fact_free_vars(g),
        data_free_vars(FactData::ForAll(v, g)) == fact_free_vars(g),
{
    assert(fact_free_vars(f).remove(v).remove(v) =~= fact_free_vars(f).remove(v));
}

/// The binary connectives take the union of their operands' free variables —
/// conjunction, disjunction and implication alike (implication gives its left
/// operand no binding power) — and since a union is unordered, swapping the
/// operands leaves the set unchanged even though the trees differ.
pub proof fn lemma_binary_connectives_union(f: Fact, g: Fact)
    ensures
        data_free_vars(FactData::And(f, g)) == fact_free_vars(f).union(fact_free_vars(g)),
        data_free_vars(FactData::Or(f, g)) == fact_free_vars(f).union(fact_free_vars(g)),
        data_free_vars(FactData::Implication(f, g)) == fact_free_vars(f).union(
            fact_free_vars(g),
        ),
        data_free_vars(FactData::And(f, g)) == data_free_vars(FactData::And(g, f)),
        data_free_vars(FactData::Or(f, g)) == data_free_vars(FactData::Or(g, f)),
        data_free_vars(FactData::Implication(f, g)) == data_free_vars(
            FactData::Implication(g, f),
        ),
{
    assert(fact_free_vars(f).union(fact_free_vars(g)) =~= fact_free_vars(g).union(
        fact_free_vars(f),
    ));
}

/// Negation binds nothing: `Not(f)` has exactly the free variables of `f`.
pub proof fn lemma_not_transparent(f: Fact)
    ensures
        data_free_vars(FactData::Not(f)) == fact_free_vars(f),
{
}

/// A wildcard is an anonymous placeholder, not a variable: a value holding
/// one contributes nothing to any free-variable set.
pub proof fn lemma_wildcard_contributes_nothing(v: Value)
    requires
        v.kind is Wildcard,
    ensures
        value_free_vars(v) == Set::<Variable>::empty(),
{
}

impl Fact {
    /// The set of variables occurring free in this formula, as a vector
    /// holding each such variable exactly once.
    pub fn free_variables(&self) -> (r: Vec<Variable>)
        ensures
            r@.to_set() == fact_free_vars(*self),
            r@.no_duplicates(),
    {
        let mut acc: Vec<Variable> = Vec::new();
        collect_fact(self, &mut acc);
        proof {
            assert(acc@.to_set() =~= fact_free_vars(*self));
        }
        acc
    }
}

} // verus!

