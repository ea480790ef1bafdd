//! First-order formulas over interned symbols, and their meaning as
//! formulas over the symbols' text.
use vstd::prelude::*;

verus! {

/// An argument of a predicate; the `u32` is a handle of the session's interner.
#[derive(Clone, Copy, Debug, PartialEq, Eq)]
pub enum LogicalTerm {
    Variable(u32),
    Constant(u32),
    Description(u32),
    Unspecified,
}

/// A formula whose names are interner handles.
#[derive(Debug, PartialEq)]
pub enum LogicalForm {
    Predicate { relation: u32, args: Vec<LogicalTerm> },
    And(Box<LogicalForm>, Box<LogicalForm>),
    Or(Box<LogicalForm>, Box<LogicalForm>),
    Not(Box<LogicalForm>),
    Exists(u32, Box<LogicalForm>),
    ForAll(u32, Box<LogicalForm>),
}

/// A term with its name spelled out.
pub enum Term {
    Var(Seq<char>),
    Const(Seq<char>),
    Desc(Seq<char>),
    Zoe,
}

/// A formula with its names spelled out.
pub enum Formula {
    Pred(Seq<char>, Seq<Term>),
    And(Box<Formula>, Box<Formula>),
    Or(Box<Formula>, Box<Formula>),
    Not(Box<Formula>),
    Exists(Seq<char>, Box<Formula>),
    ForAll(Seq<char>, Box<Formula>),
}

pub open spec fn and_f(l: Formula, r: Formula) -> Formula {
    Formula::And(Box::new(l), Box::new(r))
}

pub open spec fn or_f(l: Formula, r: Formula) -> Formula {
    Formula::Or(Box::new(l), Box::new(r))
}

pub open spec fn not_f(f: Formula) -> Formula {
    Formula::Not(Box::new(f))
}

pub open spec fn exists_f(v: Seq<char>, f: Formula) -> Formula {
    Formula::Exists(v, Box::new(f))
}

/// Every handle in the term is below `n`.
pub open spec fn term_ok(t: LogicalTerm, n: nat) -> bool {
    match t {
        LogicalTerm::Variable(h) => h < n,
        LogicalTerm::Constant(h) => h < n,
        LogicalTerm::Description(h) => h < n,
        LogicalTerm::Unspecified => true,
    }
}

pub open spec fn terms_ok(ts: Seq<LogicalTerm>, n: nat) -> bool {
    forall|i: int| 0 <= i < ts.len() ==> term_ok(#[trigger] ts[i], n)
}

/// Every handle in the formula is below `n`.
pub open spec fn form_ok(f: LogicalForm, n: nat) -> bool
    decreases f,
{
    match f {
        LogicalForm::Predicate { relation, args } => relation < n && terms_ok(args@, n),
        LogicalForm::And(l, r) => form_ok(*l, n) && form_ok(*r, n),
        LogicalForm::Or(l, r) => form_ok(*l, n) && form_ok(*r, n),
        LogicalForm::Not(i) => form_ok(*i, n),
        LogicalForm::Exists(v, b) => v < n && form_ok(*b, n),
        LogicalForm::ForAll(v, b) => v < n && form_ok(*b, n),
    }
}

pub open spec fn term_view(t: LogicalTerm, names: Seq<Seq<char>>) -> Term {
    match t {
        LogicalTerm::Variable(h) => Term::Var(names[h as int]),
        LogicalTerm::Constant(h) => Term::Const(names[h as int]),
        LogicalTerm::Description(h) => Term::Desc(names[h as int]),
        LogicalTerm::Unspecified => Term::Zoe,
    }
}

pub open spec fn terms_view(ts: Seq<LogicalTerm>, names: Seq<Seq<char>>) -> Seq<Term> {
    ts.map_values(|t: LogicalTerm| term_view(t, names))
}

/// The formula with each handle replaced by the string it stands for.
pub open spec fn form_view(f: LogicalForm, names: Seq<Seq<char>>) -> Formula
    decreases f,
{
    match f {
        LogicalForm::Predicate { relation, args } => Formula::Pred(
            names[relation as int],
            terms_view(args@, names),
        ),
        LogicalForm::And(l, r) => and_f(form_view(*l, names), form_view(*r, names)),
        LogicalForm::Or(l, r) => or_f(form_view(*l, names), form_view(*r, names)),
        LogicalForm::Not(i) => not_f(form_view(*i, names)),
        LogicalForm::Exists(v, b) => exists_f(names[v as int], form_view(*b, names)),
        LogicalForm::ForAll(v, b) => Formula::ForAll(names[v as int], Box::new(form_view(*b, names))),
    }
}

/// `big` holds `small` as its beginning: handles of `small` keep their strings.
pub open spec fn extends(big: Seq<Seq<char>>, small: Seq<Seq<char>>) -> bool {
    small.len() <= big.len() && forall|i: int| 0 <= i < small.len() ==> big[i] == small[i]
}

pub proof fn lemma_terms_view_stable(ts: Seq<LogicalTerm>, small: Seq<Seq<char>>, big: Seq<Seq<char>>)
    requires
        terms_ok(ts, small.len()),
        extends(big, small),
    ensures
        terms_view(ts, small) == terms_view(ts, big),
        terms_ok(ts, big.len()),
{
    assert forall|i: int| 0 <= i < ts.len() implies term_view(ts[i], small) == term_view(ts[i], big) by {
        assert(term_ok(ts[i], small.len()));
    }
    assert(terms_view(ts, small) =~= terms_view(ts, big));
}

/// A formula whose handles all lie in `small` reads the same in any table
/// that extends it.
pub proof fn lemma_form_view_stable(f: LogicalForm, small: Seq<Seq<char>>, big: Seq<Seq<char>>)
    requires
        form_ok(f, small.len()),
        extends(big, small),
    ensures
        form_view(f, small) == form_view(f, big),
        form_ok(f, big.len()),
    decreases f,
{
    match f {
        LogicalForm::Predicate { relation, args } => {
            lemma_terms_view_stable(args@, small, big);
        },
        LogicalForm::And(l, r) => {
            lemma_form_view_stable(*l, small, big);
            lemma_form_view_stable(*r, small, big);
        },
        LogicalForm::Or(l, r) => {
            lemma_form_view_stable(*l, small, big);
            lemma_form_view_stable(*r, small, big);
        },
        LogicalForm::Not(i) => {
            lemma_form_view_stable(*i, small, big);
        },
        LogicalForm::Exists(v, b) => {
            lemma_form_view_stable(*b, small, big);
        },
        LogicalForm::ForAll(v, b) => {
            lemma_form_view_stable(*b, small, big);
        },
    }
}

/// A copy of a list of terms.
pub fn copy_terms(ts: &Vec<LogicalTerm>) -> (r: Vec<LogicalTerm>)
    ensures
        r@ == ts@,
{
    let mut r: Vec<LogicalTerm> = Vec::new();
    let mut i: usize = 0;
    while i < ts.len()
        invariant
            i <= ts.len(),
            r@ == ts@.subrange(0, i as int),
        decreases ts.len() - i,
    {
        r.push(ts[i]);
        i = i + 1;
    }
    assert(r@ =~= ts@);
    r
}

/// A copy of a formula.
pub fn copy_form(f: &LogicalForm) -> (r: LogicalForm)
    ensures
        forall|names: Seq<Seq<char>>| #[trigger] form_view(r, names) == form_view(*f, names),
        forall|n: nat| #[trigger] form_ok(r, n) == form_ok(*f, n),
    decreases f,
{
    let out = match f {
        LogicalForm::Predicate { relation, args } => {
            LogicalForm::Predicate { relation: *relation, args: copy_terms(args) }
        },
        LogicalForm::And(l, r) => LogicalForm::And(Box::new(copy_form(l)), Box::new(copy_form(r))),
        LogicalForm::Or(l, r) => LogicalForm::Or(Box::new(copy_form(l)), Box::new(copy_form(r))),
        LogicalForm::Not(i) => LogicalForm::Not(Box::new(copy_form(i))),
        LogicalForm::Exists(v, b) => LogicalForm::Exists(*v, Box::new(copy_form(b))),
        LogicalForm::ForAll(v, b) => LogicalForm::ForAll(*v, Box::new(copy_form(b))),
    };
    assert forall|names: Seq<Seq<char>>| #[trigger] form_view(out, names) == form_view(*f, names) by {
        match (out, *f) {
            (LogicalForm::Predicate { relation: ra, args: aa }, LogicalForm::Predicate { relation: rb, args: ab }) => {
                assert(terms_view(aa@, names) == terms_view(ab@, names));
            },
            (LogicalForm::And(a, b), LogicalForm::And(c, d)) => {
                assert(form_view(*a, names) == form_view(*c, names));
                assert(form_view(*b, names) == form_view(*d, names));
            },
            (LogicalForm::Or(a, b), LogicalForm::Or(c, d)) => {
                assert(form_view(*a, names) == form_view(*c, names));
                assert(form_view(*b, names) == form_view(*d, names));
            },
            (LogicalForm::Not(a), LogicalForm::Not(c)) => {
                assert(form_view(*a, names) == form_view(*c, names));
            },
            (LogicalForm::Exists(_, a), LogicalForm::Exists(_, c)) => {
                assert(form_view(*a, names) == form_view(*c, names));
            },
            (LogicalForm::ForAll(_, a), LogicalForm::ForAll(_, c)) => {
                assert(form_view(*a, names) == form_view(*c, names));
            },
            _ => {},
        }
    }
    assert forall|n: nat| #[trigger] form_ok(out, n) == form_ok(*f, n) by {
        match (out, *f) {
            (LogicalForm::And(a, b), LogicalForm::And(c, d)) => {
                assert(form_ok(*a, n) == form_ok(*c, n));
                assert(form_ok(*b, n) == form_ok(*d, n));
            },
            (LogicalForm::Or(a, b), LogicalForm::Or(c, d)) => {
                assert(form_ok(*a, n) == form_ok(*c, n));
                assert(form_ok(*b, n) == form_ok(*d, n));
            },
            (LogicalForm::Not(a), LogicalForm::Not(c)) => {
                assert(form_ok(*a, n) == form_ok(*c, n));
            },
            (LogicalForm::Exists(_, a), LogicalForm::Exists(_, c)) => {
                assert(form_ok(*a, n) == form_ok(*c, n));
            },
            (LogicalForm::ForAll(_, a), LogicalForm::ForAll(_, c)) => {
                assert(form_ok(*a, n) == form_ok(*c, n));
            },
            _ => {},
        }
    }
    out
}

} // verus!
