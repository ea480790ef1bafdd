//! The s-expression wire format of formulas, as the reasoner reads them.
use vstd::prelude::*;
use crate::logic::{form_ok, form_view, term_ok, term_view, terms_ok, terms_view, Formula, LogicalForm, LogicalTerm, Term};
use crate::semantic::SemanticCompiler;

verus! {

pub open spec fn quoted(s: Seq<char>) -> Seq<char> {
    seq!['"'] + s + seq!['"']
}

/// `(Tag "name")`, or `(Zoe)` for the unspecified term.
pub open spec fn term_sexp(t: Term) -> Seq<char> {
    match t {
        Term::Var(s) => "(Var "@ + quoted(s) + ")"@,
        Term::Const(s) => "(Const "@ + quoted(s) + ")"@,
        Term::Desc(s) => "(Desc "@ + quoted(s) + ")"@,
        Term::Zoe => "(Zoe)"@,
    }
}

/// An argument list as nested `Cons` cells ending in `(Nil)`.
pub open spec fn list_sexp(args: Seq<Term>) -> Seq<char>
    decreases args.len(),
{
    if args.len() == 0 {
        "(Nil)"@
    } else {
        "(Cons "@ + term_sexp(args[0]) + " "@ + list_sexp(args.drop_first()) + ")"@
    }
}

/// A formula as an s-expression.
pub open spec fn sexp(f: Formula) -> Seq<char>
    decreases f,
{
    match f {
        Formula::Pred(r, args) => "(Pred "@ + quoted(r) + " "@ + list_sexp(args) + ")"@,
        Formula::And(l, r) => "(And "@ + sexp(*l) + " "@ + sexp(*r) + ")"@,
        Formula::Or(l, r) => "(Or "@ + sexp(*l) + " "@ + sexp(*r) + ")"@,
        Formula::Not(i) => "(Not "@ + sexp(*i) + ")"@,
        Formula::Exists(v, b) => "(Exists "@ + quoted(v) + " "@ + sexp(*b) + ")"@,
        Formula::ForAll(v, b) => "(ForAll "@ + quoted(v) + " "@ + sexp(*b) + ")"@,
    }
}

fn push_quoted(out: &mut String, s: &str)
    ensures
        final(out)@ == old(out)@ + quoted(s@),
{
    out.append("\"");
    out.append(s);
    out.append("\"");
    proof {
        reveal_strlit("\"");
    }
    assert(final(out)@ =~= old(out)@ + quoted(s@));
}

fn term_to_sexp(compiler: &SemanticCompiler, t: LogicalTerm) -> (r: String)
    requires
        term_ok(t, compiler.names().len()),
    ensures
        r@ == term_sexp(term_view(t, compiler.names())),
{
    match t {
        LogicalTerm::Variable(v) => {
            let mut s = String::from_str("(Var ");
            push_quoted(&mut s, compiler.resolve_symbol(v));
            s.append(")");
            s
        },
        LogicalTerm::Constant(v) => {
            let mut s = String::from_str("(Const ");
            push_quoted(&mut s, compiler.resolve_symbol(v));
            s.append(")");
            s
        },
        LogicalTerm::Description(v) => {
            let mut s = String::from_str("(Desc ");
            push_quoted(&mut s, compiler.resolve_symbol(v));
            s.append(")");
            s
        },
        LogicalTerm::Unspecified => String::from_str("(Zoe)"),
    }
}

/// The s-expression of `form`, with each handle written as its string.
pub fn reconstruct_sexp(compiler: &SemanticCompiler, form: &LogicalForm) -> (r: String)
    requires
        form_ok(*form, compiler.names().len()),
    ensures
        r@ == sexp(form_view(*form, compiler.names())),
    decreases form,
{
    let ghost names = compiler.names();
    match form {
        LogicalForm::Predicate { relation, args } => {
            let mut list = String::from_str("(Nil)");
            let mut i: usize = args.len();
            proof {
                assert(terms_view(args@, names).subrange(i as int, args@.len() as int) =~= seq![]);
            }
            while i > 0
                invariant
                    i <= args@.len(),
                    terms_ok(args@, names.len()),
                    names == compiler.names(),
                    list@ == list_sexp(terms_view(args@, names).subrange(i as int, args@.len() as int)),
                decreases i,
            {
                let t = term_to_sexp(compiler, args[i - 1]);
                let mut cell = String::from_str("(Cons ");
                cell.append(t.as_str());
                cell.append(" ");
                cell.append(list.as_str());
                cell.append(")");
                proof {
                    let tv = terms_view(args@, names);
                    let tail = tv.subrange(i - 1, args@.len() as int);
                    assert(tail.drop_first() =~= tv.subrange(i as int, args@.len() as int));
                    assert(tail[0] == term_view(args@[i - 1], names));
                }
                list = cell;
                i = i - 1;
            }
            proof {
                assert(terms_view(args@, names).subrange(0, args@.len() as int) =~= terms_view(args@, names));
            }
            let mut s = String::from_str("(Pred ");
            push_quoted(&mut s, compiler.resolve_symbol(*relation));
            s.append(" ");
            s.append(list.as_str());
            s.append(")");
            s
        },
        LogicalForm::And(l, r) => {
            let mut s = String::from_str("(And ");
            s.append(reconstruct_sexp(compiler, l).as_str());
            s.append(" ");
            s.append(reconstruct_sexp(compiler, r).as_str());
            s.append(")");
            s
        },
        LogicalForm::Or(l, r) => {
            let mut s = String::from_str("(Or ");
            s.append(reconstruct_sexp(compiler, l).as_str());
            s.append(" ");
            s.append(reconstruct_sexp(compiler, r).as_str());
            s.append(")");
            s
        },
        LogicalForm::Not(i) => {
            let mut s = String::from_str("(Not ");
            s.append(reconstruct_sexp(compiler, i).as_str());
            s.append(")");
            s
        },
        LogicalForm::Exists(v, b) => {
            let mut s = String::from_str("(Exists ");
            push_quoted(&mut s, compiler.resolve_symbol(*v));
            s.append(" ");
            s.append(reconstruct_sexp(compiler, b).as_str());
            s.append(")");
            s
        },
        LogicalForm::ForAll(v, b) => {
            let mut s = String::from_str("(ForAll ");
            push_quoted(&mut s, compiler.resolve_symbol(*v));
            s.append(" ");
            s.append(reconstruct_sexp(compiler, b).as_str());
            s.append(")");
            s
        },
    }
}

} // verus!
