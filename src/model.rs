//! The meaning of compilation: what each step of the compiler yields, as
//! functions on the arenas, over formulas whose names are spelled out.
//!
//! Each function carries a depth budget (`fuel`); an exhausted budget or an
//! index outside its arena yields a fixed fallback instead of looping or
//! failing. Each also counts the symbol lookups it makes (`cost`), which
//! bounds how far the interner and the variable counter can grow.
use vstd::prelude::*;
use crate::ast::{Arena, Bridi, Connective, Conversion, Gadri, PlaceTag, Selbri, Sumti};
use crate::lexicon::JbovlasteSchema;
use crate::logic::{and_f, exists_f, not_f, or_f, Formula, Term};

verus! {

/// The depth budget for compiling over arena `a`: enough for every chain of
/// references in an acyclic arena, and a cut-off for a cyclic one.
pub open spec fn depth_budget(a: Arena) -> nat {
    let t = a.selbris.len() + a.sumtis.len() + a.sentences.len();
    if t < 0x1000_0000 {
        4 * t + 8
    } else {
        0x4000_0008
    }
}

/// The decimal digits of `n`, most significant first.
pub open spec fn decimal(n: nat) -> Seq<char>
    decreases n,
{
    if n < 10 {
        seq![digit_char(n)]
    } else {
        decimal(n / 10).push(digit_char(n % 10))
    }
}

/// The character of a decimal digit.
pub open spec fn digit_char(d: nat) -> char {
    if d == 0 { '0' } else if d == 1 { '1' } else if d == 2 { '2' } else if d == 3 { '3' }
    else if d == 4 { '4' } else if d == 5 { '5' } else if d == 6 { '6' } else if d == 7 { '7' }
    else if d == 8 { '8' } else { '9' }
}

/// The name of the `n`-th fresh variable: `_v0`, `_v1`, ...
pub open spec fn fresh_name(n: nat) -> Seq<char> {
    seq!['_', 'v'] + decimal(n)
}

/// `da`, `de` and `di`: pro-sumti that stand for bare logical variables.
pub open spec fn is_bare_variable(w: Seq<char>) -> bool {
    w == seq!['d', 'a'] || w == seq!['d', 'e'] || w == seq!['d', 'i']
}

pub open spec fn entity_name() -> Seq<char> {
    seq!['e', 'n', 't', 'i', 't', 'y']
}

pub open spec fn unknown_name() -> Seq<char> {
    seq!['u', 'n', 'k', 'n', 'o', 'w', 'n']
}

/// A quantifier introduced by a `lo` description.
pub struct QuantEntry {
    pub var: Seq<char>,
    pub desc_id: u32,
    pub restrictor: Option<Formula>,
}

/// A formula produced by a step, with the next variable number and the
/// number of symbol lookups made.
pub struct FormOut {
    pub form: Formula,
    pub next: nat,
    pub cost: nat,
}

/// A resolved sumti, with the quantifiers it introduced.
pub struct TermOut {
    pub term: Term,
    pub quants: Seq<QuantEntry>,
    pub next: nat,
    pub cost: nat,
}

/// A list of resolved sumti, with the quantifiers they introduced.
pub struct TermsOut {
    pub terms: Seq<Term>,
    pub quants: Seq<QuantEntry>,
    pub next: nat,
    pub cost: nat,
}

/// Place assignment so far: tagged terms by place, untagged terms in order.
pub struct Places {
    pub positioned: Seq<Option<Term>>,
    pub untagged: Seq<Term>,
    pub quants: Seq<QuantEntry>,
    pub next: nat,
    pub cost: nat,
}

/// The arity of the structural head of selbri `id`.
pub open spec fn selbri_arity(dict: JbovlasteSchema, sels: Seq<Selbri>, id: u32, fuel: nat) -> nat
    decreases fuel,
{
    if fuel == 0 || id >= sels.len() {
        2
    } else {
        match sels[id as int] {
            Selbri::Root(w) => dict.arity_or_default(w@),
            Selbri::Tanru(_, h) => selbri_arity(dict, sels, h, (fuel - 1) as nat),
            Selbri::Converted(_, i) => selbri_arity(dict, sels, i, (fuel - 1) as nat),
            Selbri::Negated(i) => selbri_arity(dict, sels, i, (fuel - 1) as nat),
            Selbri::Grouped(i) => selbri_arity(dict, sels, i, (fuel - 1) as nat),
            Selbri::WithArgs(c, _) => selbri_arity(dict, sels, c, (fuel - 1) as nat),
            Selbri::Connected(l, _, _) => selbri_arity(dict, sels, l, (fuel - 1) as nat),
            Selbri::Compound(parts) => if parts@.len() == 0 {
                2
            } else {
                dict.arity_or_default(parts@.last()@)
            },
        }
    }
}

/// The word at the structural head of selbri `id`.
pub open spec fn selbri_head(sels: Seq<Selbri>, id: u32, fuel: nat) -> Seq<char>
    decreases fuel,
{
    if fuel == 0 || id >= sels.len() {
        entity_name()
    } else {
        match sels[id as int] {
            Selbri::Root(w) => w@,
            Selbri::Tanru(_, h) => selbri_head(sels, h, (fuel - 1) as nat),
            Selbri::Converted(_, i) => selbri_head(sels, i, (fuel - 1) as nat),
            Selbri::Negated(i) => selbri_head(sels, i, (fuel - 1) as nat),
            Selbri::Grouped(i) => selbri_head(sels, i, (fuel - 1) as nat),
            Selbri::WithArgs(c, _) => selbri_head(sels, c, (fuel - 1) as nat),
            Selbri::Connected(l, _, _) => selbri_head(sels, l, (fuel - 1) as nat),
            Selbri::Compound(parts) => if parts@.len() == 0 {
                entity_name()
            } else {
                parts@.last()@
            },
        }
    }
}

/// The place that a conversion swaps with the first one.
pub open spec fn conversion_index(c: Conversion) -> int {
    match c {
        Conversion::Se => 1,
        Conversion::Te => 2,
        Conversion::Ve => 3,
        Conversion::Xe => 4,
    }
}

/// `args` with the first place swapped with place `j`, when `j` exists.
pub open spec fn swap_first<T>(args: Seq<T>, j: int) -> Seq<T> {
    if j < args.len() {
        args.update(0, args[j]).update(j, args[0])
    } else {
        args
    }
}

/// The place a tag names.
pub open spec fn tag_index(t: PlaceTag) -> nat {
    match t {
        PlaceTag::Fa => 0,
        PlaceTag::Fe => 1,
        PlaceTag::Fi => 2,
        PlaceTag::Fo => 3,
        PlaceTag::Fu => 4,
    }
}

/// `pre`, extended to length `k` by the outer arguments at the same places,
/// or by the unspecified term where the outer arguments end.
pub open spec fn pad_args(pre: Seq<Term>, outer: Seq<Term>, k: nat) -> Seq<Term> {
    if k <= pre.len() {
        pre
    } else {
        pre + Seq::new(
            (k - pre.len()) as nat,
            |j: int| if pre.len() + j < outer.len() { outer[pre.len() + j] } else { Term::Zoe },
        )
    }
}

/// `[Var(v), Zoe, ...]` of length `k` (at least one).
pub open spec fn restrictor_args(v: Seq<char>, k: nat) -> Seq<Term> {
    seq![Term::Var(v)] + Seq::new(
        if k > 1 { (k - 1) as nat } else { 0 },
        |j: int| Term::Zoe,
    )
}

/// The number of untagged slots among the first `j` places.
pub open spec fn open_slots_before(pos: Seq<Option<Term>>, j: int) -> nat
    decreases j,
{
    if j <= 0 {
        0
    } else {
        open_slots_before(pos, j - 1) + if pos[j - 1] is None { 1nat } else { 0nat }
    }
}

/// The argument vector: each place takes its tagged term, else the next
/// untagged term, else the unspecified term.
pub open spec fn merge_places(pos: Seq<Option<Term>>, untagged: Seq<Term>) -> Seq<Term> {
    Seq::new(
        pos.len(),
        |j: int|
            match pos[j] {
                Some(t) => t,
                None => {
                    let u = open_slots_before(pos, j);
                    if u < untagged.len() { untagged[u as int] } else { Term::Zoe }
                },
            },
    )
}

/// Binds `v` as the first argument of a relative clause's formula.
pub open spec fn inject(f: Formula, v: Seq<char>) -> Formula
    decreases f,
{
    match f {
        Formula::Pred(rel, args) => if args.len() == 0 {
            Formula::Pred(rel, seq![Term::Var(v)])
        } else if args[0] is Zoe {
            Formula::Pred(rel, args.update(0, Term::Var(v)))
        } else {
            Formula::Pred(rel, args)
        },
        Formula::And(l, r) => and_f(inject(*l, v), inject(*r, v)),
        Formula::Not(i) => not_f(inject(*i, v)),
        other => other,
    }
}

/// Combines the two sides of a selbri connective.
pub open spec fn connect(c: Connective, l: Formula, r: Formula) -> Formula {
    match c {
        Connective::Je => and_f(l, r),
        Connective::Ja => or_f(l, r),
        Connective::Jo => and_f(or_f(not_f(l), r), or_f(not_f(r), l)),
        Connective::Ju => and_f(or_f(l, r), not_f(and_f(l, r))),
    }
}

/// Selbri `id` applied to `args`, with fresh variables numbered from `c`.
pub open spec fn apply(
    dict: JbovlasteSchema,
    a: Arena,
    id: u32,
    args: Seq<Term>,
    c: nat,
    fuel: nat,
) -> FormOut
    decreases fuel, 0nat,
{
    if fuel == 0 || id >= a.selbris.len() {
        FormOut { form: Formula::Pred(entity_name(), args), next: c, cost: 1 }
    } else {
        let f = (fuel - 1) as nat;
        match a.selbris[id as int] {
            Selbri::Root(w) => FormOut { form: Formula::Pred(w@, args), next: c, cost: 1 },
            Selbri::Tanru(m, h) => {
                let l = apply(dict, a, m, args, c, f);
                let r = apply(dict, a, h, args, l.next, f);
                FormOut { form: and_f(l.form, r.form), next: r.next, cost: l.cost + r.cost }
            },
            Selbri::Converted(conv, i) => apply(
                dict,
                a,
                i,
                swap_first(args, conversion_index(conv)),
                c,
                f,
            ),
            Selbri::Negated(i) => {
                let o = apply(dict, a, i, args, c, f);
                FormOut { form: not_f(o.form), next: o.next, cost: o.cost }
            },
            Selbri::Grouped(i) => apply(dict, a, i, args, c, f),
            Selbri::WithArgs(core, bound) => {
                let k = selbri_arity(dict, a.selbris, core, f);
                let x1 = if args.len() > 0 { args[0] } else { Term::Zoe };
                let b = resolve_list(dict, a, bound@, 0, c, f);
                let merged = pad_args(seq![x1] + b.terms, args, k);
                let body = apply(dict, a, core, merged, b.next, f);
                let w = wrap(dict, a, b.quants, body.form, body.next, f);
                FormOut { form: w.form, next: w.next, cost: b.cost + body.cost + w.cost }
            },
            Selbri::Connected(lid, conn, rid) => {
                let l = apply(dict, a, lid, args, c, f);
                let r = apply(dict, a, rid, args, l.next, f);
                FormOut { form: connect(conn, l.form, r.form), next: r.next, cost: l.cost + r.cost }
            },
            Selbri::Compound(parts) => FormOut {
                form: Formula::Pred(
                    if parts@.len() == 0 { unknown_name() } else { parts@.last()@ },
                    args,
                ),
                next: c,
                cost: 1,
            },
        }
    }
}

/// Wraps `form` in the quantifiers of `qs`, the last one innermost: each
/// binds its variable over its description, its relative clause if any,
/// and the form so far.
pub open spec fn wrap(
    dict: JbovlasteSchema,
    a: Arena,
    qs: Seq<QuantEntry>,
    form: Formula,
    c: nat,
    fuel: nat,
) -> FormOut
    decreases fuel, qs.len(),
{
    if qs.len() == 0 || fuel == 0 {
        FormOut { form, next: c, cost: 0 }
    } else {
        let e = qs.last();
        let f = (fuel - 1) as nat;
        let d = apply(dict, a, e.desc_id, restrictor_args(e.var, selbri_arity(dict, a.selbris, e.desc_id, f)), c, f);
        let body = match e.restrictor {
            Some(r) => and_f(r, and_f(d.form, form)),
            None => and_f(d.form, form),
        };
        let rest = wrap(dict, a, qs.drop_last(), exists_f(e.var, body), d.next, fuel);
        FormOut { form: rest.form, next: rest.next, cost: d.cost + rest.cost }
    }
}

/// The sumti `ids[i..]` resolved in order.
pub open spec fn resolve_list(
    dict: JbovlasteSchema,
    a: Arena,
    ids: Seq<u32>,
    i: nat,
    c: nat,
    fuel: nat,
) -> TermsOut
    decreases fuel, ids.len() - i,
{
    if i >= ids.len() || fuel == 0 {
        TermsOut { terms: seq![], quants: seq![], next: c, cost: 0 }
    } else {
        let t = resolve_id(dict, a, ids[i as int], c, (fuel - 1) as nat);
        let rest = resolve_list(dict, a, ids, i + 1, t.next, fuel);
        TermsOut {
            terms: seq![t.term] + rest.terms,
            quants: t.quants + rest.quants,
            next: rest.next,
            cost: t.cost + rest.cost,
        }
    }
}

/// Sumti `id` resolved; an index outside the arena is the unspecified term.
pub open spec fn resolve_id(dict: JbovlasteSchema, a: Arena, id: u32, c: nat, fuel: nat) -> TermOut
    decreases fuel, 0nat,
{
    if fuel == 0 || id >= a.sumtis.len() {
        TermOut { term: Term::Zoe, quants: seq![], next: c, cost: 0 }
    } else {
        resolve(dict, a, a.sumtis[id as int], c, (fuel - 1) as nat)
    }
}

/// A sumti as a term, with the quantifiers it introduces.
pub open spec fn resolve(dict: JbovlasteSchema, a: Arena, s: Sumti, c: nat, fuel: nat) -> TermOut
    decreases fuel, 0nat,
{
    if fuel == 0 {
        TermOut { term: Term::Zoe, quants: seq![], next: c, cost: 0 }
    } else {
        let f = (fuel - 1) as nat;
        match s {
            Sumti::ProSumti(p) => TermOut {
                term: if is_bare_variable(p@) { Term::Var(p@) } else { Term::Const(p@) },
                quants: seq![],
                next: c,
                cost: 1,
            },
            Sumti::Name(n) => TermOut { term: Term::Const(n@), quants: seq![], next: c, cost: 1 },
            Sumti::QuotedLiteral(q) => TermOut {
                term: Term::Const(q@),
                quants: seq![],
                next: c,
                cost: 1,
            },
            Sumti::Unspecified => TermOut { term: Term::Zoe, quants: seq![], next: c, cost: 0 },
            Sumti::Description(g, d) => if g is Lo {
                TermOut {
                    term: Term::Var(fresh_name(c)),
                    quants: seq![QuantEntry { var: fresh_name(c), desc_id: d, restrictor: None }],
                    next: c + 1,
                    cost: 1,
                }
            } else {
                TermOut { term: Term::Desc(selbri_head(a.selbris, d, f)), quants: seq![], next: c, cost: 1 }
            },
            Sumti::Tagged(_, inner) => resolve_id(dict, a, inner, c, f),
            Sumti::Restricted(inner, rc) => {
                let t = resolve_id(dict, a, inner, c, f);
                if rc.body_sentence >= a.sentences.len() {
                    t
                } else {
                    let body = compile(dict, a, a.sentences[rc.body_sentence as int], t.next, f);
                    let quants = if t.quants.len() == 0 {
                        t.quants
                    } else {
                        let last = t.quants.last();
                        t.quants.update(
                            t.quants.len() - 1,
                            QuantEntry {
                                var: last.var,
                                desc_id: last.desc_id,
                                restrictor: Some(inject(body.form, last.var)),
                            },
                        )
                    };
                    TermOut { term: t.term, quants, next: body.next, cost: t.cost + body.cost }
                }
            },
        }
    }
}

/// Place assignment of one sumti `id` for a relation of arity `n`.
pub open spec fn place_step(dict: JbovlasteSchema, a: Arena, id: u32, n: nat, acc: Places, fuel: nat) -> Places
    decreases fuel, 0nat,
{
    if fuel == 0 || id >= a.sumtis.len() {
        acc
    } else {
        let f = (fuel - 1) as nat;
        match a.sumtis[id as int] {
            Sumti::Tagged(tag, inner) => {
                let t = resolve_id(dict, a, inner, acc.next, f);
                Places {
                    positioned: if tag_index(tag) < n {
                        acc.positioned.update(tag_index(tag) as int, Some(t.term))
                    } else {
                        acc.positioned
                    },
                    untagged: acc.untagged,
                    quants: acc.quants + t.quants,
                    next: t.next,
                    cost: acc.cost + t.cost,
                }
            },
            other => {
                let t = resolve(dict, a, other, acc.next, f);
                Places {
                    positioned: acc.positioned,
                    untagged: acc.untagged.push(t.term),
                    quants: acc.quants + t.quants,
                    next: t.next,
                    cost: acc.cost + t.cost,
                }
            },
        }
    }
}

/// Place assignment over the sumti `ids[i..]` for a relation of arity `n`.
pub open spec fn place(
    dict: JbovlasteSchema,
    a: Arena,
    ids: Seq<u32>,
    i: nat,
    n: nat,
    acc: Places,
    fuel: nat,
) -> Places
    decreases fuel, ids.len() - i,
{
    if i >= ids.len() || fuel == 0 {
        acc
    } else {
        place(dict, a, ids, i + 1, n, place_step(dict, a, ids[i as int], n, acc, fuel), fuel)
    }
}

/// The arguments of a sentence of arity `n`, before quantifiers are wrapped.
pub open spec fn sentence_places(dict: JbovlasteSchema, a: Arena, b: Bridi, n: nat, c: nat, fuel: nat) -> Places
    decreases fuel, b.head_terms@.len() + b.tail_terms@.len() + 1,
{
    place(
        dict,
        a,
        b.head_terms@ + b.tail_terms@,
        0,
        n,
        Places {
            positioned: Seq::new(n, |j: int| None::<Term>),
            untagged: seq![],
            quants: seq![],
            next: c,
            cost: 0,
        },
        fuel,
    )
}

/// A sentence as a closed formula.
pub open spec fn compile(dict: JbovlasteSchema, a: Arena, b: Bridi, c: nat, fuel: nat) -> FormOut
    decreases fuel, 1nat,
{
    if fuel == 0 {
        FormOut { form: Formula::Pred(entity_name(), seq![]), next: c, cost: 1 }
    } else {
        let f = (fuel - 1) as nat;
        let n = selbri_arity(dict, a.selbris, b.relation, f);
        let p = sentence_places(dict, a, b, n, c, f);
        let args = merge_places(p.positioned, p.untagged);
        let body = apply(dict, a, b.relation, args, p.next, f);
        let w = wrap(dict, a, p.quants, body.form, body.next, f);
        FormOut {
            form: if b.negated { not_f(w.form) } else { w.form },
            next: w.next,
            cost: p.cost + body.cost + w.cost,
        }
    }
}

/// Sentence `b` compiled at the depth budget of its arena.
#[verifier::opaque]
pub open spec fn sentence_out(dict: JbovlasteSchema, a: Arena, b: Bridi, c: nat) -> FormOut {
    compile(dict, a, b, c, depth_budget(a))
}

/// The formulas of the first `k` sentences of arena `a`, compiled in order
/// from counter `c`, with the counter after them and the lookups made.
pub open spec fn buffer_forms(dict: JbovlasteSchema, a: Arena, c: nat, k: nat) -> (Seq<Formula>, nat, nat)
    decreases k,
{
    if k == 0 || k > a.sentences.len() {
        (seq![], c, 0)
    } else {
        let p = buffer_forms(dict, a, c, (k - 1) as nat);
        let o = sentence_out(dict, a, a.sentences[k - 1], p.1);
        (p.0.push(o.form), o.next, p.2 + o.cost)
    }
}

pub proof fn lemma_buffer_cost_grows(dict: JbovlasteSchema, a: Arena, c: nat, k: nat, n: nat)
    requires
        k <= n <= a.sentences.len(),
    ensures
        buffer_forms(dict, a, c, k).2 <= buffer_forms(dict, a, c, n).2,
        buffer_forms(dict, a, c, n).0.len() == n,
    decreases n,
{
    if n > 0 {
        if k < n {
            lemma_buffer_cost_grows(dict, a, c, k, (n - 1) as nat);
        } else {
            lemma_buffer_cost_grows(dict, a, c, (n - 1) as nat, (n - 1) as nat);
        }
    }
}

} // verus!
