//! The semantic compiler: sentences of the arena to closed formulas.
use vstd::prelude::*;
use crate::logic::Term;
use crate::ast::{Arena, AstBuffer, Bridi, RelativeClause, Connective, Conversion, Gadri, PlaceTag, Selbri, Sumti};
use crate::interner::{get_or_intern, interned_strings, key_space, new_rodeo, rodeo_len};
use crate::lexicon::{text_eq, JbovlasteSchema};
use crate::logic::{
    and_f, not_f, or_f,
    copy_form, copy_terms, extends, form_ok, form_view, lemma_form_view_stable,
    lemma_terms_view_stable, term_ok, term_view, terms_ok, terms_view, LogicalForm, LogicalTerm,
};
use crate::model::{
    apply, compile, decimal, digit_char, fresh_name, inject, merge_places, open_slots_before, place, resolve, resolve_id,
    resolve_list, place_step, restrictor_args, selbri_arity, pad_args, depth_budget, buffer_forms, lemma_buffer_cost_grows, sentence_out, entity_name, unknown_name, selbri_head, sentence_places, swap_first, wrap,
    QuantEntry, FormOut, TermOut, TermsOut, Places,
};

verus! {

/// The text of a decimal digit.
fn digit_text(d: usize) -> (r: &'static str)
    requires
        d < 10,
    ensures
        r@ == seq![digit_char(d as nat)],
{
    proof {
        reveal_strlit("0");
        reveal_strlit("1");
        reveal_strlit("2");
        reveal_strlit("3");
        reveal_strlit("4");
        reveal_strlit("5");
        reveal_strlit("6");
        reveal_strlit("7");
        reveal_strlit("8");
        reveal_strlit("9");
    }
    let r = if d == 0 {
        "0"
    } else if d == 1 {
        "1"
    } else if d == 2 {
        "2"
    } else if d == 3 {
        "3"
    } else if d == 4 {
        "4"
    } else if d == 5 {
        "5"
    } else if d == 6 {
        "6"
    } else if d == 7 {
        "7"
    } else if d == 8 {
        "8"
    } else {
        "9"
    };
    assert(r@ =~= seq![digit_char(d as nat)]);
    r
}

/// The decimal digits of `n`.
fn decimal_text(n: usize) -> (r: String)
    ensures
        r@ == decimal(n as nat),
    decreases n,
{
    if n < 10 {
        String::from_str(digit_text(n))
    } else {
        let mut s = decimal_text(n / 10);
        s.append(digit_text(n % 10));
        proof {
            assert(decimal(n as nat) == decimal((n / 10) as nat).push(digit_char((n % 10) as nat)));
        }
        assert(s@ =~= decimal(n as nat));
        s
    }
}

/// The name of the `n`-th fresh variable.
fn fresh_var_name(n: usize) -> (r: String)
    ensures
        r@ == fresh_name(n as nat),
{
    let mut s = String::from_str("_v");
    s.append(decimal_text(n).as_str());
    proof {
        reveal_strlit("_v");
    }
    assert(s@ =~= fresh_name(n as nat));
    s
}

/// A quantifier collected while resolving sumti.
pub struct QuantifierEntry {
    pub var: u32,
    pub desc_id: u32,
    pub restrictor: Option<LogicalForm>,
}

pub open spec fn quant_ok(q: QuantifierEntry, n: nat) -> bool {
    &&& q.var < n
    &&& match q.restrictor {
        Some(r) => form_ok(r, n),
        None => true,
    }
}

pub open spec fn quants_ok(qs: Seq<QuantifierEntry>, n: nat) -> bool {
    forall|i: int| 0 <= i < qs.len() ==> quant_ok(#[trigger] qs[i], n)
}

pub open spec fn quant_view(q: QuantifierEntry, names: Seq<Seq<char>>) -> QuantEntry {
    QuantEntry {
        var: names[q.var as int],
        desc_id: q.desc_id,
        restrictor: match q.restrictor {
            Some(r) => Some(form_view(r, names)),
            None => None,
        },
    }
}

pub open spec fn quants_view(qs: Seq<QuantifierEntry>, names: Seq<Seq<char>>) -> Seq<QuantEntry> {
    qs.map_values(|q: QuantifierEntry| quant_view(q, names))
}

pub proof fn lemma_quants_view_stable(qs: Seq<QuantifierEntry>, small: Seq<Seq<char>>, big: Seq<Seq<char>>)
    requires
        quants_ok(qs, small.len()),
        extends(big, small),
    ensures
        quants_view(qs, small) == quants_view(qs, big),
        quants_ok(qs, big.len()),
{
    assert forall|i: int| 0 <= i < qs.len() implies quant_view(qs[i], small) == quant_view(qs[i], big)
        && quant_ok(qs[i], big.len()) by {
        assert(quant_ok(qs[i], small.len()));
        match qs[i].restrictor {
            Some(r) => lemma_form_view_stable(r, small, big),
            None => {},
        }
    }
    assert(quants_view(qs, small) =~= quants_view(qs, big));
}

/// The arenas of a buffer as sequences.
pub open spec fn arena_of(selbris: &[Selbri], sumtis: &[Sumti], sentences: &[Bridi]) -> Arena {
    Arena { selbris: selbris@, sumtis: sumtis@, sentences: sentences@ }
}

pub open spec fn opt_term_view(o: Option<LogicalTerm>, names: Seq<Seq<char>>) -> Option<Term> {
    match o {
        Some(t) => Some(term_view(t, names)),
        None => None,
    }
}

pub open spec fn slots_view(ps: Seq<Option<LogicalTerm>>, names: Seq<Seq<char>>) -> Seq<Option<Term>> {
    ps.map_values(|o: Option<LogicalTerm>| opt_term_view(o, names))
}

pub proof fn lemma_slots_view_stable(ps: Seq<Option<LogicalTerm>>, small: Seq<Seq<char>>, big: Seq<Seq<char>>)
    requires
        slots_ok(ps, small.len()),
        extends(big, small),
    ensures
        slots_view(ps, small) == slots_view(ps, big),
        slots_ok(ps, big.len()),
{
    assert forall|i: int| 0 <= i < ps.len() implies opt_term_view(ps[i], small) == opt_term_view(ps[i], big) by {
        match ps[i] {
            Some(t) => {},
            None => {},
        }
    }
    assert(slots_view(ps, small) =~= slots_view(ps, big));
}

pub open spec fn slots_ok(ps: Seq<Option<LogicalTerm>>, n: nat) -> bool {
    forall|i: int| 0 <= i < ps.len() ==> match #[trigger] ps[i] {
        Some(t) => term_ok(t, n),
        None => true,
    }
}

/// Place assignment only adds to the lookups counted so far.
pub proof fn lemma_place_cost_grows(
    dict: JbovlasteSchema,
    a: Arena,
    ids: Seq<u32>,
    i: nat,
    n: nat,
    acc: Places,
    fuel: nat,
)
    ensures
        acc.cost <= place(dict, a, ids, i, n, acc, fuel).cost,
    decreases ids.len() - i,
{
    if i < ids.len() && fuel > 0 {
        lemma_place_cost_grows(dict, a, ids, i + 1, n, place_step(dict, a, ids[i as int], n, acc, fuel), fuel);
    }
}

/// The argument vector: each place takes its tagged term, else the next
/// untagged term, else the unspecified term.
#[verifier::loop_isolation(false)]
fn merge_args(
    positioned: &Vec<Option<LogicalTerm>>,
    untagged: &Vec<LogicalTerm>,
    Ghost(names1): Ghost<Seq<Seq<char>>>,
) -> (args: Vec<LogicalTerm>)
    requires
        slots_ok(positioned@, names1.len()),
        terms_ok(untagged@, names1.len()),
    ensures
        terms_ok(args@, names1.len()),
        terms_view(args@, names1) == merge_places(slots_view(positioned@, names1), terms_view(untagged@, names1)),
{
    let ghost sv = slots_view(positioned@, names1);
    let ghost uv = terms_view(untagged@, names1);
        let mut args: Vec<LogicalTerm> = Vec::new();
        let mut u: usize = 0;
        let mut j: usize = 0;
        while j < positioned.len()
            invariant
                j <= positioned@.len(),
                u <= j,
                slots_ok(positioned@, names1.len()),
                terms_ok(untagged@, names1.len()),
                u == open_slots_before(sv, j as int),
                terms_ok(args@, names1.len()),
                terms_view(args@, names1) == merge_places(sv, uv).subrange(0, j as int),
            decreases positioned.len() - j,
        {
            let ghost before = args@;
            match positioned[j] {
                Some(t) => {
                    args.push(t);
                },
                None => {
                    if u < untagged.len() {
                        args.push(untagged[u]);
                    } else {
                        args.push(LogicalTerm::Unspecified);
                    }
                    u = u + 1;
                },
            }
            proof {
                assert(terms_view(args@, names1) =~= terms_view(before, names1).push(merge_places(sv, uv)[j as int]));
                assert(merge_places(sv, uv).subrange(0, j + 1) =~= merge_places(sv, uv).subrange(0, j as int).push(merge_places(sv, uv)[j as int]));
                assert(terms_ok(args@, names1.len())) by {
                    assert(forall|q: int| 0 <= q < before.len() ==> args@[q] == before[q]);
                }
            }
            j = j + 1;
        }
        proof {
            assert(merge_places(sv, uv).subrange(0, j as int) =~= merge_places(sv, uv));
        }
    args
}

/// Compiles sentences to formulas, interning every name it emits and
/// numbering the fresh variables it introduces.
pub struct SemanticCompiler {
    pub interner: lasso::Rodeo,
    pub var_counter: usize,
    pub schema: JbovlasteSchema,
}

impl SemanticCompiler {
    /// The interned strings: handle `k` stands for entry `k`.
    pub open spec fn names(&self) -> Seq<Seq<char>> {
        interned_strings(self.interner)
    }

    /// There is room for `cost` more symbol lookups and fresh variables.
    pub open spec fn has_room(&self, cost: nat) -> bool {
        &&& self.names().len() + cost <= key_space()
        &&& self.var_counter + cost <= usize::MAX
    }

    /// `self` is `old` after at most `cost` symbol lookups, with its variable
    /// counter at `next`.
    pub open spec fn grown_from(&self, old: &SemanticCompiler, cost: nat, next: nat) -> bool {
        &&& self.schema == old.schema
        &&& extends(self.names(), old.names())
        &&& self.names().len() <= old.names().len() + cost
        &&& self.var_counter == next
        &&& old.var_counter <= next
        &&& next <= old.var_counter + cost
    }

    /// A compiler with an empty interner, a zero counter and the given table.
    pub fn new(schema: JbovlasteSchema) -> (r: Self)
        ensures
            r.names() == Seq::<Seq<char>>::empty(),
            r.var_counter == 0,
            r.schema == schema,
    {
        SemanticCompiler { interner: new_rodeo(), var_counter: 0, schema }
    }

    /// The handle of `s`.
    fn sym(&mut self, s: &str) -> (k: u32)
        requires
            old(self).names().len() < key_space(),
        ensures
            final(self).grown_from(old(self), 1, old(self).var_counter as nat),
            k < final(self).names().len(),
            final(self).names()[k as int] == s@,
    {
        let k = get_or_intern(&mut self.interner, s);
        k
    }

    /// A new variable `_vN`, where `N` is the counter, which then advances.
    fn fresh_var(&mut self) -> (k: u32)
        requires
            old(self).names().len() < key_space(),
            old(self).var_counter < usize::MAX,
        ensures
            final(self).grown_from(old(self), 1, (old(self).var_counter + 1) as nat),
            k < final(self).names().len(),
            final(self).names()[k as int] == fresh_name(old(self).var_counter as nat),
    {
        let name = fresh_var_name(self.var_counter);
        let k = get_or_intern(&mut self.interner, name.as_str());
        self.var_counter = self.var_counter + 1;
        k
    }

    /// The arity of the structural head of selbri `id`.
    fn get_selbri_arity(&self, id: u32, selbris: &[Selbri], fuel: usize) -> (r: usize)
        ensures
            r as nat == selbri_arity(self.schema, selbris@, id, fuel as nat),
        decreases fuel,
    {
        if fuel == 0 || id as usize >= selbris.len() {
            return 2;
        }
        match &selbris[id as usize] {
            Selbri::Root(g) => self.schema.get_arity_or_default(g.as_str()),
            Selbri::Tanru(_, h) => self.get_selbri_arity(*h, selbris, fuel - 1),
            Selbri::Converted(_, i) => self.get_selbri_arity(*i, selbris, fuel - 1),
            Selbri::Negated(i) => self.get_selbri_arity(*i, selbris, fuel - 1),
            Selbri::Grouped(i) => self.get_selbri_arity(*i, selbris, fuel - 1),
            Selbri::WithArgs(c, _) => self.get_selbri_arity(*c, selbris, fuel - 1),
            Selbri::Connected(l, _, _) => self.get_selbri_arity(*l, selbris, fuel - 1),
            Selbri::Compound(parts) => if parts.len() == 0 {
                2
            } else {
                self.schema.get_arity_or_default(parts[parts.len() - 1].as_str())
            },
        }
    }

    /// The word at the structural head of selbri `id`.
    fn get_selbri_head_name<'a>(&self, id: u32, selbris: &'a [Selbri], fuel: usize) -> (r: &'a str)
        ensures
            r@ == selbri_head(selbris@, id, fuel as nat),
        decreases fuel,
    {
        proof {
            reveal_strlit("entity");
        }
        if fuel == 0 || id as usize >= selbris.len() {
            return "entity";
        }
        match &selbris[id as usize] {
            Selbri::Root(g) => g.as_str(),
            Selbri::Tanru(_, h) => self.get_selbri_head_name(*h, selbris, fuel - 1),
            Selbri::Converted(_, i) => self.get_selbri_head_name(*i, selbris, fuel - 1),
            Selbri::Negated(i) => self.get_selbri_head_name(*i, selbris, fuel - 1),
            Selbri::Grouped(i) => self.get_selbri_head_name(*i, selbris, fuel - 1),
            Selbri::WithArgs(c, _) => self.get_selbri_head_name(*c, selbris, fuel - 1),
            Selbri::Connected(l, _, _) => self.get_selbri_head_name(*l, selbris, fuel - 1),
            Selbri::Compound(parts) => if parts.len() == 0 {
                "entity"
            } else {
                parts[parts.len() - 1].as_str()
            },
        }
    }

    /// Binds `var` as the first argument of a relative clause's formula.
    fn inject_variable(form: LogicalForm, var: u32, Ghost(names): Ghost<Seq<Seq<char>>>) -> (r: LogicalForm)
        requires
            form_ok(form, names.len()),
            var < names.len(),
        ensures
            form_ok(r, names.len()),
            form_view(r, names) == inject(form_view(form, names), names[var as int]),
        decreases form,
    {
        match form {
            LogicalForm::Predicate { relation, args } => {
                let mut args = args;
                let ghost old_args = args@;
                if args.len() == 0 {
                    args.push(LogicalTerm::Variable(var));
                    assert(terms_view(args@, names) =~= seq![term_view(LogicalTerm::Variable(var), names)]);
                } else if matches!(args[0], LogicalTerm::Unspecified) {
                    args.set(0, LogicalTerm::Variable(var));
                    assert(terms_view(args@, names) =~= terms_view(old_args, names).update(
                        0,
                        term_view(LogicalTerm::Variable(var), names),
                    ));
                } else {
                    assert(!(terms_view(old_args, names)[0] is Zoe));
                }
                LogicalForm::Predicate { relation, args }
            },
            LogicalForm::And(l, r) => LogicalForm::And(
                Box::new(Self::inject_variable(*l, var, Ghost(names))),
                Box::new(Self::inject_variable(*r, var, Ghost(names))),
            ),
            LogicalForm::Not(i) => LogicalForm::Not(Box::new(Self::inject_variable(*i, var, Ghost(names)))),
            other => other,
        }
    }

    pub open spec fn apply_out(&self, a: Arena, id: u32, args: Seq<LogicalTerm>, fuel: nat) -> FormOut {
        apply(self.schema, a, id, terms_view(args, self.names()), self.var_counter as nat, fuel)
    }

    pub open spec fn wrap_out(
        &self,
        a: Arena,
        qs: Seq<QuantifierEntry>,
        form: LogicalForm,
        fuel: nat,
    ) -> FormOut {
        wrap(
            self.schema,
            a,
            quants_view(qs, self.names()),
            form_view(form, self.names()),
            self.var_counter as nat,
            fuel,
        )
    }

    pub open spec fn resolve_out(&self, a: Arena, s: Sumti, fuel: nat) -> TermOut {
        resolve(self.schema, a, s, self.var_counter as nat, fuel)
    }

    pub open spec fn resolve_id_out(&self, a: Arena, id: u32, fuel: nat) -> TermOut {
        resolve_id(self.schema, a, id, self.var_counter as nat, fuel)
    }

    pub open spec fn resolve_list_out(&self, a: Arena, ids: Seq<u32>, fuel: nat) -> TermsOut {
        resolve_list(self.schema, a, ids, 0, self.var_counter as nat, fuel)
    }

    pub open spec fn places_out(&self, a: Arena, b: Bridi, n: nat, fuel: nat) -> Places {
        sentence_places(self.schema, a, b, n, self.var_counter as nat, fuel)
    }

    pub open spec fn compile_out(&self, a: Arena, b: Bridi, fuel: nat) -> FormOut {
        compile(self.schema, a, b, self.var_counter as nat, fuel)
    }

    /// Selbri `id` applied to `args`.
    #[verifier::loop_isolation(false)]
    fn apply_selbri(
        &mut self,
        id: u32,
        args: &Vec<LogicalTerm>,
        selbris: &[Selbri],
        sumtis: &[Sumti],
        sentences: &[Bridi],
        fuel: usize,
    ) -> (r: LogicalForm)
        requires
            terms_ok(args@, old(self).names().len()),
            old(self).has_room(old(self).apply_out(arena_of(selbris, sumtis, sentences), id, args@, fuel as nat).cost),
        ensures
            ({
                let o = old(self).apply_out(arena_of(selbris, sumtis, sentences), id, args@, fuel as nat);
                &&& final(self).grown_from(old(self), o.cost, o.next)
                &&& form_ok(r, final(self).names().len())
                &&& form_view(r, final(self).names()) == o.form
            }),
        decreases fuel, 0nat,
    {
        let ghost a = arena_of(selbris, sumtis, sentences);
        let ghost names0 = self.names();
        let ghost argv = terms_view(args@, names0);
        proof {
            reveal_strlit("entity");
            reveal_strlit("unknown");
            assert("entity"@ =~= entity_name());
            assert("unknown"@ =~= unknown_name());
        }
        if fuel == 0 || id as usize >= selbris.len() {
            let rel = self.sym("entity");
            proof {
                lemma_terms_view_stable(args@, names0, self.names());
            }
            return LogicalForm::Predicate { relation: rel, args: copy_terms(args) };
        }
        let f = fuel - 1;
        match &selbris[id as usize] {
            Selbri::Root(g) => {
                let rel = self.sym(g.as_str());
                proof {
                    lemma_terms_view_stable(args@, names0, self.names());
                }
                LogicalForm::Predicate { relation: rel, args: copy_terms(args) }
            },
            Selbri::Compound(parts) => {
                let rel = if parts.len() == 0 {
                    self.sym("unknown")
                } else {
                    self.sym(parts[parts.len() - 1].as_str())
                };
                proof {
                    lemma_terms_view_stable(args@, names0, self.names());
                }
                LogicalForm::Predicate { relation: rel, args: copy_terms(args) }
            },
            Selbri::Tanru(m, h) => {
                let left = self.apply_selbri(*m, args, selbris, sumtis, sentences, f);
                let ghost names1 = self.names();
                proof {
                    lemma_terms_view_stable(args@, names0, names1);
                }
                let right = self.apply_selbri(*h, args, selbris, sumtis, sentences, f);
                proof {
                    lemma_form_view_stable(left, names1, self.names());
                }
                LogicalForm::And(Box::new(left), Box::new(right))
            },
            Selbri::Connected(l, conn, rr) => {
                let left = self.apply_selbri(*l, args, selbris, sumtis, sentences, f);
                let ghost names1 = self.names();
                proof {
                    lemma_terms_view_stable(args@, names0, names1);
                }
                let right = self.apply_selbri(*rr, args, selbris, sumtis, sentences, f);
                proof {
                    lemma_form_view_stable(left, names1, self.names());
                }
                match conn {
                    Connective::Je => LogicalForm::And(Box::new(left), Box::new(right)),
                    Connective::Ja => LogicalForm::Or(Box::new(left), Box::new(right)),
                    Connective::Jo => {
                        let ghost n2 = self.names();
                        let ghost lv = form_view(left, n2);
                        let ghost rv = form_view(right, n2);
                        let lc = copy_form(&left);
                        let rc = copy_form(&right);
                        proof {
                            assert(form_ok(lc, n2.len()) && form_view(lc, n2) == lv);
                            assert(form_ok(rc, n2.len()) && form_view(rc, n2) == rv);
                        }
                        let not_l = LogicalForm::Not(Box::new(lc));
                        let not_r = LogicalForm::Not(Box::new(rc));
                        proof {
                            assert(form_ok(not_l, n2.len()));
                            assert(form_ok(not_r, n2.len()));
                            assert(form_view(not_l, n2) == not_f(lv));
                            assert(form_view(not_r, n2) == not_f(rv));
                        }
                        let o1 = LogicalForm::Or(Box::new(not_l), Box::new(right));
                        let o2 = LogicalForm::Or(Box::new(not_r), Box::new(left));
                        proof {
                            assert(form_ok(o1, n2.len()));
                            assert(form_ok(o2, n2.len()));
                            assert(form_view(o1, n2) == or_f(not_f(lv), rv));
                            assert(form_view(o2, n2) == or_f(not_f(rv), lv));
                        }
                        LogicalForm::And(Box::new(o1), Box::new(o2))
                    },
                    Connective::Ju => {
                        let ghost n2 = self.names();
                        let ghost lv = form_view(left, n2);
                        let ghost rv = form_view(right, n2);
                        let lc = copy_form(&left);
                        let rc = copy_form(&right);
                        proof {
                            assert(form_ok(lc, n2.len()) && form_view(lc, n2) == lv);
                            assert(form_ok(rc, n2.len()) && form_view(rc, n2) == rv);
                        }
                        let either = LogicalForm::Or(Box::new(lc), Box::new(rc));
                        let conj = LogicalForm::And(Box::new(left), Box::new(right));
                        proof {
                            assert(form_ok(conj, n2.len()));
                            assert(form_view(conj, n2) == and_f(lv, rv));
                        }
                        let both = LogicalForm::Not(Box::new(conj));
                        proof {
                            assert(form_ok(either, n2.len()));
                            assert(form_ok(both, n2.len()));
                            assert(form_view(either, n2) == or_f(lv, rv));
                            assert(form_view(both, n2) == not_f(and_f(lv, rv)));
                        }
                        LogicalForm::And(Box::new(either), Box::new(both))
                    },
                }
            },
            Selbri::Converted(conv, inner) => {
                let j: usize = match conv {
                    Conversion::Se => 1,
                    Conversion::Te => 2,
                    Conversion::Ve => 3,
                    Conversion::Xe => 4,
                };
                let mut permuted = copy_terms(args);
                if j < permuted.len() {
                    let t0 = permuted[0];
                    let tj = permuted[j];
                    permuted.set(0, tj);
                    permuted.set(j, t0);
                }
                proof {
                    assert(terms_view(permuted@, names0) =~= swap_first(argv, j as int));
                    assert forall|k: int| 0 <= k < permuted@.len() implies term_ok(#[trigger] permuted@[k], names0.len()) by {
                        if j < args@.len() {
                            assert(permuted@[k] == args@[k] || permuted@[k] == args@[0] || permuted@[k] == args@[j as int]);
                        }
                    }
                }
                self.apply_selbri(*inner, &permuted, selbris, sumtis, sentences, f)
            },
            Selbri::Negated(inner) => {
                let body = self.apply_selbri(*inner, args, selbris, sumtis, sentences, f);
                LogicalForm::Not(Box::new(body))
            },
            Selbri::Grouped(inner) => self.apply_selbri(*inner, args, selbris, sumtis, sentences, f),
            Selbri::WithArgs(core, bound) => {
                let k = self.get_selbri_arity(*core, selbris, f);
                let mut merged: Vec<LogicalTerm> = Vec::new();
                let x1 = if args.len() > 0 { args[0] } else { LogicalTerm::Unspecified };
                merged.push(x1);
                let (bterms, bquants) = self.resolve_bound(bound, selbris, sumtis, sentences, f);
                let ghost names1 = self.names();
                proof {
                    lemma_terms_view_stable(args@, names0, names1);
                }
                let mut i: usize = 0;
                while i < bterms.len()
                    invariant
                        i <= bterms.len(),
                        merged@ == seq![x1] + bterms@.subrange(0, i as int),
                    decreases bterms.len() - i,
                {
                    merged.push(bterms[i]);
                    i = i + 1;
                    assert(merged@ =~= seq![x1] + bterms@.subrange(0, i as int));
                }
                assert(bterms@.subrange(0, bterms@.len() as int) =~= bterms@);
                let ghost pre = merged@;
                while merged.len() < k
                    invariant
                        pre.len() <= merged@.len(),
                        merged@.len() <= if pre.len() >= k { pre.len() } else { k as nat },
                        merged@.subrange(0, pre.len() as int) == pre,
                        forall|q: int| pre.len() <= q < merged@.len() ==> #[trigger] merged@[q] == (if q < args@.len() { args@[q] } else { LogicalTerm::Unspecified }),
                    decreases k - merged.len(),
                {
                    let q = merged.len();
                    if q < args.len() {
                        merged.push(args[q]);
                    } else {
                        merged.push(LogicalTerm::Unspecified);
                    }
                }
                proof {
                    assert(pre == seq![x1] + bterms@);
                    assert(terms_ok(args@, names1.len()));
                    assert forall|q: int| 0 <= q < merged@.len() implies term_ok(#[trigger] merged@[q], names1.len()) by {
                        if q == 0 {
                            assert(merged@[0] == pre[0]);
                        } else if q < pre.len() {
                            assert(merged@[q] == pre[q]);
                            assert(pre[q] == bterms@[q - 1]);
                        } else if q < args@.len() {
                            assert(term_ok(args@[q], names1.len()));
                        }
                    }
                    let x1v = if argv.len() > 0 { argv[0] } else { Term::Zoe };
                    assert(term_view(x1, names1) == x1v);
                    let prev = seq![x1v] + terms_view(bterms@, names1);
                    assert(terms_view(pre, names1) =~= prev);
                    assert forall|q: int| 0 <= q < merged@.len() implies #[trigger] terms_view(merged@, names1)[q] == pad_args(prev, argv, k as nat)[q] by {
                        if q < pre.len() {
                            assert(merged@[q] == pre[q]);
                        }
                    }
                    assert(terms_view(merged@, names1) =~= pad_args(prev, argv, k as nat));
                }
                let body = self.apply_selbri(*core, &merged, selbris, sumtis, sentences, f);
                proof {
                    lemma_quants_view_stable(bquants@, names1, self.names());
                }
                self.wrap_quantifiers(bquants, body, selbris, sumtis, sentences, f)
            },
        }
    }

    /// `form` under the quantifiers of `quants`, the last one innermost.
    #[verifier::loop_isolation(false)]
    fn wrap_quantifiers(
        &mut self,
        quants: Vec<QuantifierEntry>,
        form: LogicalForm,
        selbris: &[Selbri],
        sumtis: &[Sumti],
        sentences: &[Bridi],
        fuel: usize,
    ) -> (r: LogicalForm)
        requires
            quants_ok(quants@, old(self).names().len()),
            form_ok(form, old(self).names().len()),
            old(self).has_room(old(self).wrap_out(arena_of(selbris, sumtis, sentences), quants@, form, fuel as nat).cost),
        ensures
            ({
                let o = old(self).wrap_out(arena_of(selbris, sumtis, sentences), quants@, form, fuel as nat);
                &&& final(self).grown_from(old(self), o.cost, o.next)
                &&& form_ok(r, final(self).names().len())
                &&& form_view(r, final(self).names()) == o.form
            }),
        decreases fuel, 0nat,
    {
        let ghost a = arena_of(selbris, sumtis, sentences);
        let ghost total = self.wrap_out(a, quants@, form, fuel as nat);
        let ghost names0 = self.names();
        let ghost c0 = self.var_counter as nat;
        if fuel == 0 {
            return form;
        }
        let mut quants = quants;
        let mut form = form;
        let ghost mut spent: nat = 0;
        while quants.len() > 0
            invariant
                fuel > 0,
                quants_ok(quants@, self.names().len()),
                form_ok(form, self.names().len()),
                self.schema == old(self).schema,
                extends(self.names(), names0),
                self.names().len() <= names0.len() + spent,
                self.var_counter <= c0 + spent,
                c0 <= self.var_counter,
                ({
                    let w = self.wrap_out(a, quants@, form, fuel as nat);
                    &&& w.form == total.form
                    &&& w.next == total.next
                    &&& spent + w.cost == total.cost
                }),
                names0.len() + total.cost <= key_space(),
                c0 + total.cost <= usize::MAX,
            decreases quants.len(),
        {
            let ghost names1 = self.names();
            let ghost before = quants@;
            let e = quants.pop().unwrap();
            proof {
                assert(quants@ == before.drop_last());
                assert(e == before.last());
                assert(quant_ok(e, names1.len()));
                assert(quants_view(before, names1).drop_last() =~= quants_view(quants@, names1));
                assert(quants_view(before, names1).last() == quant_view(e, names1));
            }
            let desc_arity = self.get_selbri_arity(e.desc_id, selbris, fuel - 1);
            let mut rargs: Vec<LogicalTerm> = Vec::new();
            rargs.push(LogicalTerm::Variable(e.var));
            while rargs.len() < desc_arity
                invariant
                    rargs@.len() >= 1,
                    rargs@.len() <= if desc_arity > 1 { desc_arity as nat } else { 1 },
                    rargs@[0] == LogicalTerm::Variable(e.var),
                    forall|q: int| 1 <= q < rargs@.len() ==> #[trigger] rargs@[q] == LogicalTerm::Unspecified,
                decreases desc_arity - rargs.len(),
            {
                rargs.push(LogicalTerm::Unspecified);
            }
            proof {
                let rv = restrictor_args(names1[e.var as int], desc_arity as nat);
                assert(rargs@.len() == rv.len());
                assert forall|q: int| 0 <= q < rargs@.len() implies #[trigger] terms_view(rargs@, names1)[q] == rv[q] by {
                    if q > 0 {
                        assert(rargs@[q] == LogicalTerm::Unspecified);
                    }
                }
                assert(terms_view(rargs@, names1) =~= rv);
                assert(terms_ok(rargs@, names1.len()));
                let w = wrap(self.schema, a, quants_view(before, names1), form_view(form, names1), self.var_counter as nat, fuel as nat);
                let qe = quants_view(before, names1).last();
                assert(qe.var == names1[e.var as int]);
                assert(qe.desc_id == e.desc_id);
                assert(desc_arity as nat == selbri_arity(self.schema, a.selbris, qe.desc_id, (fuel - 1) as nat));
                let dd = apply(self.schema, a, qe.desc_id, restrictor_args(qe.var, selbri_arity(self.schema, a.selbris, qe.desc_id, (fuel - 1) as nat)), self.var_counter as nat, (fuel - 1) as nat);
                assert(dd == self.apply_out(a, e.desc_id, rargs@, (fuel - 1) as nat));
                assert(w.cost >= dd.cost);
                assert(spent + w.cost == total.cost);
            }
            let ghost dcost = self.apply_out(a, e.desc_id, rargs@, (fuel - 1) as nat).cost;
            let d = self.apply_selbri(e.desc_id, &rargs, selbris, sumtis, sentences, fuel - 1);
            let ghost names2 = self.names();
            proof {
                lemma_form_view_stable(form, names1, names2);
                lemma_quants_view_stable(quants@, names1, names2);
                if e.restrictor is Some {
                    lemma_form_view_stable(e.restrictor->Some_0, names1, names2);
                }
                spent = spent + dcost;
            }
            let ghost form1 = form;
            let ghost qv1 = quants_view(before, names1);
            let ghost dform = form_view(d, names2);
            let body = match e.restrictor {
                Some(rf) => {
                    let inner = LogicalForm::And(Box::new(d), Box::new(form));
                    assert(form_ok(inner, names2.len()));
                    assert(form_view(inner, names2) == and_f(dform, form_view(form1, names1)));
                    let bd = LogicalForm::And(Box::new(rf), Box::new(inner));
                    assert(form_ok(bd, names2.len()));
                    assert(form_view(bd, names2) == and_f(form_view(rf, names1), and_f(dform, form_view(form1, names1))));
                    bd
                },
                None => LogicalForm::And(Box::new(d), Box::new(form)),
            };
            proof {
                assert(form_ok(body, names2.len()));
                let qe = qv1.last();
                let bspec = match qe.restrictor {
                    Some(r) => and_f(r, and_f(dform, form_view(form1, names1))),
                    None => and_f(dform, form_view(form1, names1)),
                };
                assert(form_view(body, names2) == bspec);
            }
            form = LogicalForm::Exists(e.var, Box::new(body));
            proof {
                assert(e.var < names2.len());
                assert(form_ok(form, names2.len()));
                assert(quants_view(quants@, names2) == qv1.drop_last());
            }
        }
        form
    }

    /// The sumti `ids` resolved in order.
    #[verifier::loop_isolation(false)]
    fn resolve_bound(
        &mut self,
        ids: &Vec<u32>,
        selbris: &[Selbri],
        sumtis: &[Sumti],
        sentences: &[Bridi],
        fuel: usize,
    ) -> (r: (Vec<LogicalTerm>, Vec<QuantifierEntry>))
        requires
            old(self).has_room(old(self).resolve_list_out(arena_of(selbris, sumtis, sentences), ids@, fuel as nat).cost),
        ensures
            ({
                let o = old(self).resolve_list_out(arena_of(selbris, sumtis, sentences), ids@, fuel as nat);
                &&& final(self).grown_from(old(self), o.cost, o.next)
                &&& terms_ok(r.0@, final(self).names().len())
                &&& quants_ok(r.1@, final(self).names().len())
                &&& terms_view(r.0@, final(self).names()) == o.terms
                &&& quants_view(r.1@, final(self).names()) == o.quants
            }),
        decreases fuel, 0nat,
    {
        let ghost a = arena_of(selbris, sumtis, sentences);
        let ghost total = self.resolve_list_out(a, ids@, fuel as nat);
        let ghost names0 = self.names();
        let ghost c0 = self.var_counter as nat;
        let mut terms: Vec<LogicalTerm> = Vec::new();
        let mut quants: Vec<QuantifierEntry> = Vec::new();
        if fuel == 0 {
            proof {
                assert(terms_view(terms@, names0) =~= seq![]);
                assert(quants_view(quants@, names0) =~= seq![]);
            }
            return (terms, quants);
        }
        let ghost mut spent: nat = 0;
        let mut i: usize = 0;
        while i < ids.len()
            invariant
                fuel > 0,
                i <= ids.len(),
                terms_ok(terms@, self.names().len()),
                quants_ok(quants@, self.names().len()),
                self.schema == old(self).schema,
                extends(self.names(), names0),
                self.names().len() <= names0.len() + spent,
                self.var_counter <= c0 + spent,
                c0 <= self.var_counter,
                ({
                    let w = resolve_list(self.schema, a, ids@, i as nat, self.var_counter as nat, fuel as nat);
                    &&& terms_view(terms@, self.names()) + w.terms == total.terms
                    &&& quants_view(quants@, self.names()) + w.quants == total.quants
                    &&& w.next == total.next
                    &&& spent + w.cost == total.cost
                }),
                names0.len() + total.cost <= key_space(),
                c0 + total.cost <= usize::MAX,
            decreases ids.len() - i,
        {
            let ghost names1 = self.names();
            let ghost old_terms = terms@;
            let ghost old_quants = quants@;
            let ghost o = self.resolve_id_out(a, ids@[i as int], (fuel - 1) as nat);
            proof {
                let w = resolve_list(self.schema, a, ids@, i as nat, self.var_counter as nat, fuel as nat);
                let rest = resolve_list(self.schema, a, ids@, (i + 1) as nat, o.next, fuel as nat);
                assert(w.cost == o.cost + rest.cost);
                assert(w.terms == seq![o.term] + rest.terms);
                assert(w.quants == o.quants + rest.quants);
                assert(w.next == rest.next);
            }
            let (t, mut qs) = self.resolve_sumti_id(ids[i], selbris, sumtis, sentences, fuel - 1);
            let ghost names2 = self.names();
            proof {
                lemma_terms_view_stable(terms@, names1, names2);
                lemma_quants_view_stable(quants@, names1, names2);
                spent = spent + o.cost;
            }
            terms.push(t);
            quants.append(&mut qs);
            i = i + 1;
            proof {
                assert(terms_view(terms@, names2) =~= terms_view(old_terms, names2).push(o.term));
                assert(quants_view(quants@, names2) =~= quants_view(old_quants, names2) + o.quants);
                assert(terms_ok(terms@, names2.len()));
                assert(quants_ok(quants@, names2.len()));
                let w = resolve_list(self.schema, a, ids@, i as nat, self.var_counter as nat, fuel as nat);
                assert(terms_view(terms@, names2) + w.terms =~= terms_view(old_terms, names2) + (seq![o.term] + w.terms));
                assert(quants_view(quants@, names2) + w.quants =~= quants_view(old_quants, names2) + (o.quants + w.quants));
            }
        }
        proof {
            assert(terms_view(terms@, self.names()) =~= total.terms);
            assert(quants_view(quants@, self.names()) =~= total.quants);
        }
        (terms, quants)
    }

    /// Sumti `id` resolved; an index outside the arena is the unspecified term.
    fn resolve_sumti_id(
        &mut self,
        id: u32,
        selbris: &[Selbri],
        sumtis: &[Sumti],
        sentences: &[Bridi],
        fuel: usize,
    ) -> (r: (LogicalTerm, Vec<QuantifierEntry>))
        requires
            old(self).has_room(old(self).resolve_id_out(arena_of(selbris, sumtis, sentences), id, fuel as nat).cost),
        ensures
            ({
                let o = old(self).resolve_id_out(arena_of(selbris, sumtis, sentences), id, fuel as nat);
                &&& final(self).grown_from(old(self), o.cost, o.next)
                &&& term_ok(r.0, final(self).names().len())
                &&& quants_ok(r.1@, final(self).names().len())
                &&& term_view(r.0, final(self).names()) == o.term
                &&& quants_view(r.1@, final(self).names()) == o.quants
            }),
        decreases fuel, 0nat,
    {
        if fuel == 0 || id as usize >= sumtis.len() {
            let v: Vec<QuantifierEntry> = Vec::new();
            proof {
                assert(quants_view(v@, self.names()) =~= seq![]);
            }
            return (LogicalTerm::Unspecified, v);
        }
        self.resolve_sumti(&sumtis[id as usize], selbris, sumtis, sentences, fuel - 1)
    }

    /// A sumti as a term, with the quantifiers it introduces.
    #[verifier::rlimit(50)]
    fn resolve_sumti(
        &mut self,
        sumti: &Sumti,
        selbris: &[Selbri],
        sumtis: &[Sumti],
        sentences: &[Bridi],
        fuel: usize,
    ) -> (r: (LogicalTerm, Vec<QuantifierEntry>))
        requires
            old(self).has_room(old(self).resolve_out(arena_of(selbris, sumtis, sentences), *sumti, fuel as nat).cost),
        ensures
            ({
                let o = old(self).resolve_out(arena_of(selbris, sumtis, sentences), *sumti, fuel as nat);
                &&& final(self).grown_from(old(self), o.cost, o.next)
                &&& term_ok(r.0, final(self).names().len())
                &&& quants_ok(r.1@, final(self).names().len())
                &&& term_view(r.0, final(self).names()) == o.term
                &&& quants_view(r.1@, final(self).names()) == o.quants
            }),
        decreases fuel, 0nat,
    {
        let ghost a = arena_of(selbris, sumtis, sentences);
        let empty: Vec<QuantifierEntry> = Vec::new();
        proof {
            assert(quants_view(empty@, self.names()) =~= seq![]);
            reveal_strlit("da");
            reveal_strlit("de");
            reveal_strlit("di");
            assert("da"@ =~= seq!['d', 'a']);
            assert("de"@ =~= seq!['d', 'e']);
            assert("di"@ =~= seq!['d', 'i']);
        }
        if fuel == 0 {
            return (LogicalTerm::Unspecified, empty);
        }
        let f = fuel - 1;
        match sumti {
            Sumti::ProSumti(p) => {
                let k = self.sym(p.as_str());
                proof {
                    assert(quants_view(empty@, self.names()) =~= seq![]);
                }
                if text_eq(p.as_str(), "da") || text_eq(p.as_str(), "de") || text_eq(p.as_str(), "di") {
                    (LogicalTerm::Variable(k), empty)
                } else {
                    (LogicalTerm::Constant(k), empty)
                }
            },
            Sumti::Name(n) => {
                let k = self.sym(n.as_str());
                proof {
                    assert(quants_view(empty@, self.names()) =~= seq![]);
                }
                (LogicalTerm::Constant(k), empty)
            },
            Sumti::QuotedLiteral(q) => {
                let k = self.sym(q.as_str());
                proof {
                    assert(quants_view(empty@, self.names()) =~= seq![]);
                }
                (LogicalTerm::Constant(k), empty)
            },
            Sumti::Unspecified => (LogicalTerm::Unspecified, empty),
            Sumti::Description(g, d) => {
                if matches!(g, Gadri::Lo) {
                    let v = self.fresh_var();
                    let mut qs = empty;
                    qs.push(QuantifierEntry { var: v, desc_id: *d, restrictor: None });
                    proof {
                        assert(quants_view(qs@, self.names()) =~= seq![
                            QuantEntry { var: fresh_name(old(self).var_counter as nat), desc_id: *d, restrictor: None },
                        ]);
                    }
                    (LogicalTerm::Variable(v), qs)
                } else {
                    let head = self.get_selbri_head_name(*d, selbris, f);
                    let k = self.sym(head);
                    proof {
                        assert(quants_view(empty@, self.names()) =~= seq![]);
                    }
                    (LogicalTerm::Description(k), empty)
                }
            },
            Sumti::Tagged(_, inner) => self.resolve_sumti_id(*inner, selbris, sumtis, sentences, f),
            Sumti::Restricted(inner, rc) => self.resolve_restricted(*inner, *rc, selbris, sumtis, sentences, f),
        }
    }

    /// A sumti with a relative clause: the inner sumti, with the clause bound
    /// to the variable of its last quantifier.
    #[verifier::rlimit(50)]
    fn resolve_restricted(
        &mut self,
        inner: u32,
        rc: RelativeClause,
        selbris: &[Selbri],
        sumtis: &[Sumti],
        sentences: &[Bridi],
        fuel: usize,
    ) -> (r: (LogicalTerm, Vec<QuantifierEntry>))
        requires
            fuel < usize::MAX,
            old(self).has_room(old(self).resolve_out(arena_of(selbris, sumtis, sentences), Sumti::Restricted(inner, rc), (fuel + 1) as nat).cost),
        ensures
            ({
                let o = old(self).resolve_out(arena_of(selbris, sumtis, sentences), Sumti::Restricted(inner, rc), (fuel + 1) as nat);
                &&& final(self).grown_from(old(self), o.cost, o.next)
                &&& term_ok(r.0, final(self).names().len())
                &&& quants_ok(r.1@, final(self).names().len())
                &&& term_view(r.0, final(self).names()) == o.term
                &&& quants_view(r.1@, final(self).names()) == o.quants
            }),
        decreases fuel, 1nat,
    {
        let ghost names0 = self.names();
        let (t, mut qs) = self.resolve_sumti_id(inner, selbris, sumtis, sentences, fuel);
        if rc.body_sentence as usize >= sentences.len() {
            return (t, qs);
        }
        let ghost names1 = self.names();
        let body = self.compile_at(&sentences[rc.body_sentence as usize], selbris, sumtis, sentences, fuel);
        let ghost names2 = self.names();
        proof {
            lemma_quants_view_stable(qs@, names1, names2);
            lemma_terms_view_stable(seq![t], names1, names2);
            assert(term_ok(seq![t][0], names1.len()));
            assert(terms_view(seq![t], names1)[0] == term_view(t, names1));
            assert(terms_view(seq![t], names2)[0] == term_view(t, names2));
        }
        if qs.len() > 0 {
            let ghost before = qs@;
            let last = qs.pop().unwrap();
            proof {
                assert(last == before[before.len() - 1]);
                assert(quant_ok(last, names2.len()));
            }
            let injected = Self::inject_variable(body, last.var, Ghost(names2));
            qs.push(QuantifierEntry { var: last.var, desc_id: last.desc_id, restrictor: Some(injected) });
            proof {
                let lv = quant_view(last, names2);
                assert(quants_view(qs@, names2) =~= quants_view(before, names2).update(
                    before.len() - 1,
                    QuantEntry { var: lv.var, desc_id: lv.desc_id, restrictor: Some(inject(form_view(body, names2), lv.var)) },
                ));
                assert(quants_ok(qs@, names2.len()));
            }
        }
        (t, qs)
    }

    /// Place assignment of one sumti: a tagged one goes to its place, an
    /// untagged one joins the queue; its quantifiers are collected.
    #[verifier::rlimit(50)]
    fn place_one(
        &mut self,
        id: u32,
        n: usize,
        positioned: &mut Vec<Option<LogicalTerm>>,
        untagged: &mut Vec<LogicalTerm>,
        quants: &mut Vec<QuantifierEntry>,
        Ghost(spent): Ghost<nat>,
        selbris: &[Selbri],
        sumtis: &[Sumti],
        sentences: &[Bridi],
        fuel: usize,
    )
        requires
            fuel > 0,
            old(positioned)@.len() == n,
            slots_ok(old(positioned)@, old(self).names().len()),
            terms_ok(old(untagged)@, old(self).names().len()),
            quants_ok(old(quants)@, old(self).names().len()),
            ({
                let acc = Places {
                    positioned: slots_view(old(positioned)@, old(self).names()),
                    untagged: terms_view(old(untagged)@, old(self).names()),
                    quants: quants_view(old(quants)@, old(self).names()),
                    next: old(self).var_counter as nat,
                    cost: spent,
                };
                old(self).has_room((place_step(old(self).schema, arena_of(selbris, sumtis, sentences), id, n as nat, acc, fuel as nat).cost - spent) as nat)
            }),
        ensures
            ({
                let acc = Places {
                    positioned: slots_view(old(positioned)@, old(self).names()),
                    untagged: terms_view(old(untagged)@, old(self).names()),
                    quants: quants_view(old(quants)@, old(self).names()),
                    next: old(self).var_counter as nat,
                    cost: spent,
                };
                let step = place_step(old(self).schema, arena_of(selbris, sumtis, sentences), id, n as nat, acc, fuel as nat);
                let names = final(self).names();
                &&& final(self).grown_from(old(self), (step.cost - spent) as nat, step.next)
                &&& final(positioned)@.len() == n
                &&& slots_ok(final(positioned)@, names.len())
                &&& terms_ok(final(untagged)@, names.len())
                &&& quants_ok(final(quants)@, names.len())
                &&& slots_view(final(positioned)@, names) == step.positioned
                &&& terms_view(final(untagged)@, names) == step.untagged
                &&& quants_view(final(quants)@, names) == step.quants
                &&& step.cost >= spent
            }),
        decreases fuel, 1nat,
    {
        let ghost a = arena_of(selbris, sumtis, sentences);
        let ghost names1 = self.names();
        let ghost acc = Places {
            positioned: slots_view(positioned@, names1),
            untagged: terms_view(untagged@, names1),
            quants: quants_view(quants@, names1),
            next: self.var_counter as nat,
            cost: spent,
        };
        let ghost step = place_step(self.schema, a, id, n as nat, acc, fuel as nat);
        if (id as usize) < sumtis.len() {
            match &sumtis[id as usize] {
                Sumti::Tagged(tag, inner) => {
                    let ghost old_pos = positioned@;
                    let ghost old_quants = quants@;
                    let (t, mut qs) = self.resolve_sumti_id(*inner, selbris, sumtis, sentences, fuel - 1);
                    let ghost names2 = self.names();
                    proof {
                        lemma_slots_view_stable(positioned@, names1, names2);
                        lemma_terms_view_stable(untagged@, names1, names2);
                        lemma_quants_view_stable(quants@, names1, names2);
                        
                    }
                    let ghost qs0 = qs@;
                    quants.append(&mut qs);
                    let idx: usize = match tag {
                        PlaceTag::Fa => 0,
                        PlaceTag::Fe => 1,
                        PlaceTag::Fi => 2,
                        PlaceTag::Fo => 3,
                        PlaceTag::Fu => 4,
                    };
                    if idx < n {
                        positioned.set(idx, Some(t));
                    }
                    proof {
                        assert(quants_view(quants@, names2) =~= quants_view(old_quants, names2) + quants_view(qs0, names2));
                        assert(quants_view(quants@, names2) == step.quants);
                        assert(slots_view(positioned@, names2) =~= step.positioned);
                        assert(quants_ok(quants@, names2.len()));
                    }
                },
                other => {
                    let ghost old_untagged = untagged@;
                    let ghost old_quants = quants@;
                    let (t, mut qs) = self.resolve_sumti(other, selbris, sumtis, sentences, fuel - 1);
                    let ghost names2 = self.names();
                    proof {
                        lemma_slots_view_stable(positioned@, names1, names2);
                        lemma_terms_view_stable(untagged@, names1, names2);
                        lemma_quants_view_stable(quants@, names1, names2);
                        
                    }
                    let ghost qs0 = qs@;
                    quants.append(&mut qs);
                    untagged.push(t);
                    proof {
                        assert(quants_view(quants@, names2) =~= quants_view(old_quants, names2) + quants_view(qs0, names2));
                        assert(terms_view(untagged@, names2) =~= terms_view(old_untagged, names2).push(term_view(t, names2)));
                        assert(quants_ok(quants@, names2.len()));
                        assert(terms_ok(untagged@, names2.len()));
                    }
                },
            }
        }
    }

    /// Place assignment for sentence `b` of arity `n`: the tagged terms by
    /// place, the untagged terms in order, and the quantifiers collected.
    #[verifier::loop_isolation(false)]
    fn assign_places(
        &mut self,
        b: &Bridi,
        n: usize,
        selbris: &[Selbri],
        sumtis: &[Sumti],
        sentences: &[Bridi],
        fuel: usize,
    ) -> (r: (Vec<Option<LogicalTerm>>, Vec<LogicalTerm>, Vec<QuantifierEntry>))
        requires
            old(self).has_room(old(self).places_out(arena_of(selbris, sumtis, sentences), *b, n as nat, fuel as nat).cost),
        ensures
            ({
                let o = old(self).places_out(arena_of(selbris, sumtis, sentences), *b, n as nat, fuel as nat);
                let names = final(self).names();
                &&& final(self).grown_from(old(self), o.cost, o.next)
                &&& slots_ok(r.0@, names.len())
                &&& terms_ok(r.1@, names.len())
                &&& quants_ok(r.2@, names.len())
                &&& slots_view(r.0@, names) == o.positioned
                &&& terms_view(r.1@, names) == o.untagged
                &&& quants_view(r.2@, names) == o.quants
            }),
        decreases fuel, 2nat,
    {
        let ghost a = arena_of(selbris, sumtis, sentences);
        let ghost ids = b.head_terms@ + b.tail_terms@;
        let ghost total = self.places_out(a, *b, n as nat, fuel as nat);
        let ghost names0 = self.names();
        let ghost c0 = self.var_counter as nat;
        let mut positioned: Vec<Option<LogicalTerm>> = Vec::new();
        while positioned.len() < n
            invariant
                positioned@.len() <= n,
                forall|q: int| 0 <= q < positioned@.len() ==> #[trigger] positioned@[q] == None::<LogicalTerm>,
            decreases n - positioned.len(),
        {
            positioned.push(None);
        }
        let mut untagged: Vec<LogicalTerm> = Vec::new();
        let mut quants: Vec<QuantifierEntry> = Vec::new();
        proof {
            assert(slots_view(positioned@, names0) =~= Seq::new(n as nat, |j: int| None::<Term>));
            assert(terms_view(untagged@, names0) =~= seq![]);
            assert(quants_view(quants@, names0) =~= seq![]);
        }
        let mut ids_v: Vec<u32> = Vec::new();
        let mut j: usize = 0;
        while j < b.head_terms.len()
            invariant
                j <= b.head_terms@.len(),
                ids_v@ == b.head_terms@.subrange(0, j as int),
            decreases b.head_terms.len() - j,
        {
            ids_v.push(b.head_terms[j]);
            j = j + 1;
        }
        let mut j: usize = 0;
        while j < b.tail_terms.len()
            invariant
                j <= b.tail_terms@.len(),
                ids_v@ == b.head_terms@ + b.tail_terms@.subrange(0, j as int),
            decreases b.tail_terms.len() - j,
        {
            assert(b.head_terms@.subrange(0, b.head_terms@.len() as int) =~= b.head_terms@);
            ids_v.push(b.tail_terms[j]);
            j = j + 1;
            assert(ids_v@ =~= b.head_terms@ + b.tail_terms@.subrange(0, j as int));
        }
        assert(b.head_terms@.subrange(0, b.head_terms@.len() as int) =~= b.head_terms@);
        assert(b.tail_terms@.subrange(0, b.tail_terms@.len() as int) =~= b.tail_terms@);
        assert(ids_v@ =~= ids);
        let ghost mut spent: nat = 0;
        let mut i: usize = 0;
        while i < ids_v.len() && fuel > 0
            invariant
                ids_v@ == ids,
                i <= ids_v@.len(),
                positioned@.len() == n,
                slots_ok(positioned@, self.names().len()),
                terms_ok(untagged@, self.names().len()),
                quants_ok(quants@, self.names().len()),
                self.schema == old(self).schema,
                extends(self.names(), names0),
                self.names().len() <= names0.len() + spent,
                self.var_counter <= c0 + spent,
                c0 <= self.var_counter,
                place(
                    self.schema,
                    a,
                    ids,
                    i as nat,
                    n as nat,
                    Places {
                        positioned: slots_view(positioned@, self.names()),
                        untagged: terms_view(untagged@, self.names()),
                        quants: quants_view(quants@, self.names()),
                        next: self.var_counter as nat,
                        cost: spent,
                    },
                    fuel as nat,
                ) == total,
                spent <= total.cost,
                names0.len() + total.cost <= key_space(),
                c0 + total.cost <= usize::MAX,
            decreases ids_v.len() - i,
        {
            let ghost names1 = self.names();
            let ghost acc = Places {
                positioned: slots_view(positioned@, names1),
                untagged: terms_view(untagged@, names1),
                quants: quants_view(quants@, names1),
                next: self.var_counter as nat,
                cost: spent,
            };
            let ghost step = place_step(self.schema, a, ids_v@[i as int], n as nat, acc, fuel as nat);
            proof {
                lemma_place_cost_grows(self.schema, a, ids, (i + 1) as nat, n as nat, step, fuel as nat);
            }
            self.place_one(ids_v[i], n, &mut positioned, &mut untagged, &mut quants, Ghost(spent), selbris, sumtis, sentences, fuel);
            proof {
                spent = step.cost;
            }
            i = i + 1;
        }
        (positioned, untagged, quants)
    }

    /// Sentence `b` as a closed formula.
    #[verifier::loop_isolation(false)]
    #[verifier::rlimit(100)]
    fn compile_at(
        &mut self,
        b: &Bridi,
        selbris: &[Selbri],
        sumtis: &[Sumti],
        sentences: &[Bridi],
        fuel: usize,
    ) -> (r: LogicalForm)
        requires
            old(self).has_room(old(self).compile_out(arena_of(selbris, sumtis, sentences), *b, fuel as nat).cost),
        ensures
            ({
                let o = old(self).compile_out(arena_of(selbris, sumtis, sentences), *b, fuel as nat);
                &&& final(self).grown_from(old(self), o.cost, o.next)
                &&& form_ok(r, final(self).names().len())
                &&& form_view(r, final(self).names()) == o.form
            }),
        decreases fuel, 0nat,
    {
        let ghost a = arena_of(selbris, sumtis, sentences);
        proof {
            reveal_strlit("entity");
            assert("entity"@ =~= entity_name());
        }
        if fuel == 0 {
            let rel = self.sym("entity");
            let none: Vec<LogicalTerm> = Vec::new();
            proof {
                assert(terms_view(none@, self.names()) =~= seq![]);
            }
            return LogicalForm::Predicate { relation: rel, args: none };
        }
        let f = fuel - 1;
        let n = self.get_selbri_arity(b.relation, selbris, f);
        let (positioned, untagged, quants) = self.assign_places(b, n, selbris, sumtis, sentences, f);
        let ghost names1 = self.names();
        let ghost sv = slots_view(positioned@, names1);
        let ghost uv = terms_view(untagged@, names1);
        let args = merge_args(&positioned, &untagged, Ghost(names1));
        let body = self.apply_selbri(b.relation, &args, selbris, sumtis, sentences, f);
        proof {
            lemma_quants_view_stable(quants@, names1, self.names());
        }
        let w = self.wrap_quantifiers(quants, body, selbris, sumtis, sentences, f);
        if b.negated {
            LogicalForm::Not(Box::new(w))
        } else {
            w
        }
    }

    /// The number of interned symbols.
    pub fn symbol_count(&self) -> (n: usize)
        ensures
            n == self.names().len(),
    {
        rodeo_len(&self.interner)
    }

    /// The string that handle `k` stands for.
    pub fn resolve_symbol(&self, k: u32) -> (s: &str)
        requires
            (k as nat) < self.names().len(),
        ensures
            s@ == self.names()[k as int],
    {
        crate::interner::resolve(&self.interner, k)
    }

    /// Compiles sentence `bridi` of the arenas into one closed formula: the
    /// relation applied to the places the sumti fill, under the quantifiers
    /// of its `lo` descriptions, negated if the sentence is.
    pub fn compile_bridi(
        &mut self,
        bridi: &Bridi,
        selbris: &[Selbri],
        sumtis: &[Sumti],
        sentences: &[Bridi],
    ) -> (r: LogicalForm)
        requires
            old(self).has_room(
                sentence_out(
                    old(self).schema,
                    arena_of(selbris, sumtis, sentences),
                    *bridi,
                    old(self).var_counter as nat,
                ).cost,
            ),
        ensures
            ({
                let o = sentence_out(
                    old(self).schema,
                    arena_of(selbris, sumtis, sentences),
                    *bridi,
                    old(self).var_counter as nat,
                );
                &&& final(self).grown_from(old(self), o.cost, o.next)
                &&& form_ok(r, final(self).names().len())
                &&& form_view(r, final(self).names()) == o.form
            }),
    {
        proof {
            reveal(sentence_out);
        }
        let limit: usize = 0x1000_0000;
        let fuel: usize = if selbris.len() < limit && sumtis.len() < limit && sentences.len() < limit
            && selbris.len() + sumtis.len() + sentences.len() < limit {
            4 * (selbris.len() + sumtis.len() + sentences.len()) + 8
        } else {
            0x4000_0008
        };
        self.compile_at(bridi, selbris, sumtis, sentences, fuel)
    }

    /// Compiles every sentence of `ast` in order: one formula per sentence,
    /// numbering fresh variables on from one sentence to the next.
    #[verifier::loop_isolation(false)]
    #[verifier::rlimit(100)]
    pub fn compile_buffer(&mut self, ast: &AstBuffer) -> (r: Vec<LogicalForm>)
        requires
            old(self).has_room(
                buffer_forms(
                    old(self).schema,
                    Arena { selbris: ast.selbris@, sumtis: ast.sumtis@, sentences: ast.sentences@ },
                    old(self).var_counter as nat,
                    ast.sentences@.len(),
                ).2,
            ),
        ensures
            ({
                let out = buffer_forms(
                    old(self).schema,
                    Arena { selbris: ast.selbris@, sumtis: ast.sumtis@, sentences: ast.sentences@ },
                    old(self).var_counter as nat,
                    ast.sentences@.len(),
                );
                &&& r@.len() == ast.sentences@.len()
                &&& final(self).grown_from(old(self), out.2, out.1)
                &&& forall|i: int| 0 <= i < r@.len() ==> form_ok(#[trigger] r@[i], final(self).names().len())
                &&& forall|i: int| 0 <= i < r@.len() ==> #[trigger] form_view(r@[i], final(self).names()) == out.0[i]
            }),
    {
        let ghost a = Arena { selbris: ast.selbris@, sumtis: ast.sumtis@, sentences: ast.sentences@ };
        let ghost names0 = self.names();
        let ghost c0 = self.var_counter as nat;
        let ghost n = ast.sentences@.len();
        let mut forms: Vec<LogicalForm> = Vec::new();
        let mut k: usize = 0;
        while k < ast.sentences.len()
            invariant
                k <= n,
                self.schema == old(self).schema,
                extends(self.names(), names0),
                ({
                    let p = buffer_forms(self.schema, a, c0, k as nat);
                    &&& self.var_counter == p.1
                    &&& c0 <= p.1 <= c0 + p.2
                    &&& self.names().len() <= names0.len() + p.2
                    &&& forms@.len() == k
                    &&& forall|i: int| 0 <= i < k ==> form_ok(#[trigger] forms@[i], self.names().len())
                    &&& forall|i: int| 0 <= i < k ==> #[trigger] form_view(forms@[i], self.names()) == p.0[i]
                }),
            decreases n - k,
        {
            let ghost names1 = self.names();
            let sels = ast.selbris.as_slice();
            let sums = ast.sumtis.as_slice();
            let sents = ast.sentences.as_slice();
            proof {
                lemma_buffer_cost_grows(self.schema, a, c0, (k + 1) as nat, n);
                let sl = arena_of(sels, sums, sents);
                assert(sl == a);
            }
            let ghost p = buffer_forms(self.schema, a, c0, k as nat);
            let ghost o = sentence_out(self.schema, a, ast.sentences@[k as int], self.var_counter as nat);
            let f = self.compile_bridi(&ast.sentences[k], sels, sums, sents);
            let ghost names2 = self.names();
            let ghost before = forms@;
            forms.push(f);
            proof {
                assert forall|i: int| 0 <= i < k implies form_ok(#[trigger] before[i], names2.len())
                    && form_view(before[i], names2) == form_view(before[i], names1) by {
                    lemma_form_view_stable(before[i], names1, names2);
                }
                lemma_buffer_cost_grows(self.schema, a, c0, k as nat, k as nat);
                let q = buffer_forms(self.schema, a, c0, (k + 1) as nat);
                assert(p.0.len() == k);
                assert(q.0 == p.0.push(o.form));
                assert(q.1 == o.next);
                assert(q.2 == p.2 + o.cost);
                assert forall|i: int| 0 <= i < k + 1 implies #[trigger] form_view(forms@[i], names2) == q.0[i] by {
                    if i < k {
                        assert(forms@[i] == before[i]);
                        assert(form_view(before[i], names1) == p.0[i]);
                        assert(q.0[i] == p.0[i]);
                    } else {
                        assert(forms@[i] == f);
                    }
                }
            }
            k = k + 1;
        }
        forms
    }
}

} // verus!
