//! The bridge to the equality-saturation reasoner: formulas in their
//! s-expression form are asserted as facts or checked for entailment.
use vstd::prelude::*;

verus! {

#[verifier::external_type_specification]
#[verifier::external_body]
pub struct ExEGraph(egglog::EGraph);

/// Relies on `egglog::EGraph::default`: an empty e-graph.
#[verifier::external_body]
fn new_egraph() -> (r: egglog::EGraph) {
    egglog::EGraph::default()
}

/// Relies on `egglog::EGraph::parse_and_run_program`: runs the commands of
/// `program`; an error comes back as its message. What it returns depends
/// on the e-graph's contents, so nothing is promised of it.
#[verifier::external_body]
fn run_program(egraph: &mut egglog::EGraph, program: &str) -> (r: Result<(), String>) {
    egraph.parse_and_run_program(None, program).map(|_| ()).map_err(|e| e.to_string())
}

/// `pat` occurs in `s` at some position.
pub open spec fn occurs(s: Seq<char>, pat: Seq<char>) -> bool {
    exists|i: int| 0 <= i && i + pat.len() <= s.len() && #[trigger] s.subrange(i, i + pat.len()) == pat
}

/// Whether `pat` occurs in `s`.
pub fn contains_text(s: &str, pat: &str) -> (r: bool)
    ensures
        r == occurs(s@, pat@),
{
    let n = s.unicode_len();
    let m = pat.unicode_len();
    if m > n {
        return false;
    }
    let mut i: usize = 0;
    while i <= n - m
        invariant
            n == s@.len(),
            m == pat@.len(),
            m <= n,
            i <= n - m + 1,
            forall|k: int| 0 <= k < i ==> #[trigger] s@.subrange(k, k + m) != pat@,
        decreases n - i,
    {
        let mut j: usize = 0;
        let mut same = true;
        while j < m
            invariant
                n == s@.len(),
                m == pat@.len(),
                i + m <= n,
                j <= m,
                same == (forall|q: int| 0 <= q < j ==> s@[i + q] == pat@[q]),
            decreases m - j,
        {
            if s.get_char(i + j) != pat.get_char(j) {
                same = false;
            }
            j = j + 1;
        }
        if same {
            assert(s@.subrange(i as int, i + m) =~= pat@);
            return true;
        }
        assert(s@.subrange(i as int, i + m) != pat@) by {
            let w = choose|q: int| 0 <= q < m && s@[i + q] != pat@[q];
            assert(s@.subrange(i as int, i + m)[w] != pat@[w]);
        }
        i = i + 1;
    }
    proof {
        assert forall|k: int| 0 <= k && k + pat@.len() <= s@.len() implies #[trigger] s@.subrange(k, k + pat@.len()) != pat@ by {
            assert(k < i);
        }
    }
    false
}

/// The reasoner's answer "no derivation found", as opposed to a fault: the
/// message reports a failed check.
pub fn is_check_failure(message: &str) -> (r: bool)
    ensures
        r == occurs(message@, "Check failed"@),
{
    contains_text(message, "Check failed")
}

/// `prefix`, then `body`, then `)`.
pub fn wrap_command(prefix: &str, body: &str) -> (r: String)
    ensures
        r@ == prefix@ + body@ + ")"@,
{
    let mut s = String::from_str(prefix);
    s.append(body);
    s.append(")");
    s
}

/// The datatypes, rewrites and inference rules of first-order formulas:
/// terms, term lists and formulas; commutativity and associativity of
/// conjunction and disjunction, double negation, De Morgan and material
/// conditional; conjunction elimination, disjunctive syllogism, modus ponens,
/// modus tollens, and distribution of both quantifiers over conjunction.
pub open spec fn fol_schema_text() -> Seq<char> {
    "
(datatype Term (Var String) (Const String) (Desc String) (Zoe))
(datatype TermList (Nil) (Cons Term TermList))
(datatype Formula
    (Pred String TermList)
    (And Formula Formula)
    (Or Formula Formula)
    (Not Formula)
    (Implies Formula Formula)
    (Exists String Formula)
    (ForAll String Formula))
(relation IsTrue (Formula))
(rewrite (And A B) (And B A))
(rewrite (Or A B) (Or B A))
(rewrite (And (And A B) C) (And A (And B C)))
(rewrite (Or (Or A B) C) (Or A (Or B C)))
(rewrite (Not (Not A)) A)
(rewrite (Not (And A B)) (Or (Not A) (Not B)))
(rewrite (Not (Or A B)) (And (Not A) (Not B)))
(rewrite (Implies A B) (Or (Not A) B))
(rule ((IsTrue (And A B))) ((IsTrue A) (IsTrue B)))
(rule ((IsTrue (Or A B)) (IsTrue (Not A))) ((IsTrue B)))
(rule ((IsTrue (Implies A B)) (IsTrue A)) ((IsTrue B)))
(rule ((IsTrue (Implies A B)) (IsTrue (Not B))) ((IsTrue (Not A))))
(rule ((IsTrue (Exists v (And A B)))) ((IsTrue (And (Exists v A) (Exists v B)))))
(rule ((IsTrue (ForAll v (And A B)))) ((IsTrue (And (ForAll v A) (ForAll v B)))))
"@
}

/// The schema handed to the reasoner when a knowledge base is created.
pub fn fol_schema() -> (r: &'static str)
    ensures
        r@ == fol_schema_text(),
{
    "
(datatype Term (Var String) (Const String) (Desc String) (Zoe))
(datatype TermList (Nil) (Cons Term TermList))
(datatype Formula
    (Pred String TermList)
    (And Formula Formula)
    (Or Formula Formula)
    (Not Formula)
    (Implies Formula Formula)
    (Exists String Formula)
    (ForAll String Formula))
(relation IsTrue (Formula))
(rewrite (And A B) (And B A))
(rewrite (Or A B) (Or B A))
(rewrite (And (And A B) C) (And A (And B C)))
(rewrite (Or (Or A B) C) (Or A (Or B C)))
(rewrite (Not (Not A)) A)
(rewrite (Not (And A B)) (Or (Not A) (Not B)))
(rewrite (Not (Or A B)) (And (Not A) (Not B)))
(rewrite (Implies A B) (Or (Not A) B))
(rule ((IsTrue (And A B))) ((IsTrue A) (IsTrue B)))
(rule ((IsTrue (Or A B)) (IsTrue (Not A))) ((IsTrue B)))
(rule ((IsTrue (Implies A B)) (IsTrue A)) ((IsTrue B)))
(rule ((IsTrue (Implies A B)) (IsTrue (Not B))) ((IsTrue (Not A))))
(rule ((IsTrue (Exists v (And A B)))) ((IsTrue (And (Exists v A) (Exists v B)))))
(rule ((IsTrue (ForAll v (And A B)))) ((IsTrue (And (ForAll v A) (ForAll v B)))))
"
}

/// An outcome of the reasoner with its message spelled out.
pub open spec fn outcome_view(o: Result<(), String>) -> Result<(), Seq<char>> {
    match o {
        Ok(()) => Ok(()),
        Err(m) => Err(m@),
    }
}

pub open spec fn answer_view(r: Result<bool, String>) -> Result<bool, Seq<char>> {
    match r {
        Ok(b) => Ok(b),
        Err(m) => Err(m@),
    }
}

/// The answer to a query from the outcomes of its checks, in order: true
/// while every check passes, false once one reports no derivation, and the
/// first other fault as an error, after which no check runs.
pub open spec fn checks_answer(outs: Seq<Result<(), Seq<char>>>) -> Result<bool, Seq<char>>
    decreases outs.len(),
{
    if outs.len() == 0 {
        Ok(true)
    } else {
        match checks_answer(outs.drop_last()) {
            Err(e) => Err(e),
            Ok(b) => match outs.last() {
                Ok(()) => Ok(b),
                Err(m) => if occurs(m, "Check failed"@) {
                    Ok(false)
                } else {
                    Err("Reasoning error: "@ + m)
                },
            },
        }
    }
}

/// A query's run: saturation outcome `sat`, then the check outcomes `outs`,
/// one per root until the first fault, give the answer `r`.
pub open spec fn query_explained(
    r: Result<bool, Seq<char>>,
    n_roots: nat,
    sat: Result<(), Seq<char>>,
    outs: Seq<Result<(), Seq<char>>>,
) -> bool {
    match sat {
        Err(e) => outs.len() == 0 && r == Err::<bool, Seq<char>>("Saturation error: "@ + e),
        Ok(()) => {
            &&& outs.len() <= n_roots
            &&& r == checks_answer(outs)
            &&& (outs.len() < n_roots ==> r is Err)
            &&& (r is Err ==> outs.len() > 0 && checks_answer(outs.drop_last()) is Ok)
        },
    }
}

/// An assertion's run: the roots were submitted in order and `outs` came
/// back; all were accepted, or the first refusal ended the run.
pub open spec fn assert_explained(r: Result<(), Seq<char>>, n_roots: nat, outs: Seq<Result<(), Seq<char>>>) -> bool {
    &&& outs.len() <= n_roots
    &&& forall|i: int| 0 <= i < outs.len() - 1 ==> #[trigger] outs[i] is Ok
    &&& (r is Ok <==> (outs.len() == n_roots && (outs.len() == 0 || outs.last() is Ok)))
    &&& (r is Err ==> outs.len() > 0 && outs.last() is Err
        && r->Err_0 == "Failed to assert fact: "@ + outs.last()->Err_0)
}

/// One check of a query: a pass keeps the answer so far, a failed check
/// makes it false, and any other fault is the query's error.
pub fn check_step(all_true: bool, outcome: &Result<(), String>) -> (r: Result<bool, String>)
    ensures
        outcome is Ok ==> r == Ok::<bool, String>(all_true),
        outcome is Err && occurs(outcome->Err_0@, "Check failed"@) ==> r == Ok::<bool, String>(false),
        outcome is Err && !occurs(outcome->Err_0@, "Check failed"@) ==> r is Err
            && r->Err_0@ == "Reasoning error: "@ + outcome->Err_0@,
{
    match outcome {
        Ok(()) => Ok(all_true),
        Err(m) => match check_outcome(m.as_str()) {
            Ok(()) => Ok(false),
            Err(e) => Err(e),
        },
    }
}

/// The bounded fallback run after unbounded saturation failed: its fault
/// is the query's error.
pub fn saturation_step(fallback: &Result<(), String>) -> (r: Result<(), String>)
    ensures
        fallback is Ok ==> r is Ok,
        fallback is Err ==> r is Err && r->Err_0@ == "Saturation error: "@ + fallback->Err_0@,
{
    match fallback {
        Ok(()) => Ok(()),
        Err(m) => Err(wrap_message("Saturation error: ", m.as_str())),
    }
}

/// A knowledge base of asserted formulas.
pub struct ReasoningCore {
    egraph: egglog::EGraph,
}

impl ReasoningCore {
    /// A knowledge base with the schema and rules loaded, or the reasoner's
    /// message if it refused them.
    pub fn new() -> (r: Result<ReasoningCore, String>) {
        let mut egraph = new_egraph();
        match run_program(&mut egraph, fol_schema()) {
            Ok(()) => Ok(ReasoningCore { egraph }),
            Err(e) => Err(e),
        }
    }

    /// Asserts each formula (given as an s-expression) as `(IsTrue ...)`,
    /// in order, stopping at the first that the reasoner refuses; earlier
    /// ones stay asserted.
    pub fn assert_fact(&mut self, roots: &Vec<String>) -> (r: Result<(), String>)
        ensures
            exists|outs: Seq<Result<(), Seq<char>>>| #[trigger] assert_explained(outcome_view(r), roots@.len(), outs),
    {
        let ghost mut outs: Seq<Result<(), Seq<char>>> = seq![];
        let mut i: usize = 0;
        while i < roots.len()
            invariant
                i <= roots@.len(),
                outs.len() == i,
                forall|q: int| 0 <= q < outs.len() ==> #[trigger] outs[q] is Ok,
            decreases roots.len() - i,
        {
            let command = wrap_command("(IsTrue ", roots[i].as_str());
            let outcome = run_program(&mut self.egraph, command.as_str());
            proof {
                outs = outs.push(outcome_view(outcome));
            }
            match outcome {
                Ok(()) => {},
                Err(e) => {
                    let m = wrap_message("Failed to assert fact: ", e.as_str());
                    proof {
                        let rv: Result<(), Seq<char>> = Err(m@);
                        assert(assert_explained(rv, roots@.len(), outs));
                    }
                    return Err(m);
                },
            }
            i = i + 1;
        }
        proof {
            let rv: Result<(), Seq<char>> = Ok(());
            assert(assert_explained(rv, roots@.len(), outs));
        }
        Ok(())
    }

    /// Saturates the knowledge base (falling back to a bounded run), then
    /// checks each formula: `Ok(true)` when every check passes, `Ok(false)`
    /// when one reports no derivation, and an error for any other fault,
    /// which ends the query.
    pub fn query_entailment(&mut self, roots: &Vec<String>) -> (r: Result<bool, String>)
        ensures
            exists|sat: Result<(), Seq<char>>, outs: Seq<Result<(), Seq<char>>>|
                #[trigger] query_explained(answer_view(r), roots@.len(), sat, outs),
            r is Err ==> ("Saturation error: "@).is_prefix_of(r->Err_0@) || ("Reasoning error: "@).is_prefix_of(
                r->Err_0@,
            ),
    {
        proof {
            reveal_strlit("Saturation error: ");
            reveal_strlit("Reasoning error: ");
        }
        if run_program(&mut self.egraph, "(run-schedule (saturate (run)))").is_err() {
            let fallback = run_program(&mut self.egraph, "(run 100)");
            match saturation_step(&fallback) {
                Ok(()) => {},
                Err(e) => {
                    proof {
                        let sat = outcome_view(fallback);
                        assert(query_explained(answer_view(Err(e)), roots@.len(), sat, seq![]));
                        assert(("Saturation error: "@).is_prefix_of(e@)) by {
                            assert(e@.subrange(0, "Saturation error: "@.len() as int) =~= "Saturation error: "@);
                        }
                    }
                    return Err(e);
                },
            }
        }
        let ghost mut outs: Seq<Result<(), Seq<char>>> = seq![];
        let mut all_true = true;
        let mut i: usize = 0;
        while i < roots.len()
            invariant
                i <= roots@.len(),
                outs.len() == i,
                checks_answer(outs) == Ok::<bool, Seq<char>>(all_true),
            decreases roots.len() - i,
        {
            let command = wrap_command("(check (IsTrue ", roots[i].as_str());
            let command = wrap_command(command.as_str(), "");
            let outcome = run_program(&mut self.egraph, command.as_str());
            let ghost prev = outs;
            proof {
                outs = outs.push(outcome_view(outcome));
                assert(outs.drop_last() =~= prev);
                assert(outs.last() == outcome_view(outcome));
            }
            match check_step(all_true, &outcome) {
                Ok(b) => {
                    all_true = b;
                },
                Err(m) => {
                    proof {
                        let sat: Result<(), Seq<char>> = Ok(());
                        assert(query_explained(answer_view(Err(m)), roots@.len(), sat, outs));
                        assert(("Reasoning error: "@).is_prefix_of(m@)) by {
                            assert(m@.subrange(0, "Reasoning error: "@.len() as int) =~= "Reasoning error: "@);
                        }
                    }
                    return Err(m);
                },
            }
            i = i + 1;
        }
        proof {
            let sat: Result<(), Seq<char>> = Ok(());
            assert(query_explained(answer_view(Ok(all_true)), roots@.len(), sat, outs));
        }
        Ok(all_true)
    }

}

/// `prefix` followed by `message`.
pub fn wrap_message(prefix: &str, message: &str) -> (r: String)
    ensures
        r@ == prefix@ + message@,
{
    let mut s = String::from_str(prefix);
    s.append(message);
    s
}

/// What a failed check means: `Ok` for "not entailed", or the fault to
/// report.
pub fn check_outcome(message: &str) -> (r: Result<(), String>)
    ensures
        r is Ok <==> occurs(message@, "Check failed"@),
        r is Err ==> r->Err_0@ == "Reasoning error: "@ + message@,
{
    if is_check_failure(message) {
        Ok(())
    } else {
        Err(wrap_message("Reasoning error: ", message))
    }
}

} // verus!
