use lojban_nesy::ast::{Bridi, Connective, Conversion, Gadri, PlaceTag, RelativeClause, Selbri, Sumti};
use lojban_nesy::lexicon::JbovlasteSchema;
use lojban_nesy::logic::LogicalForm;
use lojban_nesy::reasoning::{check_outcome, contains_text, is_check_failure, ReasoningCore};
use lojban_nesy::semantic::SemanticCompiler;
use lojban_nesy::sexp::reconstruct_sexp;

fn schema() -> JbovlasteSchema {
    let mut s = JbovlasteSchema::new();
    s.insert("klama".to_string(), 5);
    s.insert("zarci".to_string(), 5);
    s.insert("barda".to_string(), 1);
    s.insert("sutra".to_string(), 1);
    s.insert("nelci".to_string(), 2);
    s.insert("gerku".to_string(), 2);
    s.insert("prami".to_string(), 2);
    s.insert("danlu".to_string(), 1);
    s
}

fn root(w: &str) -> Selbri {
    Selbri::Root(w.to_string())
}

fn bridi(relation: u32, head: Vec<u32>, tail: Vec<u32>, negated: bool) -> Bridi {
    Bridi { relation, head_terms: head, tail_terms: tail, negated }
}

fn compile(
    c: &mut SemanticCompiler,
    selbris: &[Selbri],
    sumtis: &[Sumti],
    sentences: &[Bridi],
    i: usize,
) -> String {
    let f = c.compile_bridi(&sentences[i], selbris, sumtis, sentences);
    reconstruct_sexp(c, &f)
}

fn zoes(n: usize) -> String {
    let mut s = "(Nil)".to_string();
    for _ in 0..n {
        s = format!("(Cons (Zoe) {})", s);
    }
    s
}

const MI_KLAMA_LO_ZARCI: &str = "(Exists \"_v0\" (And (Pred \"zarci\" (Cons (Var \"_v0\") (Cons (Zoe) (Cons (Zoe) (Cons (Zoe) (Cons (Zoe) (Nil))))))) (Pred \"klama\" (Cons (Const \"mi\") (Cons (Var \"_v0\") (Cons (Zoe) (Cons (Zoe) (Cons (Zoe) (Nil)))))))))";

#[test]
fn scenario_mi_klama_lo_zarci() {
    let selbris = vec![root("klama"), root("zarci")];
    let sumtis = vec![Sumti::ProSumti("mi".to_string()), Sumti::Description(Gadri::Lo, 1)];
    let sentences = vec![bridi(0, vec![0], vec![1], false)];
    let mut c = SemanticCompiler::new(schema());
    let s = compile(&mut c, &selbris, &sumtis, &sentences, 0);
    assert_eq!(s, MI_KLAMA_LO_ZARCI);
    assert_eq!(c.var_counter, 1);

    let mut r = ReasoningCore::new().unwrap();
    r.assert_fact(&vec![s.clone()]).unwrap();
    assert_eq!(r.query_entailment(&vec![s]), Ok(true));
}

#[test]
fn scenario_tagged_se_klama() {
    // se klama fa lo zarci fe mi
    let selbris = vec![root("klama"), Selbri::Converted(Conversion::Se, 0), root("zarci")];
    let sumtis = vec![
        Sumti::Description(Gadri::Lo, 2),
        Sumti::Tagged(PlaceTag::Fa, 0),
        Sumti::ProSumti("mi".to_string()),
        Sumti::Tagged(PlaceTag::Fe, 2),
    ];
    let sentences = vec![bridi(1, vec![], vec![1, 3], false)];
    let mut c = SemanticCompiler::new(schema());
    let s = compile(&mut c, &selbris, &sumtis, &sentences, 0);
    assert_eq!(s, MI_KLAMA_LO_ZARCI);
}

#[test]
fn scenario_barda_je_sutra() {
    let selbris = vec![root("barda"), root("sutra"), Selbri::Connected(0, Connective::Je, 1)];
    let sumtis = vec![Sumti::Name("bob".to_string())];
    let sentences = vec![bridi(2, vec![0], vec![], false), bridi(0, vec![0], vec![], false)];
    let mut c = SemanticCompiler::new(schema());
    let s = compile(&mut c, &selbris, &sumtis, &sentences, 0);
    assert_eq!(
        s,
        "(And (Pred \"barda\" (Cons (Const \"bob\") (Nil))) (Pred \"sutra\" (Cons (Const \"bob\") (Nil))))"
    );
    let q = compile(&mut c, &selbris, &sumtis, &sentences, 1);
    let mut r = ReasoningCore::new().unwrap();
    r.assert_fact(&vec![s]).unwrap();
    assert_eq!(r.query_entailment(&vec![q]), Ok(true));
}

#[test]
fn scenario_nelci_be_lo_gerku() {
    let selbris = vec![root("nelci"), Selbri::WithArgs(0, vec![1]), root("gerku")];
    let sumtis = vec![Sumti::ProSumti("mi".to_string()), Sumti::Description(Gadri::Lo, 2)];
    let sentences = vec![bridi(1, vec![0], vec![], false)];
    let mut c = SemanticCompiler::new(schema());
    let s = compile(&mut c, &selbris, &sumtis, &sentences, 0);
    assert_eq!(
        s,
        "(Exists \"_v0\" (And (Pred \"gerku\" (Cons (Var \"_v0\") (Cons (Zoe) (Nil)))) (Pred \"nelci\" (Cons (Const \"mi\") (Cons (Var \"_v0\") (Nil))))))"
    );
}

#[test]
fn scenario_na_prami() {
    let selbris = vec![root("prami")];
    let sumtis = vec![Sumti::Name("alice".to_string()), Sumti::Name("bob".to_string())];
    let sentences = vec![bridi(0, vec![0], vec![1], true), bridi(0, vec![0], vec![1], false)];
    let mut c = SemanticCompiler::new(schema());
    let s = compile(&mut c, &selbris, &sumtis, &sentences, 0);
    assert_eq!(s, "(Not (Pred \"prami\" (Cons (Const \"alice\") (Cons (Const \"bob\") (Nil)))))");
    let q = compile(&mut c, &selbris, &sumtis, &sentences, 1);
    let mut r = ReasoningCore::new().unwrap();
    r.assert_fact(&vec![s]).unwrap();
    assert_eq!(r.query_entailment(&vec![q]), Ok(false));
}

#[test]
fn scenario_restricted_lo_gerku_poi() {
    // lo gerku poi barda cu danlu
    let selbris = vec![root("danlu"), root("gerku"), root("barda")];
    let sumtis = vec![
        Sumti::Description(Gadri::Lo, 1),
        Sumti::Restricted(0, RelativeClause { body_sentence: 1 }),
        Sumti::Unspecified,
    ];
    let sentences = vec![bridi(0, vec![1], vec![], false), bridi(2, vec![2], vec![], false)];
    let mut c = SemanticCompiler::new(schema());
    let s = compile(&mut c, &selbris, &sumtis, &sentences, 0);
    assert_eq!(
        s,
        "(Exists \"_v0\" (And (Pred \"barda\" (Cons (Var \"_v0\") (Nil))) (And (Pred \"gerku\" (Cons (Var \"_v0\") (Cons (Zoe) (Nil)))) (Pred \"danlu\" (Cons (Var \"_v0\") (Nil))))))"
    );
}

#[test]
fn bare_variable_da_is_a_variable() {
    let selbris = vec![root("danlu")];
    let sumtis = vec![Sumti::ProSumti("da".to_string()), Sumti::ProSumti("do".to_string())];
    let sentences = vec![bridi(0, vec![0], vec![], false), bridi(0, vec![1], vec![], false)];
    let mut c = SemanticCompiler::new(schema());
    assert_eq!(compile(&mut c, &selbris, &sumtis, &sentences, 0), "(Pred \"danlu\" (Cons (Var \"da\") (Nil)))");
    assert_eq!(compile(&mut c, &selbris, &sumtis, &sentences, 1), "(Pred \"danlu\" (Cons (Const \"do\") (Nil)))");
}

#[test]
fn tanru_shares_arguments() {
    let selbris = vec![root("sutra"), root("gerku"), Selbri::Tanru(0, 1)];
    let sumtis = vec![Sumti::Name("rex".to_string())];
    let sentences = vec![bridi(2, vec![0], vec![], false)];
    let mut c = SemanticCompiler::new(schema());
    assert_eq!(
        compile(&mut c, &selbris, &sumtis, &sentences, 0),
        "(And (Pred \"sutra\" (Cons (Const \"rex\") (Cons (Zoe) (Nil)))) (Pred \"gerku\" (Cons (Const \"rex\") (Cons (Zoe) (Nil)))))"
    );
}

#[test]
fn se_se_is_identity() {
    let selbris = vec![root("prami"), Selbri::Converted(Conversion::Se, 0), Selbri::Converted(Conversion::Se, 1)];
    let sumtis = vec![Sumti::Name("a".to_string()), Sumti::Name("b".to_string())];
    let sentences = vec![bridi(2, vec![0], vec![1], false), bridi(0, vec![0], vec![1], false)];
    let mut c = SemanticCompiler::new(schema());
    let twice = compile(&mut c, &selbris, &sumtis, &sentences, 0);
    let plain = compile(&mut c, &selbris, &sumtis, &sentences, 1);
    assert_eq!(twice, plain);
}

#[test]
fn te_conversion_without_third_place_is_noop() {
    let selbris = vec![root("prami"), Selbri::Converted(Conversion::Te, 0)];
    let sumtis = vec![Sumti::Name("a".to_string()), Sumti::Name("b".to_string())];
    let sentences = vec![bridi(1, vec![0], vec![1], false)];
    let mut c = SemanticCompiler::new(schema());
    assert_eq!(
        compile(&mut c, &selbris, &sumtis, &sentences, 0),
        "(Pred \"prami\" (Cons (Const \"a\") (Cons (Const \"b\") (Nil))))"
    );
}

#[test]
fn place_tags_ignore_order() {
    let selbris = vec![root("prami")];
    let sumtis = vec![
        Sumti::Name("a".to_string()),
        Sumti::Tagged(PlaceTag::Fa, 0),
        Sumti::Name("b".to_string()),
        Sumti::Tagged(PlaceTag::Fe, 2),
    ];
    let sentences = vec![bridi(0, vec![1, 3], vec![], false), bridi(0, vec![3], vec![1], false)];
    let mut c = SemanticCompiler::new(schema());
    let one = compile(&mut c, &selbris, &sumtis, &sentences, 0);
    let two = compile(&mut c, &selbris, &sumtis, &sentences, 1);
    assert_eq!(one, two);
}

#[test]
fn tag_past_arity_is_dropped_and_last_tag_wins() {
    let selbris = vec![root("prami")];
    let sumtis = vec![
        Sumti::Name("a".to_string()),
        Sumti::Tagged(PlaceTag::Fu, 0),
        Sumti::Name("b".to_string()),
        Sumti::Tagged(PlaceTag::Fa, 2),
        Sumti::Name("c".to_string()),
        Sumti::Tagged(PlaceTag::Fa, 4),
    ];
    let sentences = vec![bridi(0, vec![1, 3, 5], vec![], false)];
    let mut c = SemanticCompiler::new(schema());
    assert_eq!(
        compile(&mut c, &selbris, &sumtis, &sentences, 0),
        "(Pred \"prami\" (Cons (Const \"c\") (Cons (Zoe) (Nil))))"
    );
}

#[test]
fn connectives_jo_and_ju() {
    let selbris = vec![
        root("barda"),
        root("sutra"),
        Selbri::Connected(0, Connective::Jo, 1),
        Selbri::Connected(0, Connective::Ju, 1),
        Selbri::Connected(0, Connective::Ja, 1),
    ];
    let sumtis = vec![Sumti::Name("x".to_string())];
    let sentences = vec![bridi(2, vec![0], vec![], false), bridi(3, vec![0], vec![], false), bridi(4, vec![0], vec![], false)];
    let mut c = SemanticCompiler::new(schema());
    let a = "(Pred \"barda\" (Cons (Const \"x\") (Nil)))";
    let b = "(Pred \"sutra\" (Cons (Const \"x\") (Nil)))";
    assert_eq!(
        compile(&mut c, &selbris, &sumtis, &sentences, 0),
        format!("(And (Or (Not {a}) {b}) (Or (Not {b}) {a}))")
    );
    assert_eq!(
        compile(&mut c, &selbris, &sumtis, &sentences, 1),
        format!("(And (Or {a} {b}) (Not (And {a} {b})))")
    );
    assert_eq!(compile(&mut c, &selbris, &sumtis, &sentences, 2), format!("(Or {a} {b})"));
}

#[test]
fn fresh_variables_are_distinct() {
    let selbris = vec![root("klama"), root("zarci")];
    let sumtis = vec![Sumti::Description(Gadri::Lo, 1), Sumti::Description(Gadri::Lo, 1)];
    let sentences = vec![bridi(0, vec![0], vec![1], false)];
    let mut c = SemanticCompiler::new(schema());
    let s = compile(&mut c, &selbris, &sumtis, &sentences, 0);
    assert!(s.starts_with("(Exists \"_v0\" "));
    assert!(s.contains("(Exists \"_v1\" "));
    assert_eq!(c.var_counter, 2);
    let s2 = compile(&mut c, &selbris, &sumtis, &sentences, 0);
    assert!(s2.starts_with("(Exists \"_v2\" "));
}

#[test]
fn le_description_and_quote_and_unknown_word() {
    let selbris = vec![root("nelci"), root("gerku"), root("mlatu"), Selbri::Compound(vec![])];
    let sumtis = vec![
        Sumti::Description(Gadri::Le, 1),
        Sumti::QuotedLiteral("coi".to_string()),
    ];
    let sentences = vec![bridi(2, vec![0], vec![1], false), bridi(3, vec![], vec![], false)];
    let mut c = SemanticCompiler::new(schema());
    assert_eq!(
        compile(&mut c, &selbris, &sumtis, &sentences, 0),
        "(Pred \"mlatu\" (Cons (Desc \"gerku\") (Cons (Const \"coi\") (Nil))))"
    );
    assert_eq!(compile(&mut c, &selbris, &sumtis, &sentences, 1), format!("(Pred \"unknown\" {})", zoes(2)));
}

#[test]
fn out_of_range_ids_are_defensive() {
    let selbris = vec![root("prami"), Selbri::Negated(7)];
    let sumtis = vec![Sumti::Tagged(PlaceTag::Fa, 9)];
    let sentences = vec![bridi(1, vec![0, 5], vec![], false)];
    let mut c = SemanticCompiler::new(schema());
    assert_eq!(compile(&mut c, &selbris, &sumtis, &sentences, 0), format!("(Not (Pred \"entity\" {}))", zoes(2)));
}

#[test]
fn cyclic_selbri_terminates() {
    let selbris = vec![Selbri::Grouped(0)];
    let sentences = vec![bridi(0, vec![], vec![], false)];
    let mut c = SemanticCompiler::new(schema());
    let s = compile(&mut c, &selbris, &[], &sentences, 0);
    assert!(s.starts_with("(Pred \"entity\""));
}

#[test]
fn double_negation_round_trip() {
    let selbris = vec![root("barda"), Selbri::Negated(0), Selbri::Negated(1)];
    let sumtis = vec![Sumti::Name("x".to_string())];
    let sentences = vec![bridi(2, vec![0], vec![], false), bridi(0, vec![0], vec![], false)];
    let mut c = SemanticCompiler::new(schema());
    let nn = compile(&mut c, &selbris, &sumtis, &sentences, 0);
    let p = compile(&mut c, &selbris, &sumtis, &sentences, 1);
    let mut r = ReasoningCore::new().unwrap();
    r.assert_fact(&vec![nn.clone()]).unwrap();
    assert_eq!(r.query_entailment(&vec![p]), Ok(true));
}

#[test]
fn idempotent_assertion() {
    let p = "(Pred \"barda\" (Cons (Const \"x\") (Nil)))".to_string();
    let mut r = ReasoningCore::new().unwrap();
    r.assert_fact(&vec![p.clone()]).unwrap();
    r.assert_fact(&vec![p.clone()]).unwrap();
    assert_eq!(r.query_entailment(&vec![p]), Ok(true));
}

#[test]
fn universal_with_restriction() {
    let f = "(ForAll \"da\" (Or (Not (Pred \"gerku\" (Cons (Var \"da\") (Cons (Zoe) (Nil))))) (Pred \"danlu\" (Cons (Var \"da\") (Nil)))))".to_string();
    let mut r = ReasoningCore::new().unwrap();
    r.assert_fact(&vec![f.clone()]).unwrap();
    assert_eq!(r.query_entailment(&vec![f]), Ok(true));
}

#[test]
fn malformed_fact_is_an_error() {
    let mut r = ReasoningCore::new().unwrap();
    let e = r.assert_fact(&vec!["(Pred".to_string()]).unwrap_err();
    assert!(e.starts_with("Failed to assert fact: "));
}

#[test]
fn check_failure_classification() {
    assert!(is_check_failure("x\nCheck failed: \ny"));
    assert!(!is_check_failure("Unbound symbol"));
    assert_eq!(check_outcome("Check failed"), Ok(()));
    assert_eq!(check_outcome("boom"), Err("Reasoning error: boom".to_string()));
    assert!(contains_text("abcabd", "abd"));
    assert!(!contains_text("ab", "abc"));
    assert!(contains_text("ab", ""));
}

#[test]
fn schema_lookup_latest_wins() {
    let mut s = JbovlasteSchema::new();
    assert_eq!(s.get_arity("klama"), None);
    assert_eq!(s.get_arity_or_default("klama"), 2);
    s.insert("klama".to_string(), 4);
    s.insert("klama".to_string(), 5);
    assert_eq!(s.get_arity("klama"), Some(5));
    assert_eq!(s.get_arity_or_default("klama"), 5);
}

#[test]
fn symbols_resolve() {
    let selbris = vec![root("barda")];
    let sumtis = vec![Sumti::Name("x".to_string())];
    let sentences = vec![bridi(0, vec![0], vec![], false)];
    let mut c = SemanticCompiler::new(schema());
    let f = c.compile_bridi(&sentences[0], &selbris, &sumtis, &sentences);
    match f {
        LogicalForm::Predicate { relation, .. } => assert_eq!(c.resolve_symbol(relation), "barda"),
        _ => panic!("expected a predicate"),
    }
    assert_eq!(c.symbol_count(), 2);
}

use lojban_nesy::dictionary::{DictionaryLoader, JbovlasteSchema as Dictionary};
use lojban_nesy::syntax::{self, classify_word, flatten_to_buffer, parse_tokens_to_ast, LojbanToken, NormalizedToken};

fn tok(k: LojbanToken, w: &str) -> NormalizedToken {
    NormalizedToken::Standard(k, w.to_string())
}

#[test]
fn parse_mi_klama_lo_zarci() {
    let toks = vec![
        tok(LojbanToken::Cmavo, "mi"),
        tok(LojbanToken::Cmavo, "cu"),
        tok(LojbanToken::Gismu, "klama"),
        tok(LojbanToken::Cmavo, "lo"),
        tok(LojbanToken::Gismu, "zarci"),
    ];
    let ast = parse_tokens_to_ast(&toks).unwrap();
    assert_eq!(ast.len(), 1);
    assert_eq!(ast[0].selbri, syntax::Selbri::Root("klama".to_string()));
    assert_eq!(
        ast[0].terms,
        vec![
            syntax::Sumti::ProSumti("mi".to_string()),
            syntax::Sumti::Description(Box::new(syntax::Selbri::Root("zarci".to_string()))),
        ]
    );
}

#[test]
fn parse_without_selbri_is_an_error() {
    let toks = vec![tok(LojbanToken::Cmavo, "mi"), tok(LojbanToken::Cmavo, "lo")];
    assert_eq!(parse_tokens_to_ast(&toks), Err("No selbri found in token stream".to_string()));
}

#[test]
fn pipeline_from_words() {
    let words = ["mi", "klama", "lo", "zarci"];
    let toks: Vec<NormalizedToken> = words.iter().map(|w| NormalizedToken::Standard(classify_word(w), w.to_string())).collect();
    let buffer = flatten_to_buffer(parse_tokens_to_ast(&toks).unwrap());
    assert_eq!(buffer.sentences.len(), 1);
    assert_eq!(buffer.sentences[0].head_terms.len(), 2);
    let mut c = SemanticCompiler::new(schema());
    let f = c.compile_bridi(&buffer.sentences[0], &buffer.selbris, &buffer.sumtis, &buffer.sentences);
    assert_eq!(reconstruct_sexp(&c, &f), MI_KLAMA_LO_ZARCI);
}

#[test]
fn flatten_tanru_and_description() {
    let tree = syntax::Bridi {
        selbri: syntax::Selbri::Tanru(
            Box::new(syntax::Selbri::Root("sutra".to_string())),
            Box::new(syntax::Selbri::Compound(vec!["x".to_string()])),
        ),
        terms: vec![syntax::Sumti::Description(Box::new(syntax::Selbri::Compound(vec![])))],
    };
    let b = flatten_to_buffer(vec![tree]);
    assert_eq!(
        b.selbris,
        vec![root("sutra"), root("unknown"), Selbri::Tanru(0, 1), root("desc")]
    );
    assert_eq!(b.sumtis, vec![Sumti::Description(Gadri::Lo, 3)]);
    assert_eq!(b.sentences, vec![bridi(2, vec![0], vec![], false)]);
}

#[test]
fn classify_words() {
    assert_eq!(classify_word("klama"), LojbanToken::Gismu);
    assert_eq!(classify_word("sutra"), LojbanToken::Gismu);
    assert_eq!(classify_word("blanu"), LojbanToken::Gismu);
    assert_eq!(classify_word(".bob."), LojbanToken::Name);
    assert_eq!(classify_word("lo"), LojbanToken::Cmavo);
}

#[test]
fn extract_arity_markers() {
    assert_eq!(Dictionary::extract_arity("x1 goes to x2 from x3 via x4 by means x5"), 5);
    assert_eq!(Dictionary::extract_arity("$x_{1}$ loves $x_{2}$"), 2);
    assert_eq!(Dictionary::extract_arity("x<sub>1</sub> is big in x <sub> 3 </sub>"), 3);
    assert_eq!(Dictionary::extract_arity("no places"), 1);
}

#[test]
fn dictionary_get_arity() {
    let d = Dictionary { arities: vec![("prami".to_string(), 2), ("barda".to_string(), 3)] };
    assert_eq!(d.get_arity("klama"), 5);
    assert_eq!(d.get_arity("barda"), 3);
    assert_eq!(d.get_arity("xyz"), 2);
}

#[test]
fn loader_records_gismu_only() {
    let mut l = DictionaryLoader::new();
    l.start_valsi("barda".to_string(), "gismu".to_string());
    l.text("ignored");
    l.start_definition();
    l.text("x1 is big in x");
    l.text("<sub>2</sub>");
    l.end_definition();
    l.end_valsi();
    l.start_valsi("lo".to_string(), "cmavo".to_string());
    l.start_definition();
    l.text("x1 x2 x3");
    l.end_definition();
    l.end_valsi();
    assert_eq!(l.schema.arities, vec![("barda".to_string(), 2)]);
}

#[test]
fn restrictor_on_a_name_is_dropped() {
    // mi poi barda cu danlu
    let selbris = vec![root("danlu"), root("barda")];
    let sumtis = vec![
        Sumti::ProSumti("mi".to_string()),
        Sumti::Restricted(0, RelativeClause { body_sentence: 1 }),
        Sumti::Unspecified,
    ];
    let sentences = vec![bridi(0, vec![1], vec![], false), bridi(1, vec![2], vec![], false)];
    let mut c = SemanticCompiler::new(schema());
    assert_eq!(compile(&mut c, &selbris, &sumtis, &sentences, 0), "(Pred \"danlu\" (Cons (Const \"mi\") (Nil)))");
}

#[test]
fn bound_arguments_past_arity_are_kept() {
    // barda be la .x. bei la .y.  (barda has one place)
    let selbris = vec![root("barda"), Selbri::WithArgs(0, vec![1, 2])];
    let sumtis = vec![
        Sumti::Name("a".to_string()),
        Sumti::Name("x".to_string()),
        Sumti::Name("y".to_string()),
    ];
    let sentences = vec![bridi(1, vec![0], vec![], false)];
    let mut c = SemanticCompiler::new(schema());
    assert_eq!(
        compile(&mut c, &selbris, &sumtis, &sentences, 0),
        "(Pred \"barda\" (Cons (Const \"a\") (Cons (Const \"x\") (Cons (Const \"y\") (Nil)))))"
    );
}

#[test]
fn outer_arguments_fill_places_after_bound_ones() {
    // klama be lo zarci: x1 from outside, x2 bound, x3.. from outside or unspecified
    let selbris = vec![root("klama"), Selbri::WithArgs(0, vec![1])];
    let sumtis = vec![
        Sumti::ProSumti("mi".to_string()),
        Sumti::Name("z".to_string()),
        Sumti::Name("w".to_string()),
        Sumti::Name("v".to_string()),
    ];
    let sentences = vec![bridi(1, vec![0], vec![2, 3], false)];
    let mut c = SemanticCompiler::new(schema());
    assert_eq!(
        compile(&mut c, &selbris, &sumtis, &sentences, 0),
        "(Pred \"klama\" (Cons (Const \"mi\") (Cons (Const \"z\") (Cons (Const \"v\") (Cons (Zoe) (Cons (Zoe) (Nil)))))))"
    );
}

use lojban_nesy::ast::AstBuffer;
use lojban_nesy::reasoning::{check_step, fol_schema, saturation_step};

#[test]
fn check_step_cases() {
    assert_eq!(check_step(true, &Ok(())), Ok(true));
    assert_eq!(check_step(false, &Ok(())), Ok(false));
    assert_eq!(check_step(true, &Err("x\nCheck failed: \ny".to_string())), Ok(false));
    assert_eq!(check_step(true, &Err("Unbound".to_string())), Err("Reasoning error: Unbound".to_string()));
}

#[test]
fn saturation_step_cases() {
    assert_eq!(saturation_step(&Ok(())), Ok(()));
    assert_eq!(saturation_step(&Err("bad".to_string())), Err("Saturation error: bad".to_string()));
}

#[test]
fn schema_text_declares_formulas() {
    let s = fol_schema();
    assert!(s.contains("(datatype Formula"));
    assert!(s.contains("(rewrite (Not (Not A)) A)"));
    assert!(s.contains("(relation IsTrue (Formula))"));
}

#[test]
fn query_conjunction_over_roots() {
    let p = "(Pred \"barda\" (Cons (Const \"x\") (Nil)))".to_string();
    let q = "(Pred \"sutra\" (Cons (Const \"x\") (Nil)))".to_string();
    let mut r = ReasoningCore::new().unwrap();
    r.assert_fact(&vec![p.clone()]).unwrap();
    assert_eq!(r.query_entailment(&vec![p.clone(), q.clone()]), Ok(false));
    assert_eq!(r.query_entailment(&vec![p]), Ok(true));
}

#[test]
fn query_fault_is_reasoning_error() {
    let mut r = ReasoningCore::new().unwrap();
    let e = r.query_entailment(&vec!["(Undeclared 1)".to_string()]).unwrap_err();
    assert!(e.starts_with("Reasoning error: "));
}

#[test]
fn compile_buffer_numbers_across_sentences() {
    let ast = AstBuffer {
        selbris: vec![root("klama"), root("zarci")],
        sumtis: vec![Sumti::ProSumti("mi".to_string()), Sumti::Description(Gadri::Lo, 1)],
        sentences: vec![bridi(0, vec![0], vec![1], false), bridi(0, vec![0], vec![1], false)],
    };
    let mut c = SemanticCompiler::new(schema());
    let forms = c.compile_buffer(&ast);
    assert_eq!(forms.len(), 2);
    assert_eq!(reconstruct_sexp(&c, &forms[0]), MI_KLAMA_LO_ZARCI);
    assert!(reconstruct_sexp(&c, &forms[1]).starts_with("(Exists \"_v1\" "));
}

#[test]
fn flatten_one_sumti_per_term() {
    let t1 = syntax::Bridi {
        selbri: syntax::Selbri::Root("klama".to_string()),
        terms: vec![syntax::Sumti::ProSumti("mi".to_string()), syntax::Sumti::Name("x".to_string())],
    };
    let t2 = syntax::Bridi {
        selbri: syntax::Selbri::Root("barda".to_string()),
        terms: vec![syntax::Sumti::QuotedLiteral("q".to_string())],
    };
    let b = flatten_to_buffer(vec![t1, t2]);
    assert_eq!(b.sumtis.len(), 3);
    assert_eq!(b.sentences[0].head_terms, vec![0, 1]);
    assert_eq!(b.sentences[1].head_terms, vec![2]);
}
