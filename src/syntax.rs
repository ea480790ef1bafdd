//! The tree form of a sentence and its construction from a token stream.
use vstd::prelude::*;
use crate::ast;
use crate::lexicon::text_eq;

verus! {

/// The word classes the lexer assigns.
#[derive(Clone, Copy, Debug, PartialEq, Eq)]
pub enum LojbanToken {
    Gismu,
    Cmavo,
    Name,
    Unknown,
}

/// A token after metalinguistic resolution.
#[derive(Clone, Debug, PartialEq)]
pub enum NormalizedToken {
    Standard(LojbanToken, String),
    Quoted(String),
    Glued(Vec<String>),
}

/// A relation term of the tree form.
#[derive(Debug, PartialEq)]
pub enum Selbri {
    Root(String),
    Compound(Vec<String>),
    Tanru(Box<Selbri>, Box<Selbri>),
}

/// An argument term of the tree form.
#[derive(Debug, PartialEq)]
pub enum Sumti {
    ProSumti(String),
    Description(Box<Selbri>),
    Name(String),
    QuotedLiteral(String),
}

/// One sentence of the tree form.
#[derive(Debug, PartialEq)]
pub struct Bridi {
    pub selbri: Selbri,
    pub terms: Vec<Sumti>,
}

pub open spec fn is_word(t: NormalizedToken, k: LojbanToken, w: Seq<char>) -> bool {
    t is Standard && t->Standard_0 == k && t->Standard_1@ == w
}

pub open spec fn is_kind(t: NormalizedToken, k: LojbanToken) -> bool {
    t is Standard && t->Standard_0 == k
}

/// What the tokens from `i` on add to the terms and the relation found so
/// far: `lo` with the gismu after it is a description (the token after `lo`
/// is consumed either way), `mi` and `do` are pro-sumti, `cu` and unknown
/// tokens are skipped, and the last gismu is the relation.
pub open spec fn parse_from(
    toks: Seq<NormalizedToken>,
    i: nat,
    terms: Seq<Sumti>,
    selbri: Option<Seq<char>>,
) -> (Seq<Sumti>, Option<Seq<char>>)
    decreases toks.len() + 1 - i,
{
    if i >= toks.len() {
        (terms, selbri)
    } else if is_word(toks[i as int], LojbanToken::Cmavo, "lo"@) {
        if i + 1 < toks.len() && is_kind(toks[i + 1int], LojbanToken::Gismu) {
            parse_from(
                toks,
                i + 2,
                terms.push(Sumti::Description(Box::new(Selbri::Root(toks[i + 1int]->Standard_1)))),
                selbri,
            )
        } else {
            parse_from(toks, i + 2, terms, selbri)
        }
    } else if is_word(toks[i as int], LojbanToken::Cmavo, "mi"@) || is_word(toks[i as int], LojbanToken::Cmavo, "do"@) {
        parse_from(toks, i + 1, terms.push(Sumti::ProSumti(toks[i as int]->Standard_1)), selbri)
    } else if is_kind(toks[i as int], LojbanToken::Gismu) {
        parse_from(toks, i + 1, terms, Some(toks[i as int]->Standard_1@))
    } else {
        parse_from(toks, i + 1, terms, selbri)
    }
}

pub open spec fn opt_view(o: Option<String>) -> Option<Seq<char>> {
    match o {
        Some(s) => Some(s@),
        None => None,
    }
}

/// Builds the sentence of a token stream: `[sumti]* [cu] selbri [sumti]*`.
pub fn parse_tokens_to_ast(tokens: &[NormalizedToken]) -> (r: Result<Vec<Bridi>, String>)
    ensures
        ({
            let (terms, sel) = parse_from(tokens@, 0, seq![], None);
            &&& (r is Ok <==> sel is Some)
            &&& r is Ok ==> {
                &&& r->Ok_0@.len() == 1
                &&& r->Ok_0@[0].terms@ == terms
                &&& r->Ok_0@[0].selbri is Root
                &&& r->Ok_0@[0].selbri->Root_0@ == sel->Some_0
            }
            &&& r is Err ==> r->Err_0@ == "No selbri found in token stream"@
        }),
{
    proof {
        reveal_strlit("lo");
        reveal_strlit("mi");
        reveal_strlit("do");
        reveal_strlit("cu");
    }
    let ghost total = parse_from(tokens@, 0, seq![], None);
    let mut terms: Vec<Sumti> = Vec::new();
    let mut selbri: Option<String> = None;
    let mut pos: usize = 0;
    while pos < tokens.len()
        invariant
            pos <= tokens@.len(),
            parse_from(
                tokens@,
                pos as nat,
                terms@,
                opt_view(selbri),
            ) == total,
        decreases tokens.len() - pos,
    {
        let ghost selv = opt_view(selbri);
        let t = &tokens[pos];
        match t {
            NormalizedToken::Standard(LojbanToken::Cmavo, s) if text_eq(s.as_str(), "lo") => {
                pos = pos + 1;
                if pos < tokens.len() {
                    match &tokens[pos] {
                        NormalizedToken::Standard(LojbanToken::Gismu, g) => {
                            terms.push(Sumti::Description(Box::new(Selbri::Root(g.clone()))));
                        },
                        _ => {},
                    }
                    pos = pos + 1;
                } else {
                    assert(parse_from(tokens@, (pos + 1) as nat, terms@, selv) == (terms@, selv));
                    assert(parse_from(tokens@, pos as nat, terms@, selv) == (terms@, selv));
                }
            },
            NormalizedToken::Standard(LojbanToken::Cmavo, s) if text_eq(s.as_str(), "mi") || text_eq(s.as_str(), "do") => {
                terms.push(Sumti::ProSumti(s.clone()));
                pos = pos + 1;
            },
            NormalizedToken::Standard(LojbanToken::Gismu, s) => {
                selbri = Some(s.clone());
                pos = pos + 1;
            },
            _ => {
                pos = pos + 1;
            },
        }
    }
    match selbri {
        Some(s) => {
            let mut out: Vec<Bridi> = Vec::new();
            out.push(Bridi { selbri: Selbri::Root(s), terms });
            Ok(out)
        },
        None => Err(String::from_str("No selbri found in token stream")),
    }
}

pub open spec fn is_vowel(c: char) -> bool {
    c == 'a' || c == 'e' || c == 'i' || c == 'o' || c == 'u'
}

pub open spec fn is_consonant(c: char) -> bool {
    c == 'b' || c == 'c' || c == 'd' || c == 'f' || c == 'g' || c == 'j' || c == 'k' || c == 'l'
        || c == 'm' || c == 'n' || c == 'p' || c == 'r' || c == 's' || c == 't' || c == 'v'
        || c == 'x' || c == 'z'
}

/// Five letters shaped CVCCV or CCVCV.
pub open spec fn is_gismu_shape(w: Seq<char>) -> bool {
    &&& w.len() == 5
    &&& is_consonant(w[0]) && is_vowel(w[4]) && is_consonant(w[3])
    &&& ((is_vowel(w[1]) && is_consonant(w[2])) || (is_consonant(w[1]) && is_vowel(w[2])))
}

fn vowel(c: char) -> (r: bool)
    ensures
        r == is_vowel(c),
{
    c == 'a' || c == 'e' || c == 'i' || c == 'o' || c == 'u'
}

fn consonant(c: char) -> (r: bool)
    ensures
        r == is_consonant(c),
{
    c == 'b' || c == 'c' || c == 'd' || c == 'f' || c == 'g' || c == 'j' || c == 'k' || c == 'l'
        || c == 'm' || c == 'n' || c == 'p' || c == 'r' || c == 's' || c == 't' || c == 'v'
        || c == 'x' || c == 'z'
}

/// The word class of `w`: a gismu by its shape, a name when it starts with
/// a pause `.`, a cmavo otherwise.
pub fn classify_word(w: &str) -> (r: LojbanToken)
    ensures
        is_gismu_shape(w@) ==> r == LojbanToken::Gismu,
        !is_gismu_shape(w@) && w@.len() > 0 && w@[0] == '.' ==> r == LojbanToken::Name,
        !is_gismu_shape(w@) && !(w@.len() > 0 && w@[0] == '.') ==> r == LojbanToken::Cmavo,
{
    let n = w.unicode_len();
    if n == 5 {
        let c0 = w.get_char(0);
        let c1 = w.get_char(1);
        let c2 = w.get_char(2);
        let c3 = w.get_char(3);
        let c4 = w.get_char(4);
        if consonant(c0) && vowel(c4) && consonant(c3)
            && ((vowel(c1) && consonant(c2)) || (consonant(c1) && vowel(c2))) {
            return LojbanToken::Gismu;
        }
    }
    if n > 0 && w.get_char(0) == '.' {
        LojbanToken::Name
    } else {
        LojbanToken::Cmavo
    }
}

/// The text of a root selbri, or `fallback` for any other form.
pub open spec fn root_text(s: Selbri, fallback: Seq<char>) -> Seq<char> {
    match s {
        Selbri::Root(w) => w@,
        _ => fallback,
    }
}

/// Arena selbri `id` is the flat form of `t`: a root or compound as it is,
/// a tanru with its two parts as roots (`unknown` for a part that is not).
pub open spec fn selbri_flattened(sels: Seq<ast::Selbri>, id: int, t: Selbri) -> bool {
    0 <= id < sels.len() && match t {
        Selbri::Root(w) => sels[id] is Root && sels[id]->Root_0@ == w@,
        Selbri::Compound(parts) => sels[id] is Compound && sels[id]->Compound_0@ == parts@,
        Selbri::Tanru(m, h) => sels[id] is Tanru && {
            let mi = sels[id]->Tanru_0 as int;
            let hi = sels[id]->Tanru_1 as int;
            &&& 0 <= mi < sels.len() && sels[mi] is Root && sels[mi]->Root_0@ == root_text(*m, "unknown"@)
            &&& 0 <= hi < sels.len() && sels[hi] is Root && sels[hi]->Root_0@ == root_text(*h, "unknown"@)
        },
    }
}

/// Arena sumti `id` is the flat form of `t`; a description becomes a `lo`
/// description of a root selbri (`desc` when the tree's selbri is not a root).
pub open spec fn sumti_flattened(sels: Seq<ast::Selbri>, sums: Seq<ast::Sumti>, id: int, t: Sumti) -> bool {
    0 <= id < sums.len() && match t {
        Sumti::ProSumti(w) => sums[id] is ProSumti && sums[id]->ProSumti_0@ == w@,
        Sumti::Name(w) => sums[id] is Name && sums[id]->Name_0@ == w@,
        Sumti::QuotedLiteral(w) => sums[id] is QuotedLiteral && sums[id]->QuotedLiteral_0@ == w@,
        Sumti::Description(d) => sums[id] is Description && sums[id]->Description_0 == ast::Gadri::Lo && {
            let di = sums[id]->Description_1 as int;
            0 <= di < sels.len() && sels[di] is Root && sels[di]->Root_0@ == root_text(*d, "desc"@)
        },
    }
}

/// The number of terms in the first `k` sentences.
pub open spec fn terms_before(list: Seq<Bridi>, k: int) -> nat
    decreases k,
{
    if k <= 0 {
        0
    } else {
        terms_before(list, k - 1) + list[k - 1].terms@.len()
    }
}

/// Sentence `b` of the arena is the flat form of `t`.
pub open spec fn bridi_flattened(a: ast::AstBuffer, b: ast::Bridi, t: Bridi) -> bool {
    &&& selbri_flattened(a.selbris@, b.relation as int, t.selbri)
    &&& b.head_terms@.len() == t.terms@.len()
    &&& forall|j: int| 0 <= j < t.terms@.len() ==> sumti_flattened(a.selbris@, a.sumtis@, #[trigger] b.head_terms@[j] as int, t.terms@[j])
    &&& b.tail_terms@.len() == 0
    &&& !b.negated
}

proof fn lemma_flattened_grows(a: ast::AstBuffer, a2: ast::AstBuffer, b: ast::Bridi, t: Bridi)
    requires
        bridi_flattened(a, b, t),
        a.selbris@.len() <= a2.selbris@.len(),
        a.sumtis@.len() <= a2.sumtis@.len(),
        a2.selbris@.subrange(0, a.selbris@.len() as int) == a.selbris@,
        a2.sumtis@.subrange(0, a.sumtis@.len() as int) == a.sumtis@,
    ensures
        bridi_flattened(a2, b, t),
{
    assert forall|i: int| 0 <= i < a.selbris@.len() implies a2.selbris@[i] == a.selbris@[i] by {
        assert(a2.selbris@.subrange(0, a.selbris@.len() as int)[i] == a2.selbris@[i]);
    }
    assert forall|i: int| 0 <= i < a.sumtis@.len() implies a2.sumtis@[i] == a.sumtis@[i] by {
        assert(a2.sumtis@.subrange(0, a.sumtis@.len() as int)[i] == a2.sumtis@[i]);
    }
    assert forall|j: int| 0 <= j < t.terms@.len() implies sumti_flattened(a2.selbris@, a2.sumtis@, #[trigger] b.head_terms@[j] as int, t.terms@[j]) by {
        assert(sumti_flattened(a.selbris@, a.sumtis@, b.head_terms@[j] as int, t.terms@[j]));
    }
}

fn root_or(s: Selbri, fallback: &str) -> (r: ast::Selbri)
    ensures
        r is Root && r->Root_0@ == root_text(s, fallback@),
{
    match s {
        Selbri::Root(w) => ast::Selbri::Root(w),
        _ => ast::Selbri::Root(String::from_str(fallback)),
    }
}

/// The arena form of parsed sentences: one arena sentence per tree
/// sentence, in order, each the flat form of its tree (while the arenas'
/// indices fit in `u32`).
pub fn flatten_to_buffer(ast_list: Vec<Bridi>) -> (r: ast::AstBuffer)
    ensures
        r.sentences@.len() == ast_list@.len(),
        r.sumtis@.len() == terms_before(ast_list@, ast_list@.len() as int),
        forall|k: int, j: int| 0 <= k < ast_list@.len() && 0 <= j < r.sentences@[k].head_terms@.len()
            ==> #[trigger] r.sentences@[k].head_terms@[j] == (terms_before(ast_list@, k) + j) as u32,
        r.selbris@.len() < 0xffff_ffff && r.sumtis@.len() < 0xffff_ffff ==> forall|k: int|
            0 <= k < ast_list@.len() ==> bridi_flattened(r, #[trigger] r.sentences@[k], ast_list@[k]),
{
    let ghost list = ast_list@;
    let mut buffer = ast::AstBuffer { selbris: Vec::new(), sumtis: Vec::new(), sentences: Vec::new() };
    let mut rest = ast_list;
    let mut k: usize = 0;
    while rest.len() > 0
        invariant
            k + rest@.len() == list.len(),
            rest@ == list.subrange(k as int, list.len() as int),
            buffer.sentences@.len() == k,
            buffer.sumtis@.len() == terms_before(list, k as int),
            forall|q: int, j: int| 0 <= q < k && 0 <= j < buffer.sentences@[q].head_terms@.len()
                ==> #[trigger] buffer.sentences@[q].head_terms@[j] == (terms_before(list, q) + j) as u32,
            forall|q: int| 0 <= q < k ==> (buffer.selbris@.len() < 0xffff_ffff && buffer.sumtis@.len() < 0xffff_ffff
                ==> bridi_flattened(buffer, #[trigger] buffer.sentences@[q], list[q])),
        decreases rest.len(),
    {
        let ghost b0 = buffer;
        let bridi = rest.remove(0);
        let ghost tb = bridi;
        assert(tb == list[k as int]);
        let Bridi { selbri, terms } = bridi;
        let sel_data = match selbri {
            Selbri::Root(w) => ast::Selbri::Root(w),
            Selbri::Compound(parts) => ast::Selbri::Compound(parts),
            Selbri::Tanru(m, h) => {
                let m_id = buffer.selbris.len() as u32;
                buffer.selbris.push(root_or(*m, "unknown"));
                let h_id = buffer.selbris.len() as u32;
                buffer.selbris.push(root_or(*h, "unknown"));
                ast::Selbri::Tanru(m_id, h_id)
            },
        };
        let selbri_id = buffer.selbris.len() as u32;
        buffer.selbris.push(sel_data);
        proof {
            if buffer.selbris@.len() < 0xffff_ffff {
                assert(selbri_flattened(buffer.selbris@, selbri_id as int, tb.selbri));
            }
        }
        let ghost terms0 = terms@;
        let mut ts = terms;
        let mut term_ids: Vec<u32> = Vec::new();
        let mut j: usize = 0;
        while ts.len() > 0
            invariant
                j + ts@.len() == terms0.len(),
                ts@ == terms0.subrange(j as int, terms0.len() as int),
                terms0 == tb.terms@,
                term_ids@.len() == j,
                buffer.sumtis@.len() == terms_before(list, k as int) + j,
                forall|q: int| 0 <= q < j ==> #[trigger] term_ids@[q] == (terms_before(list, k as int) + q) as u32,
                k < list.len(),
                tb == list[k as int],
                b0.selbris@.len() <= buffer.selbris@.len(),
                b0.sumtis@.len() <= buffer.sumtis@.len(),
                buffer.selbris@.subrange(0, b0.selbris@.len() as int) == b0.selbris@,
                buffer.sumtis@.subrange(0, b0.sumtis@.len() as int) == b0.sumtis@,
                buffer.sentences@ == b0.sentences@,
                selbri_id < buffer.selbris@.len() || buffer.selbris@.len() >= 0xffff_ffff,
                buffer.selbris@.len() < 0xffff_ffff ==> selbri_flattened(buffer.selbris@, selbri_id as int, tb.selbri),
                forall|q: int| 0 <= q < j ==> (buffer.selbris@.len() < 0xffff_ffff && buffer.sumtis@.len() < 0xffff_ffff
                    ==> sumti_flattened(buffer.selbris@, buffer.sumtis@, #[trigger] term_ids@[q] as int, terms0[q])),
            decreases ts.len(),
        {
            let ghost s1 = buffer.selbris@;
            let ghost u1 = buffer.sumtis@;
            let term = ts.remove(0);
            let ghost tt = term;
            assert(tt == terms0[j as int]);
            let sumti_id = buffer.sumtis.len() as u32;
            let data = match term {
                Sumti::ProSumti(w) => ast::Sumti::ProSumti(w),
                Sumti::Name(w) => ast::Sumti::Name(w),
                Sumti::QuotedLiteral(w) => ast::Sumti::QuotedLiteral(w),
                Sumti::Description(d) => {
                    let d_id = buffer.selbris.len() as u32;
                    buffer.selbris.push(root_or(*d, "desc"));
                    ast::Sumti::Description(ast::Gadri::Lo, d_id)
                },
            };
            buffer.sumtis.push(data);
            term_ids.push(sumti_id);
            proof {
                assert(buffer.selbris@.subrange(0, s1.len() as int) =~= s1);
                assert(buffer.sumtis@.subrange(0, u1.len() as int) =~= u1);
                assert(buffer.selbris@.subrange(0, b0.selbris@.len() as int) =~= b0.selbris@) by {
                    assert(s1.subrange(0, b0.selbris@.len() as int) == b0.selbris@);
                }
                assert(buffer.sumtis@.subrange(0, b0.sumtis@.len() as int) =~= b0.sumtis@) by {
                    assert(u1.subrange(0, b0.sumtis@.len() as int) == b0.sumtis@);
                }
                if buffer.selbris@.len() < 0xffff_ffff && buffer.sumtis@.len() < 0xffff_ffff {
                    assert forall|i: int| 0 <= i < s1.len() implies buffer.selbris@[i] == s1[i] by {
                        assert(buffer.selbris@.subrange(0, s1.len() as int)[i] == buffer.selbris@[i]);
                    }
                    assert forall|i: int| 0 <= i < u1.len() implies buffer.sumtis@[i] == u1[i] by {
                        assert(buffer.sumtis@.subrange(0, u1.len() as int)[i] == buffer.sumtis@[i]);
                    }
                    assert(selbri_flattened(buffer.selbris@, selbri_id as int, tb.selbri));
                    assert forall|q: int| 0 <= q < j + 1 implies sumti_flattened(buffer.selbris@, buffer.sumtis@, #[trigger] term_ids@[q] as int, terms0[q]) by {
                        if q < j {
                            assert(sumti_flattened(s1, u1, term_ids@[q] as int, terms0[q]));
                        } else {
                            assert(sumti_flattened(buffer.selbris@, buffer.sumtis@, sumti_id as int, tt));
                        }
                    }
                }
            }
            j = term_ids.len();
        }
        let ghost ids_done = term_ids@;
        let ghost sent_before = buffer.sentences@;
        buffer.sentences.push(ast::Bridi { relation: selbri_id, head_terms: term_ids, tail_terms: Vec::new(), negated: false });
        proof {
            assert(terms_before(list, k + 1) == terms_before(list, k as int) + terms0.len());
            assert forall|q: int, jj: int| 0 <= q < k + 1 && 0 <= jj < buffer.sentences@[q].head_terms@.len()
                implies #[trigger] buffer.sentences@[q].head_terms@[jj] == (terms_before(list, q) + jj) as u32 by {
                if q < k {
                    assert(buffer.sentences@[q] == sent_before[q]);
                } else {
                    assert(buffer.sentences@[q].head_terms@ == ids_done);
                }
            }
            let nb = buffer.sentences@[k as int];
            if buffer.selbris@.len() < 0xffff_ffff && buffer.sumtis@.len() < 0xffff_ffff {
                assert(bridi_flattened(buffer, nb, tb));
                assert forall|q: int| 0 <= q < k + 1 implies bridi_flattened(buffer, #[trigger] buffer.sentences@[q], list[q]) by {
                    if q < k {
                        assert(bridi_flattened(b0, b0.sentences@[q], list[q]));
                        lemma_flattened_grows(b0, buffer, b0.sentences@[q], list[q]);
                    }
                }
            }
        }
        k = buffer.sentences.len();
    }
    buffer
}

} // verus!
