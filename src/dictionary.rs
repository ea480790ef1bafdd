//! Arities read from a dictionary export: the place structure of each
//! definition, and lookups with their fallbacks.
use vstd::prelude::*;
use crate::lexicon::{lookup, text_eq};

verus! {

/// `s` with every occurrence of `pat` removed, scanning left to right.
pub open spec fn remove_all(s: Seq<char>, pat: Seq<char>) -> Seq<char>
    decreases s.len(),
{
    if pat.len() == 0 || s.len() < pat.len() {
        s
    } else if s.subrange(0, pat.len() as int) == pat {
        remove_all(s.subrange(pat.len() as int, s.len() as int), pat)
    } else {
        seq![s[0]] + remove_all(s.subrange(1, s.len() as int), pat)
    }
}

/// A definition with spaces, underscores, `<sub>` tags and braces removed,
/// so that `x_{5}` and `x <sub> 5 </sub>` both read `x5`.
pub open spec fn cleaned(d: Seq<char>) -> Seq<char> {
    remove_all(
        remove_all(
            remove_all(
                remove_all(remove_all(remove_all(d, " "@), "_"@), "<sub>"@),
                "</sub>"@,
            ),
            "{"@,
        ),
        "}"@,
    )
}

/// `x` followed by `digit` occurs in `s`.
pub open spec fn has_marker(s: Seq<char>, digit: char) -> bool {
    exists|i: int| 0 <= i && i + 1 < s.len() && #[trigger] s[i] == 'x' && s[i + 1] == digit
}

/// The highest place marker `x1`..`x5` of a cleaned definition, 1 if none.
pub open spec fn arity_of_definition(d: Seq<char>) -> usize {
    let c = cleaned(d);
    if has_marker(c, '5') {
        5
    } else if has_marker(c, '4') {
        4
    } else if has_marker(c, '3') {
        3
    } else if has_marker(c, '2') {
        2
    } else {
        1
    }
}

fn chars_of(s: &str) -> (r: Vec<char>)
    ensures
        r@ == s@,
{
    let n = s.unicode_len();
    let mut r: Vec<char> = Vec::new();
    let mut i: usize = 0;
    while i < n
        invariant
            n == s@.len(),
            i <= n,
            r@ == s@.subrange(0, i as int),
        decreases n - i,
    {
        r.push(s.get_char(i));
        i = i + 1;
        assert(r@ =~= s@.subrange(0, i as int));
    }
    assert(r@ =~= s@);
    r
}

fn strip(s: &Vec<char>, pat: &str) -> (r: Vec<char>)
    ensures
        r@ == remove_all(s@, pat@),
{
    let p = chars_of(pat);
    let n = s.len();
    let m = p.len();
    if m == 0 {
        let mut r: Vec<char> = Vec::new();
        let mut i: usize = 0;
        while i < n
            invariant
                n == s@.len(),
                i <= n,
                r@ == s@.subrange(0, i as int),
            decreases n - i,
        {
            r.push(s[i]);
            i = i + 1;
            assert(r@ =~= s@.subrange(0, i as int));
        }
        assert(r@ =~= s@);
        return r;
    }
    let mut out: Vec<char> = Vec::new();
    let mut i: usize = 0;
    assert(s@.subrange(0, n as int) =~= s@);
    while i < n
        invariant
            n == s@.len(),
            m == p@.len(),
            p@ == pat@,
            m > 0,
            i <= n,
            out@ + remove_all(s@.subrange(i as int, n as int), pat@) == remove_all(s@, pat@),
        decreases n - i,
    {
        let ghost rest = s@.subrange(i as int, n as int);
        let mut hit = false;
        if m <= n - i {
            let mut j: usize = 0;
            hit = true;
            while j < m
                invariant
                    m == p@.len(),
                    i + m <= n,
                    n == s@.len(),
                    j <= m,
                    hit == (forall|q: int| 0 <= q < j ==> s@[i + q] == p@[q]),
                decreases m - j,
            {
                if s[i + j] != p[j] {
                    hit = false;
                }
                j = j + 1;
            }
            if hit {
                assert(rest.subrange(0, m as int) =~= p@);
            } else {
                assert(rest.subrange(0, m as int) != pat@) by {
                    let w = choose|q: int| 0 <= q < m && s@[i + q] != p@[q];
                    assert(rest.subrange(0, m as int)[w] != p@[w]);
                }
            }
        }
        if hit {
            assert(rest.subrange(m as int, rest.len() as int) =~= s@.subrange(i + m, n as int));
            i = i + m;
        } else {
            assert(rest.subrange(1, rest.len() as int) =~= s@.subrange(i + 1, n as int));
            let ghost before = out@;
            out.push(s[i]);
            assert(out@ + remove_all(s@.subrange(i + 1, n as int), pat@) =~= before + (seq![rest[0]] + remove_all(rest.subrange(1, rest.len() as int), pat@)));
            i = i + 1;
        }
    }
    assert(s@.subrange(n as int, n as int) =~= Seq::<char>::empty());
    assert(out@ + Seq::<char>::empty() =~= out@);
    out
}

fn find_marker(s: &Vec<char>, digit: char) -> (r: bool)
    ensures
        r == has_marker(s@, digit),
{
    let mut i: usize = 0;
    while i < s.len() && s.len() - i > 1
        invariant
            i <= s@.len(),
            forall|k: int| 0 <= k < i && k + 1 < s@.len() ==> !(#[trigger] s@[k] == 'x' && s@[k + 1] == digit),
        decreases s.len() - i,
    {
        if s[i] == 'x' && s[i + 1] == digit {
            return true;
        }
        i = i + 1;
    }
    false
}

/// Arities loaded from a dictionary export, by word.
pub struct JbovlasteSchema {
    pub arities: Vec<(String, usize)>,
}

impl JbovlasteSchema {
    /// The arity a definition's place structure gives: the highest marker
    /// `x1`..`x5` once formatting is stripped, or 1 when there is none.
    pub fn extract_arity(definition: &str) -> (r: usize)
        ensures
            r == arity_of_definition(definition@),
    {
        let d = chars_of(definition);
        let d = strip(&d, " ");
        let d = strip(&d, "_");
        let d = strip(&d, "<sub>");
        let d = strip(&d, "</sub>");
        let d = strip(&d, "{");
        let d = strip(&d, "}");
        if find_marker(&d, '5') {
            5
        } else if find_marker(&d, '4') {
            4
        } else if find_marker(&d, '3') {
            3
        } else if find_marker(&d, '2') {
            2
        } else {
            1
        }
    }

    /// The arity used for `word`: 5 for `klama`, else its recorded arity
    /// (the latest entry), else 2.
    pub fn get_arity(&self, word: &str) -> (r: usize)
        ensures
            word@ == "klama"@ ==> r == 5,
            word@ != "klama"@ ==> r == match lookup(self.arities@, word@) {
                Some(a) => a,
                None => 2,
            },
    {
        if text_eq(word, "klama") {
            return 5;
        }
        let mut i: usize = self.arities.len();
        assert(self.arities@.subrange(0, i as int) =~= self.arities@);
        while i > 0
            invariant
                i <= self.arities@.len(),
                word@ != "klama"@,
                lookup(self.arities@, word@) == lookup(self.arities@.subrange(0, i as int), word@),
            decreases i,
        {
            proof {
                let s = self.arities@.subrange(0, i as int);
                assert(s.drop_last() =~= self.arities@.subrange(0, i - 1));
            }
            if text_eq(self.arities[i - 1].0.as_str(), word) {
                return self.arities[i - 1].1;
            }
            i = i - 1;
        }
        2
    }
}

/// The state of a pass over a dictionary export's elements: the `valsi`
/// being read, whether its `definition` is open, and the arities so far.
pub struct DictionaryLoader {
    pub word: String,
    pub kind: String,
    pub in_definition: bool,
    pub definition: String,
    pub schema: JbovlasteSchema,
}

impl DictionaryLoader {
    /// A loader that has read nothing.
    pub fn new() -> (r: Self)
        ensures
            r.schema.arities@.len() == 0,
            !r.in_definition,
            r.definition@.len() == 0,
    {
        DictionaryLoader {
            word: String::new(),
            kind: String::new(),
            in_definition: false,
            definition: String::new(),
            schema: JbovlasteSchema { arities: Vec::new() },
        }
    }

    /// A `valsi` element opens, with its `word` and `type` attributes (empty
    /// when absent).
    pub fn start_valsi(&mut self, word: String, kind: String)
        ensures
            final(self).word == word,
            final(self).kind == kind,
            final(self).definition@.len() == 0,
            final(self).in_definition == old(self).in_definition,
            final(self).schema == old(self).schema,
    {
        self.word = word;
        self.kind = kind;
        self.definition = String::new();
    }

    /// A `definition` element opens.
    pub fn start_definition(&mut self)
        ensures
            final(self).in_definition,
            final(self).word == old(self).word,
            final(self).kind == old(self).kind,
            final(self).definition == old(self).definition,
            final(self).schema == old(self).schema,
    {
        self.in_definition = true;
    }

    /// Text inside the current element; kept only inside a definition.
    pub fn text(&mut self, t: &str)
        ensures
            final(self).definition@ == if old(self).in_definition {
                old(self).definition@ + t@
            } else {
                old(self).definition@
            },
            final(self).in_definition == old(self).in_definition,
            final(self).word == old(self).word,
            final(self).kind == old(self).kind,
            final(self).schema == old(self).schema,
    {
        if self.in_definition {
            self.definition.append(t);
        }
    }

    /// A `definition` element closes.
    pub fn end_definition(&mut self)
        ensures
            !final(self).in_definition,
            final(self).word == old(self).word,
            final(self).kind == old(self).kind,
            final(self).definition == old(self).definition,
            final(self).schema == old(self).schema,
    {
        self.in_definition = false;
    }

    /// A `valsi` element closes: a gismu or lujvo records the arity of its
    /// definition; other kinds record nothing.
    pub fn end_valsi(&mut self)
        ensures
            (old(self).kind@ == "gismu"@ || old(self).kind@ == "lujvo"@) ==> final(self).schema.arities@
                == old(self).schema.arities@.push(
                (old(self).word, arity_of_definition(old(self).definition@)),
            ),
            !(old(self).kind@ == "gismu"@ || old(self).kind@ == "lujvo"@) ==> final(self).schema
                == old(self).schema,
            final(self).word == old(self).word,
            final(self).kind == old(self).kind,
            final(self).definition == old(self).definition,
            final(self).in_definition == old(self).in_definition,
    {
        if text_eq(self.kind.as_str(), "gismu") || text_eq(self.kind.as_str(), "lujvo") {
            let arity = JbovlasteSchema::extract_arity(self.definition.as_str());
            self.schema.arities.push((self.word.clone(), arity));
        }
    }
}

} // verus!
