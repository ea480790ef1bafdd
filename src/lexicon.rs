//! The word-to-arity table that the compiler consults.
use vstd::prelude::*;

verus! {

/// Whether two strings hold the same characters.
pub fn text_eq(a: &str, b: &str) -> (r: bool)
    ensures
        r == (a@ == b@),
{
    let n = a.unicode_len();
    if n != b.unicode_len() {
        return false;
    }
    let mut i: usize = 0;
    while i < n
        invariant
            n == a@.len(),
            n == b@.len(),
            i <= n,
            forall|j: int| 0 <= j < i ==> a@[j] == b@[j],
        decreases n - i,
    {
        if a.get_char(i) != b.get_char(i) {
            return false;
        }
        i = i + 1;
    }
    assert(a@ =~= b@);
    true
}

/// The arity that the latest entry for `w` gives, if any.
pub open spec fn lookup(entries: Seq<(String, usize)>, w: Seq<char>) -> Option<usize>
    decreases entries.len(),
{
    if entries.len() == 0 {
        None
    } else if entries.last().0@ == w {
        Some(entries.last().1)
    } else {
        lookup(entries.drop_last(), w)
    }
}

/// Predicate arities by word; a later entry for a word overrides an earlier one.
pub struct JbovlasteSchema {
    pub entries: Vec<(String, usize)>,
}

impl JbovlasteSchema {
    pub open spec fn arity_of(&self, w: Seq<char>) -> Option<usize> {
        lookup(self.entries@, w)
    }

    /// The arity used for `w`: its entry, or 2 for an unknown word.
    pub open spec fn arity_or_default(&self, w: Seq<char>) -> nat {
        match self.arity_of(w) {
            Some(a) => a as nat,
            None => 2,
        }
    }

    /// An empty table.
    pub fn new() -> (r: Self)
        ensures
            forall|w: Seq<char>| r.arity_of(w) == None::<usize>,
    {
        JbovlasteSchema { entries: Vec::new() }
    }

    /// Records `arity` for `word`, replacing what the table held for it.
    pub fn insert(&mut self, word: String, arity: usize)
        ensures
            final(self).arity_of(word@) == Some(arity),
            forall|w: Seq<char>| w != word@ ==> final(self).arity_of(w) == old(self).arity_of(w),
    {
        self.entries.push((word, arity));
        assert(self.entries@.drop_last() =~= old(self).entries@);
    }

    /// The arity recorded for `word`, or `None` for a word not in the table.
    pub fn get_arity(&self, word: &str) -> (r: Option<usize>)
        ensures
            r == self.arity_of(word@),
    {
        let mut i: usize = self.entries.len();
        assert(self.entries@.subrange(0, i as int) =~= self.entries@);
        while i > 0
            invariant
                i <= self.entries@.len(),
                lookup(self.entries@, word@) == lookup(self.entries@.subrange(0, i as int), word@),
            decreases i,
        {
            let e = &self.entries[i - 1];
            proof {
                let s = self.entries@.subrange(0, i as int);
                assert(s.last() == self.entries@[i - 1]);
                assert(s.drop_last() =~= self.entries@.subrange(0, i - 1));
            }
            if text_eq(e.0.as_str(), word) {
                return Some(e.1);
            }
            i = i - 1;
        }
        None
    }

    /// The arity recorded for `word`, or 2 for a word not in the table.
    pub fn get_arity_or_default(&self, word: &str) -> (r: usize)
        ensures
            r as nat == self.arity_or_default(word@),
    {
        match self.get_arity(word) {
            Some(a) => a,
            None => 2,
        }
    }
}

} // verus!
