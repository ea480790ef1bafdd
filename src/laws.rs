//! Laws of compilation, stated over the model and proved.
use vstd::prelude::*;
use crate::ast::{Arena, Conversion, Selbri};
use crate::lexicon::JbovlasteSchema;
use crate::logic::{and_f, Term};
use crate::model::{apply, decimal, digit_char, fresh_name, place_step, resolve_id, swap_first, tag_index, Places};

verus! {

/// A tanru `M H` applied to arguments is the conjunction of its modifier and
/// its head, each applied to those same arguments.
pub proof fn lemma_tanru_conjunction(
    dict: JbovlasteSchema,
    a: Arena,
    id: u32,
    m: u32,
    h: u32,
    args: Seq<Term>,
    c: nat,
    fuel: nat,
)
    requires
        fuel > 0,
        id < a.selbris.len(),
        a.selbris[id as int] == Selbri::Tanru(m, h),
    ensures
        ({
            let l = apply(dict, a, m, args, c, (fuel - 1) as nat);
            let r = apply(dict, a, h, args, l.next, (fuel - 1) as nat);
            apply(dict, a, id, args, c, fuel).form == and_f(l.form, r.form)
        }),
{
}

/// Swapping the first two places twice gives the places back.
pub proof fn lemma_swap_involution<T>(args: Seq<T>, j: int)
    requires
        0 < j,
    ensures
        swap_first(swap_first(args, j), j) == args,
{
    if j < args.len() {
        assert(swap_first(swap_first(args, j), j) =~= args);
    }
}

/// `se se P` applied to arguments is `P` applied to the same arguments.
pub proof fn lemma_se_involution(
    dict: JbovlasteSchema,
    a: Arena,
    id: u32,
    mid: u32,
    p: u32,
    args: Seq<Term>,
    c: nat,
    fuel: nat,
)
    requires
        fuel >= 2,
        id < a.selbris.len(),
        mid < a.selbris.len(),
        a.selbris[id as int] == Selbri::Converted(Conversion::Se, mid),
        a.selbris[mid as int] == Selbri::Converted(Conversion::Se, p),
    ensures
        apply(dict, a, id, args, c, fuel) == apply(dict, a, p, args, c, (fuel - 2) as nat),
{
    lemma_swap_involution(args, 1);
    assert(apply(dict, a, id, args, c, fuel) == apply(dict, a, mid, swap_first(args, 1), c, (fuel - 1) as nat));
}

/// Numbers with the same decimal digits are equal.
pub proof fn lemma_decimal_injective(i: nat, j: nat)
    requires
        decimal(i) == decimal(j),
    ensures
        i == j,
    decreases i,
{
    let di = decimal(i);
    let dj = decimal(j);
    if i < 10 && j < 10 {
        assert(di == seq![digit_char(i)]);
        assert(dj == seq![digit_char(j)]);
        assert(seq![digit_char(i)][0] == digit_char(i));
        assert(seq![digit_char(j)][0] == digit_char(j));
        assert(digit_char(i) == digit_char(j));
    } else if i < 10 {
        lemma_decimal_nonempty(j / 10);
        assert(di.len() == 1);
        assert(dj.len() >= 2);
    } else if j < 10 {
        lemma_decimal_nonempty(i / 10);
        assert(dj.len() == 1);
        assert(di.len() >= 2);
    } else {
        assert(di == decimal(i / 10).push(digit_char(i % 10)));
        assert(dj == decimal(j / 10).push(digit_char(j % 10)));
        let pi = decimal(i / 10).push(digit_char(i % 10));
        let pj = decimal(j / 10).push(digit_char(j % 10));
        assert(pi[pi.len() - 1] == digit_char(i % 10));
        assert(pj[pj.len() - 1] == digit_char(j % 10));
        assert(di.last() == dj.last());
        assert(di.drop_last() =~= decimal(i / 10));
        assert(dj.drop_last() =~= decimal(j / 10));
        lemma_decimal_injective(i / 10, j / 10);
        assert(digit_char(i % 10) == digit_char(j % 10));
        assert(i % 10 == j % 10);
        assert(i == 10 * (i / 10) + i % 10);
        assert(j == 10 * (j / 10) + j % 10);
    }
}

proof fn lemma_decimal_nonempty(n: nat)
    ensures
        decimal(n).len() >= 1,
    decreases n,
{
    if n >= 10 {
        lemma_decimal_nonempty(n / 10);
    }
}

/// Fresh variables made at different counter values have different names.
pub proof fn lemma_fresh_names_distinct(i: nat, j: nat)
    requires
        i != j,
    ensures
        fresh_name(i) != fresh_name(j),
{
    if fresh_name(i) == fresh_name(j) {
        assert(decimal(i) =~= fresh_name(i).subrange(2, fresh_name(i).len() as int));
        assert(decimal(j) =~= fresh_name(j).subrange(2, fresh_name(j).len() as int));
        lemma_decimal_injective(i, j);
    }
}

/// Two adjacent sumti tagged for different places may trade positions
/// without changing the places or the untagged queue, when resolving them
/// introduces no quantifier and no fresh variable.
pub proof fn lemma_adjacent_tags_commute(
    dict: JbovlasteSchema,
    a: Arena,
    id1: u32,
    id2: u32,
    n: nat,
    acc: Places,
    fuel: nat,
)
    requires
        fuel > 0,
        id1 < a.sumtis.len(),
        id2 < a.sumtis.len(),
        a.sumtis[id1 as int] is Tagged,
        a.sumtis[id2 as int] is Tagged,
        tag_index(a.sumtis[id1 as int]->Tagged_0) != tag_index(a.sumtis[id2 as int]->Tagged_0),
        acc.positioned.len() == n,
        ({
            let t1 = resolve_id(dict, a, a.sumtis[id1 as int]->Tagged_1, acc.next, (fuel - 1) as nat);
            let t2 = resolve_id(dict, a, a.sumtis[id2 as int]->Tagged_1, acc.next, (fuel - 1) as nat);
            &&& t1.next == acc.next && t1.quants.len() == 0
            &&& t2.next == acc.next && t2.quants.len() == 0
        }),
    ensures
        ({
            let one = place_step(dict, a, id2, n, place_step(dict, a, id1, n, acc, fuel), fuel);
            let two = place_step(dict, a, id1, n, place_step(dict, a, id2, n, acc, fuel), fuel);
            &&& one.positioned == two.positioned
            &&& one.untagged == two.untagged
            &&& one.next == two.next
        }),
{
    let one = place_step(dict, a, id2, n, place_step(dict, a, id1, n, acc, fuel), fuel);
    let two = place_step(dict, a, id1, n, place_step(dict, a, id2, n, acc, fuel), fuel);
    assert(one.positioned =~= two.positioned);
}

} // verus!
