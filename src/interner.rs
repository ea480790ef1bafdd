//! The symbol table shared by a compilation session, kept in a `lasso::Rodeo`.
use vstd::prelude::*;

verus! {

#[verifier::external_type_specification]
#[verifier::external_body]
#[verifier::reject_recursive_types(K)]
#[verifier::reject_recursive_types(S)]
pub struct ExRodeo<K, S>(lasso::Rodeo<K, S>);

#[verifier::external_type_specification]
#[verifier::external_body]
pub struct ExSpur(lasso::Spur);

/// The strings held by an interner, in the order in which they were first
/// interned: the string of handle `k` is the entry at index `k`.
pub uninterp spec fn interned_strings(r: lasso::Rodeo) -> Seq<Seq<char>>;

/// The largest number of strings that the default key type can address.
pub open spec fn key_space() -> nat {
    0xffff_fffe
}

/// Relies on `lasso::Rodeo::new`: a fresh interner holds no strings.
#[verifier::external_body]
pub(crate) fn new_rodeo() -> (r: lasso::Rodeo)
    ensures
        interned_strings(r) == Seq::<Seq<char>>::empty(),
{
    lasso::Rodeo::new()
}

/// Relies on `lasso::Rodeo::get_or_intern`: a string that is present keeps
/// its handle, one that is absent is appended and gets the next index.
/// `Spur::into_usize` gives that index back.
#[verifier::external_body]
pub(crate) fn get_or_intern(r: &mut lasso::Rodeo, s: &str) -> (k: u32)
    requires
        interned_strings(*old(r)).len() < key_space(),
    ensures
        interned_strings(*old(r)).contains(s@) ==> {
            &&& interned_strings(*final(r)) == interned_strings(*old(r))
            &&& k < interned_strings(*old(r)).len()
            &&& interned_strings(*old(r))[k as int] == s@
        },
        !interned_strings(*old(r)).contains(s@) ==> {
            &&& interned_strings(*final(r)) == interned_strings(*old(r)).push(s@)
            &&& k == interned_strings(*old(r)).len()
        },
{
    lasso::Key::into_usize(r.get_or_intern(s)) as u32
}

/// Relies on `lasso::Rodeo::resolve` (with `Spur::try_from_usize` to rebuild
/// the key): a handle below the number of strings gives its string back.
#[verifier::external_body]
pub(crate) fn resolve<'a>(r: &'a lasso::Rodeo, k: u32) -> (s: &'a str)
    requires
        (k as nat) < interned_strings(*r).len(),
    ensures
        s@ == interned_strings(*r)[k as int],
{
    let key: lasso::Spur = lasso::Key::try_from_usize(k as usize).expect("handle in key space");
    r.resolve(&key)
}

/// The number of strings held: the next handle that interning would give out.
#[verifier::external_body]
pub(crate) fn rodeo_len(r: &lasso::Rodeo) -> (n: usize)
    ensures
        n == interned_strings(*r).len(),
{
    r.len()
}

} // verus!
