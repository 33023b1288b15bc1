//! Random draws. What comes out rests on chance, so each contract here
//! states only what holds of every outcome.
use rand::seq::SliceRandom;
use rand::Rng;
use vstd::prelude::*;

verus! {

/// Puts the items in a random order, with `rand`'s `SliceRandom::shuffle`
/// on the thread-local generator. The source swaps items pairwise, so the
/// result holds the same items, each as often as before; which order comes
/// out is left open.
#[verifier::external_body]
pub(crate) fn shuffle<T>(v: &mut Vec<T>)
    ensures
        final(v)@.to_multiset() == old(v)@.to_multiset(),
{
    v.shuffle(&mut rand::thread_rng());
}

/// One item picked at random, with `rand`'s `SliceRandom::choose` on the
/// thread-local generator: `None` exactly when there is nothing to pick,
/// else some item of `v`; which one is left open.
#[verifier::external_body]
pub(crate) fn pick<T: Copy>(v: &Vec<T>) -> (r: Option<T>)
    ensures
        r is None <==> v@.len() == 0,
        r matches Some(x) ==> v@.contains(x),
{
    v.choose(&mut rand::thread_rng()).copied()
}

/// `amount` items picked at random without repetition (all of them when
/// there are fewer), with `rand`'s `SliceRandom::choose_multiple` on the
/// thread-local generator. The source picks distinct positions, so each
/// item comes out at most as often as `v` holds it; which ones, and in what
/// order, is left open.
#[verifier::external_body]
pub(crate) fn pick_several<T: Copy>(v: &Vec<T>, amount: usize) -> (r: Vec<T>)
    ensures
        r@.len() == if amount < v@.len() { amount as int } else { v@.len() as int },
        r@.to_multiset().subset_of(v@.to_multiset()),
{
    v.choose_multiple(&mut rand::thread_rng(), amount).copied().collect()
}

/// A number from `0` to `hi`, both included, with `rand`'s `Rng::gen_range`
/// on the thread-local generator; which one is left open.
#[verifier::external_body]
pub(crate) fn gen_upto(hi: usize) -> (r: usize)
    ensures
        r <= hi,
{
    rand::thread_rng().gen_range(0..=hi)
}

/// Two orderings of the same items, mapped item by item, still hold the
/// same items.
pub proof fn lemma_map_same_items<A, B>(s1: Seq<A>, s2: Seq<A>, f: spec_fn(A) -> B)
    requires
        s1.to_multiset() == s2.to_multiset(),
    ensures
        s1.map_values(f).to_multiset() == s2.map_values(f).to_multiset(),
    decreases s1.len(),
{
    broadcast use vstd::seq_lib::group_to_multiset_ensures;

    if s1.len() == 0 {
        assert(s2.len() == 0) by {
            vstd::seq_lib::to_multiset_len(s2);
        }
        assert(s1.map_values(f) =~= s2.map_values(f));
    } else {
        let x = s1.last();
        assert(s1.to_multiset().count(x) > 0) by {
            vstd::seq_lib::to_multiset_contains(s1, x);
        }
        assert(s2.contains(x)) by {
            vstd::seq_lib::to_multiset_contains(s2, x);
        }
        let i = s2.index_of(x);
        let s1r = s1.drop_last();
        let s2r = s2.remove(i);
        vstd::seq_lib::to_multiset_remove(s1, s1.len() - 1);
        assert(s1.remove(s1.len() - 1) =~= s1r);
        vstd::seq_lib::to_multiset_remove(s2, i);
        lemma_map_same_items(s1r, s2r, f);
        assert(s1.map_values(f) =~= s1r.map_values(f).push(f(x)));
        assert(s2.map_values(f) =~= s2r.map_values(f).insert(i, f(x)));
        vstd::seq_lib::to_multiset_insert(s2r.map_values(f), i, f(x));
        assert(s1r.map_values(f).push(f(x)) =~= s1r.map_values(f).insert(s1r.len() as int, f(x)));
        vstd::seq_lib::to_multiset_insert(s1r.map_values(f), s1r.len() as int, f(x));
    }
}

} // verus!
