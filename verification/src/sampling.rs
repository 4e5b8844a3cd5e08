//! Drawing distinct cell indices from a random source.

use vstd::prelude::*;
use vstd::set_lib::{lemma_int_range, lemma_subset_equality, set_int_range};
use rand::Rng;

verus! {

/// Whether `picked` holds pairwise distinct indices, each below `length`.
pub open spec fn distinct_below(picked: Seq<usize>, length: int) -> bool {
    &&& forall|i: int| 0 <= i < picked.len() ==> (#[trigger] picked[i]) < length
    &&& forall|i: int, j: int| 0 <= i < j < picked.len() ==> picked[i] != picked[j]
}

/// Whether `amount` indices can be drawn from `0..length`: there are no more
/// to draw than indices, and all of them are drawn only where `length` fits in
/// a `u32`.
pub open spec fn can_sample(length: int, amount: int) -> bool {
    &&& amount <= length
    &&& amount < length || length <= u32::MAX
}

/// Calls `rand::seq::index::sample`, which draws `amount` distinct indices from
/// `0..length` in random order, and takes them out of the result with
/// `IndexVec::into_vec`. The call panics when `amount` exceeds `length`; for a
/// `length` above the largest `u32` it draws by rejection, which asserts that
/// `amount` is below `length`. The contract states only what holds of every
/// draw: how many indices come back, that each lies below `length`, and that
/// no two are equal.
#[verifier::external_body]
pub(crate) fn sample_indices<R: Rng>(rng: &mut R, length: usize, amount: usize) -> (picked: Vec<usize>)
    requires
        can_sample(length as int, amount as int),
    ensures
        picked@.len() == amount,
        distinct_below(picked@, length as int),
{
    rand::seq::index::sample(rng, length, amount).into_vec()
}

/// The indices that `picked` holds, as a set of integers.
pub open spec fn index_set(picked: Seq<usize>) -> Set<int> {
    picked.map_values(|v: usize| v as int).to_set()
}

/// The indices of a sequence with one more at its end are those of the
/// sequence and that one.
pub proof fn lemma_index_set_push(picked: Seq<usize>, index: usize)
    ensures
        index_set(picked.push(index)) == index_set(picked).insert(index as int),
{
    let f = |v: usize| v as int;
    let longer = picked.push(index).map_values(f);
    let shorter = picked.map_values(f);
    assert(longer =~= shorter.push(index as int));
    assert forall|v: int| index_set(picked.push(index)).contains(v) <==> index_set(picked).insert(
        index as int,
    ).contains(v) by {
        if longer.contains(v) {
            let k = choose|k: int| 0 <= k < longer.len() && longer[k] == v;
            if k < shorter.len() {
                assert(shorter[k] == v);
            }
        }
        if shorter.contains(v) {
            let k = choose|k: int| 0 <= k < shorter.len() && shorter[k] == v;
            assert(longer[k] == v);
        }
        assert(longer[longer.len() - 1] == index as int);
    }
    assert(index_set(picked.push(index)) =~= index_set(picked).insert(index as int));
}

/// Distinct indices below `length` make a set of as many members, all within
/// `0..length`; where there are `length` of them, they are all of `0..length`.
pub proof fn lemma_index_set(picked: Seq<usize>, length: int)
    requires
        distinct_below(picked, length),
        0 <= length,
    ensures
        index_set(picked).finite(),
        index_set(picked).len() == picked.len(),
        index_set(picked).subset_of(set_int_range(0, length)),
        forall|k: int| 0 <= k < picked.len() ==> index_set(picked).contains(#[trigger] picked[k] as int),
        forall|i: int| #[trigger]
            index_set(picked).contains(i) ==> exists|k: int| 0 <= k < picked.len() && picked[k] == i,
        picked.len() == length ==> index_set(picked) == set_int_range(0, length),
{
    broadcast use vstd::seq_lib::seq_to_set_is_finite;

    let ints = picked.map_values(|v: usize| v as int);
    assert(ints.len() == picked.len());
    assert forall|i: int, j: int| 0 <= i < ints.len() && 0 <= j < ints.len() && i != j implies ints[i]
        != ints[j] by {
        assert(ints[i] == picked[i] as int);
        assert(ints[j] == picked[j] as int);
        if i < j {
            assert(picked[i] != picked[j]);
        } else {
            assert(picked[j] != picked[i]);
        }
    }
    ints.unique_seq_to_set();
    assert forall|k: int| 0 <= k < picked.len() implies index_set(picked).contains(
        #[trigger] picked[k] as int,
    ) by {
        assert(ints[k] == picked[k] as int);
        assert(ints.contains(ints[k]));
    }
    assert forall|i: int| #[trigger] index_set(picked).contains(i) implies exists|k: int|
        0 <= k < picked.len() && picked[k] == i by {
        assert(ints.contains(i));
        let k = choose|k: int| 0 <= k < ints.len() && ints[k] == i;
        assert(picked[k] == i);
    }
    assert(index_set(picked).subset_of(set_int_range(0, length))) by {
        assert forall|i: int| index_set(picked).contains(i) implies set_int_range(0, length).contains(
            i,
        ) by {
            let k = choose|k: int| 0 <= k < picked.len() && picked[k] == i;
            assert(picked[k] < length);
        }
    }
    lemma_int_range(0, length);
    if picked.len() == length {
        lemma_subset_equality(index_set(picked), set_int_range(0, length));
    }
}

} // verus!
