use rand::Rng;
use vstd::prelude::*;

verus! {

/// An index drawn at random below `upper`.
///
/// Calls `rand::Rng::gen_range` with the range `0..upper` on the thread's
/// generator (`rand::thread_rng`). The contract claims only that the index
/// lies in that range, as rand's documentation states; which index comes
/// back is left open, and `gen_range` panics on an empty range, which
/// `requires` rules out.
#[verifier::external_body]
pub(crate) fn random_index(upper: usize) -> (index: usize)
    requires
        0 < upper,
    ensures
        index < upper,
{
    let mut rng = rand::thread_rng();
    rng.gen_range(0..upper)
}

/// The values dealt into the deck, in order: the value `i` as a byte for
/// each `i` in `1..=n`.
pub open spec fn dealt_values(n: nat) -> Seq<u8> {
    Seq::new(n, |j: int| ((j + 1) % 256) as u8)
}

/// `n` empty slots.
pub open spec fn empty_slots(n: nat) -> Seq<u8> {
    Seq::new(n, |j: int| 0u8)
}

/// There are enough empty (zero) slots in `slots` to place every value of
/// `dealt_values(slots.len())`: placing the value 0 leaves its slot empty.
pub open spec fn room_to_deal(slots: Seq<u8>) -> bool {
    slots.len() > 0 ==> slots.to_multiset().count(0) + (slots.len() - 1) / 256 >= slots.len()
}

proof fn lemma_update_to_multiset(s: Seq<u8>, i: int, v: u8)
    requires
        0 <= i < s.len(),
    ensures
        s.update(i, v).to_multiset() =~= s.to_multiset().remove(s[i]).insert(v),
{
    broadcast use vstd::multiset::group_multiset_axioms;
    broadcast use vstd::seq_lib::group_to_multiset_ensures;
    let t = s.update(i, v);
    assert(t.remove(i) =~= s.remove(i));
    assert(t.to_multiset().count(v) > 0) by {
        assert(t[i] == v);
        assert(t.contains(v));
    }
}

proof fn lemma_dealt_bound(a: int, b: int)
    requires
        0 <= a <= b,
    ensures
        a - a / 256 <= b - b / 256,
{
    assert(a - a / 256 <= b - b / 256) by (nonlinear_arith)
        requires
            0 <= a <= b,
    ;
}

/// The indices of the empty (zero) slots of `slots`, each once, in
/// increasing order: every empty slot is listed, and nothing else.
pub fn empty_slot_indices(slots: &Vec<u8>) -> (empty: Vec<usize>)
    ensures
        forall|t: int| 0 <= t < empty@.len() ==> #[trigger] empty@[t] < slots@.len() && slots@[empty@[t] as int] == 0,
        forall|j: int| 0 <= j < slots@.len() && slots@[j] == 0 ==> exists|t: int|
            0 <= t < empty@.len() && #[trigger] empty@[t] == j,
        forall|t1: int, t2: int| 0 <= t1 < t2 < empty@.len() ==> empty@[t1] < empty@[t2],
{
    let mut empty: Vec<usize> = Vec::new();
    let mut j: usize = 0;
    while j < slots.len()
        invariant
            j <= slots@.len(),
            forall|t: int| 0 <= t < empty@.len() ==> #[trigger] empty@[t] < j && slots@[empty@[t] as int] == 0,
            forall|j2: int| 0 <= j2 < j && slots@[j2] == 0 ==> exists|t: int|
                0 <= t < empty@.len() && #[trigger] empty@[t] == j2,
            forall|t1: int, t2: int| 0 <= t1 < t2 < empty@.len() ==> empty@[t1] < empty@[t2],
        decreases slots@.len() - j,
    {
        if slots[j] == 0 {
            let ghost before = empty@;
            empty.push(j);
            proof {
                assert forall|j2: int| 0 <= j2 < j + 1 && slots@[j2] == 0 implies exists|t: int|
                    0 <= t < empty@.len() && #[trigger] empty@[t] == j2 by {
                    if j2 < j {
                        let t = choose|t: int| 0 <= t < before.len() && #[trigger] before[t] == j2;
                        assert(empty@[t] == j2);
                    } else {
                        assert(empty@[before.len() as int] == j2);
                    }
                }
            }
        }
        j = j + 1;
    }
    empty
}

/// The index of an empty (zero) slot of `slots`, drawn at random among all of
/// them: a draw below the number of empty slots picks one of the list of all
/// the empty slots.
fn random_empty_slot(slots: &Vec<u8>) -> (slot: usize)
    requires
        slots@.contains(0),
    ensures
        slot < slots@.len(),
        slots@[slot as int] == 0,
{
    let empty = empty_slot_indices(slots);
    proof {
        let j = choose|j: int| 0 <= j < slots@.len() && slots@[j] == 0;
        assert(exists|t: int| 0 <= t < empty@.len() && #[trigger] empty@[t] == j);
    }
    let k = random_index(empty.len());
    empty[k]
}

/// Shuffles the card values `1..=n` into the `n` slots of `rand_vec`: the
/// value `i` goes to an empty (zero) slot chosen uniformly at random among the
/// empty slots, for `i` from 1 to `n`. Slots that already hold a value keep it.
pub fn gen_rand_deck(rand_vec: Vec<u8>) -> (shuffled: Vec<u8>)
    requires
        room_to_deal(rand_vec@),
    ensures
        shuffled@.len() == rand_vec@.len(),
        forall|i: int| 0 <= i < rand_vec@.len() && rand_vec@[i] != 0 ==> #[trigger] shuffled@[i] == rand_vec@[i],
        shuffled@.to_multiset().add(empty_slots(rand_vec@.len()).to_multiset())
            == rand_vec@.to_multiset().add(dealt_values(rand_vec@.len()).to_multiset()),
{
    let mut rand_vec = rand_vec;
    let ghost init = rand_vec@;
    let vec_len = rand_vec.len();
    let mut i: usize = 0;
    proof {
        broadcast use vstd::multiset::group_multiset_axioms;
        broadcast use vstd::seq_lib::group_to_multiset_ensures;
        assert(empty_slots(0) =~= Seq::<u8>::empty());
        assert(dealt_values(0) =~= Seq::<u8>::empty());
        assert(rand_vec@.to_multiset().add(empty_slots(0).to_multiset()) =~= init.to_multiset().add(
            dealt_values(0).to_multiset()));
    }
    while i < vec_len
        invariant
            vec_len == init.len(),
            i <= vec_len,
            rand_vec@.len() == init.len(),
            room_to_deal(init),
            forall|t: int| 0 <= t < init.len() && init[t] != 0 ==> #[trigger] rand_vec@[t] == init[t],
            rand_vec@.to_multiset().add(empty_slots(i as nat).to_multiset())
                == init.to_multiset().add(dealt_values(i as nat).to_multiset()),
            rand_vec@.to_multiset().count(0) + i == init.to_multiset().count(0) + i / 256,
        decreases vec_len - i,
    {
        proof {
            broadcast use vstd::multiset::group_multiset_axioms;
            broadcast use vstd::seq_lib::group_to_multiset_ensures;
            lemma_dealt_bound(i as int, (vec_len - 1) as int);
            assert(rand_vec@.to_multiset().count(0) > 0);
        }
        let slot = random_empty_slot(&rand_vec);
        let next = i + 1;
        let value = #[verifier::truncate] (next as u8);
        assert(next as u8 == (next % 256) as u8) by (bit_vector);
        let ghost before = rand_vec@;
        rand_vec.set(slot, value);
        proof {
            broadcast use vstd::multiset::group_multiset_axioms;
            broadcast use vstd::seq_lib::group_to_multiset_ensures;
            lemma_update_to_multiset(before, slot as int, value);
            assert(before.to_multiset().count(0) > 0);
            let zs = empty_slots(i as nat);
            let ds = dealt_values(i as nat);
            assert(empty_slots(next as nat) =~= zs.push(0));
            assert(dealt_values(next as nat) =~= ds.push(value));
            assert(empty_slots(next as nat).to_multiset() =~= zs.to_multiset().insert(0));
            assert(dealt_values(next as nat).to_multiset() =~= ds.to_multiset().insert(value));
            assert(rand_vec@.to_multiset() =~= before.to_multiset().remove(0).insert(value));
            assert(rand_vec@.to_multiset().add(empty_slots(next as nat).to_multiset())
                =~= before.to_multiset().add(zs.to_multiset()).insert(value));
            assert(rand_vec@.to_multiset().add(empty_slots(next as nat).to_multiset())
                =~= init.to_multiset().add(dealt_values(next as nat).to_multiset()));
            assert(next / 256 == i / 256 + if value == 0 { 1int } else { 0 });
        }
        i = next;
    }
    rand_vec
}

} // verus!
