//! Random vectors of zeros and ones with a given number of ones.
//!
//! The sampler marks the slots that its draws hit. The functions that draw
//! say of which run of draws their result comes; `mark_drawn` takes the draw
//! as an argument and says what it marks and counts.

use crate::consts::Number;
use crate::linalg::NumberVector;
use crate::random::gen_below;
use crate::random::thread_rng;
use vstd::prelude::*;

verus! {

/// The number of entries of `s` that equal `x`.
pub open spec fn count_of(s: Seq<i32>, x: i32) -> nat
    decreases s.len(),
{
    if s.len() == 0 {
        0
    } else {
        count_of(s.drop_last(), x) + if s.last() == x {
            1nat
        } else {
            0nat
        }
    }
}

/// Every entry of `s` is 0 or 1.
pub open spec fn is_binary(s: Seq<i32>) -> bool {
    forall|i: int| 0 <= i < s.len() ==> s[i] == 0 || s[i] == 1
}

/// `s` marks `positives` of `size` slots: it has `size` entries, of which
/// `positives` are 1 and all the others 0.
pub open spec fn is_selection(s: Seq<i32>, positives: nat, size: nat) -> bool {
    &&& s.len() == size
    &&& is_binary(s)
    &&& count_of(s, 1) == positives
    &&& count_of(s, 0) == size - positives
}

/// The sequence of `size` entries that all equal `x`.
pub open spec fn constant(size: nat, x: i32) -> Seq<i32> {
    Seq::new(size, |i: int| x)
}

/// The most draws that the sparse sampler makes before it stops sampling and
/// marks the lowest free slots instead.
pub const DRAW_LIMIT: u64 = 0xffff_ffff_ffff_ffff;

/// The cardinality asked of a random vector is more than its size.
#[derive(Debug, PartialEq, Eq, Structural)]
pub struct InvalidCardinality {
    pub desired_positives: usize,
    pub size: usize,
}

/// No sequence has more entries equal to `x` than it has entries.
pub proof fn lemma_count_bounded(s: Seq<i32>, x: i32)
    ensures
        count_of(s, x) <= s.len(),
    decreases s.len(),
{
    if s.len() > 0 {
        lemma_count_bounded(s.drop_last(), x);
    }
}

/// In a binary sequence every entry counts either as a 0 or as a 1.
pub proof fn lemma_binary_counts(s: Seq<i32>)
    requires
        is_binary(s),
    ensures
        count_of(s, 0) + count_of(s, 1) == s.len(),
    decreases s.len(),
{
    if s.len() > 0 {
        lemma_binary_counts(s.drop_last());
    }
}

/// A constant sequence holds its value in every entry and no other value.
pub proof fn lemma_count_constant(size: nat, x: i32, y: i32)
    ensures
        count_of(constant(size, x), y) == if x == y {
            size
        } else {
            0
        },
    decreases size,
{
    if size > 0 {
        assert(constant(size, x).drop_last() =~= constant((size - 1) as nat, x));
        lemma_count_constant((size - 1) as nat, x, y);
    }
}

/// Overwriting one entry moves one unit of count from the old value to the
/// new one.
pub proof fn lemma_count_update(s: Seq<i32>, at: int, x: i32, y: i32)
    requires
        0 <= at < s.len(),
    ensures
        count_of(s.update(at, x), y) == count_of(s, y) + (if x == y {
            1int
        } else {
            0int
        }) - (if s[at] == y {
            1int
        } else {
            0int
        }),
    decreases s.len(),
{
    if at == s.len() - 1 {
        assert(s.update(at, x).drop_last() =~= s.drop_last());
    } else {
        assert(s.update(at, x).drop_last() =~= s.drop_last().update(at, x));
        lemma_count_update(s.drop_last(), at, x, y);
    }
}

/// A sequence whose count of `x` equals its length holds `x` everywhere.
pub proof fn lemma_full_count(s: Seq<i32>, x: i32)
    requires
        count_of(s, x) == s.len(),
    ensures
        s =~= constant(s.len(), x),
    decreases s.len(),
{
    if s.len() > 0 {
        lemma_count_bounded(s.drop_last(), x);
        lemma_full_count(s.drop_last(), x);
        assert forall|i: int| 0 <= i < s.len() implies s[i] == x by {
            if i < s.len() - 1 {
                assert(s.drop_last()[i] == x);
            }
        }
    }
}

/// A selection of no slot is all zeros, and a selection of every slot is all
/// ones.
pub proof fn lemma_extreme_selections(s: Seq<i32>, size: nat)
    ensures
        is_selection(s, 0, size) ==> s == constant(size, 0),
        is_selection(s, size, size) ==> s == constant(size, 1),
{
    if is_selection(s, 0, size) {
        lemma_full_count(s, 0);
    }
    if is_selection(s, size, size) {
        lemma_full_count(s, 1);
    }
}

/// The sequence with every slot before `from` marked.
pub open spec fn marked_before(s: Seq<i32>, from: int) -> Seq<i32> {
    Seq::new(
        s.len(),
        |i: int|
            if i < from {
                1i32
            } else {
                s[i]
            },
    )
}

/// The binary sequence with every entry negated.
pub open spec fn negated(s: Seq<i32>) -> Seq<i32> {
    Seq::new(s.len(), |i: int| (1 - s[i]) as i32)
}

/// Negating a binary sequence exchanges its count of zeros and its count of
/// ones.
pub proof fn lemma_count_negated(s: Seq<i32>)
    requires
        is_binary(s),
    ensures
        is_binary(negated(s)),
        count_of(negated(s), 1) == count_of(s, 0),
        count_of(negated(s), 0) == count_of(s, 1),
    decreases s.len(),
{
    if s.len() > 0 {
        assert(negated(s).drop_last() =~= negated(s.drop_last()));
        lemma_count_negated(s.drop_last());
    }
}

/// Some draw hit the slot.
pub open spec fn hits(draws: Seq<usize>, slot: int) -> bool {
    exists|j: int| 0 <= j < draws.len() && #[trigger] draws[j] == slot
}

/// What a run of draws marks of `size` free slots: 1 in every slot that some
/// draw hit, and 0 in every other.
pub open spec fn marked_by(size: nat, draws: Seq<usize>) -> Seq<i32> {
    Seq::new(
        size,
        |i: int|
            if hits(draws, i) {
                1i32
            } else {
                0i32
            },
    )
}

/// The number of different slots that a run of draws hit: that of the draws
/// that hit a slot which no draw had hit before.
pub open spec fn distinct(draws: Seq<usize>) -> nat
    decreases draws.len(),
{
    if draws.len() == 0 {
        0
    } else {
        distinct(draws.drop_last()) + if hits(draws.drop_last(), draws.last() as int) {
            0nat
        } else {
            1nat
        }
    }
}

/// `res` is what the sparse sampler makes of the run `draws` for
/// `positives` of `size` slots. Every draw falls below `size`. The run ends
/// with the draw that hits the last of `positives` different slots, and
/// `res` marks the slots hit and no other; or it ends short of that at
/// `DRAW_LIMIT` draws, and `res` marks the slots hit and, from the lowest
/// slot up, as many more as are wanting.
pub open spec fn is_sampled(res: Seq<i32>, positives: nat, size: nat, draws: Seq<usize>) -> bool {
    &&& forall|j: int| 0 <= j < draws.len() ==> #[trigger] draws[j] < size
    &&& 0 < draws.len() <= DRAW_LIMIT
    &&& distinct(draws.drop_last()) < positives
    &&& if distinct(draws) == positives {
        res == marked_by(size, draws)
    } else {
        &&& draws.len() == DRAW_LIMIT
        &&& count_of(res, 1) == positives
        &&& exists|from: int|
            0 <= from <= size && res == #[trigger] marked_before(marked_by(size, draws), from)
    }
}

/// `selector` is what the sampler makes of some run of draws for
/// `positives` of `size` slots: nothing is drawn for none or all of the
/// slots; up to half of the slots are sampled themselves; of more than half,
/// the slots to leave free are sampled, and `selector` is the negation.
pub open spec fn is_drawn_selection(selector: Seq<i32>, positives: nat, size: nat) -> bool {
    if positives == 0 {
        selector == constant(size, 0)
    } else if positives == size {
        selector == constant(size, 1)
    } else if positives <= size / 2 {
        exists|draws: Seq<usize>| #[trigger] is_sampled(selector, positives, size, draws)
    } else {
        exists|draws: Seq<usize>| #[trigger]
            is_sampled(negated(selector), (size - positives) as nat, size, draws)
    }
}

/// No draw marks a slot.
pub proof fn lemma_marked_by_none(size: nat)
    ensures
        marked_by(size, Seq::<usize>::empty()) == constant(size, 0),
{
    assert(marked_by(size, Seq::<usize>::empty()) =~= constant(size, 0));
}

/// One more draw marks the slot it hits and changes no other.
pub proof fn lemma_marked_by_push(size: nat, draws: Seq<usize>, idx: usize)
    requires
        idx < size,
    ensures
        marked_by(size, draws.push(idx)) == marked_by(size, draws).update(idx as int, 1),
        forall|slot: int| hits(draws.push(idx), slot) <==> hits(draws, slot) || slot == idx,
{
    let more = draws.push(idx);
    assert forall|slot: int| hits(more, slot) <==> hits(draws, slot) || slot == idx by {
        if hits(draws, slot) {
            let j = choose|j: int| 0 <= j < draws.len() && #[trigger] draws[j] == slot;
            assert(more[j] == slot);
        }
        if slot == idx {
            assert(more[draws.len() as int] == slot);
        }
        if hits(more, slot) && slot != idx {
            let j = choose|j: int| 0 <= j < more.len() && #[trigger] more[j] == slot;
            assert(draws[j] == slot);
        }
    }
    assert(marked_by(size, more) =~= marked_by(size, draws).update(idx as int, 1));
}

/// A run of draws marks as many slots as it hit different slots.
pub proof fn lemma_marked_count(size: nat, draws: Seq<usize>)
    requires
        forall|j: int| 0 <= j < draws.len() ==> #[trigger] draws[j] < size,
    ensures
        is_binary(marked_by(size, draws)),
        count_of(marked_by(size, draws), 1) == distinct(draws),
    decreases draws.len(),
{
    if draws.len() == 0 {
        assert(draws =~= Seq::<usize>::empty());
        lemma_marked_by_none(size);
        lemma_count_constant(size, 0, 1);
    } else {
        let before = draws.drop_last();
        let idx = draws.last();
        assert(before.push(idx) =~= draws);
        lemma_marked_count(size, before);
        lemma_marked_by_push(size, before, idx);
        lemma_count_update(marked_by(size, before), idx as int, 1, 1);
        assert(marked_by(size, before)[idx as int] == 1 <==> hits(before, idx as int));
        assert(is_binary(marked_by(size, draws)));
    }
}

/// `pi` rearranges `size` slots: it sends each slot to a slot, and no two
/// slots to the same.
pub open spec fn is_rearrangement(pi: Seq<usize>, size: nat) -> bool {
    &&& pi.len() == size
    &&& forall|i: int| 0 <= i < size ==> #[trigger] pi[i] < size
    &&& forall|i: int, j: int|
        0 <= i < size && 0 <= j < size && #[trigger] pi[i] == #[trigger] pi[j] ==> i == j
}

/// The run of draws with each slot hit replaced by the slot that `pi` sends
/// it to.
pub open spec fn rearranged(draws: Seq<usize>, pi: Seq<usize>) -> Seq<usize> {
    Seq::new(draws.len(), |j: int| pi[draws[j] as int])
}

/// The rearranged draws hit the slot that a slot is sent to exactly where
/// the draws hit the slot.
pub proof fn lemma_rearranged_hits(size: nat, draws: Seq<usize>, pi: Seq<usize>, slot: int)
    requires
        is_rearrangement(pi, size),
        forall|j: int| 0 <= j < draws.len() ==> #[trigger] draws[j] < size,
        0 <= slot < size,
    ensures
        hits(rearranged(draws, pi), pi[slot] as int) <==> hits(draws, slot),
{
    let moved = rearranged(draws, pi);
    if hits(draws, slot) {
        let j = choose|j: int| 0 <= j < draws.len() && #[trigger] draws[j] == slot;
        assert(moved[j] == pi[slot]);
    }
    if hits(moved, pi[slot] as int) {
        let j = choose|j: int| 0 <= j < moved.len() && #[trigger] moved[j] == pi[slot];
        assert(pi[draws[j] as int] == pi[slot]);
        assert(draws[j] == slot);
    }
}

/// The rearranged draws hit as many different slots as the draws.
pub proof fn lemma_rearranged_distinct(size: nat, draws: Seq<usize>, pi: Seq<usize>)
    requires
        is_rearrangement(pi, size),
        forall|j: int| 0 <= j < draws.len() ==> #[trigger] draws[j] < size,
    ensures
        distinct(rearranged(draws, pi)) == distinct(draws),
    decreases draws.len(),
{
    if draws.len() > 0 {
        let before = draws.drop_last();
        assert(rearranged(draws, pi).drop_last() =~= rearranged(before, pi));
        lemma_rearranged_distinct(size, before, pi);
        lemma_rearranged_hits(size, before, pi, draws.last() as int);
    }
}

/// The draws decide what the sparse sampler makes: one run of draws makes
/// one vector.
pub proof fn lemma_sampled_is_determined(
    first: Seq<i32>,
    second: Seq<i32>,
    positives: nat,
    size: nat,
    draws: Seq<usize>,
)
    requires
        is_sampled(first, positives, size, draws),
        is_sampled(second, positives, size, draws),
    ensures
        first == second,
{
    if distinct(draws) != positives {
        let drawn = marked_by(size, draws);
        lemma_marked_count(size, draws);
        let from1 = choose|from: int|
            0 <= from <= size && first == #[trigger] marked_before(drawn, from);
        let from2 = choose|from: int|
            0 <= from <= size && second == #[trigger] marked_before(drawn, from);
        if from1 <= from2 {
            assert(marked_before(first, from2) =~= second);
            lemma_selection_is_marked(first, second, positives);
        } else {
            assert(marked_before(second, from1) =~= first);
            lemma_selection_is_marked(second, first, positives);
        }
    }
}

/// The sampler treats all slots alike. Where a run of draws hits all the
/// slots asked for, the same run with its slots rearranged is a run of the
/// sampler too, and what it marks is what the first run marks, rearranged:
/// a slot is marked exactly where the slot sent to it was.
pub proof fn lemma_sampling_is_symmetric(
    res: Seq<i32>,
    positives: nat,
    size: nat,
    draws: Seq<usize>,
    pi: Seq<usize>,
)
    requires
        is_rearrangement(pi, size),
        is_sampled(res, positives, size, draws),
        distinct(draws) == positives,
    ensures
        is_sampled(
            marked_by(size, rearranged(draws, pi)),
            positives,
            size,
            rearranged(draws, pi),
        ),
        forall|slot: int|
            0 <= slot < size ==> marked_by(size, rearranged(draws, pi))[#[trigger] pi[slot] as int]
                == res[slot],
        forall|slot: int|
            0 <= slot < size ==> negated(marked_by(size, rearranged(draws, pi)))[#[trigger] pi[slot] as int]
                == negated(res)[slot],
{
    let moved = rearranged(draws, pi);
    lemma_rearranged_distinct(size, draws, pi);
    assert(moved.drop_last() =~= rearranged(draws.drop_last(), pi));
    lemma_rearranged_distinct(size, draws.drop_last(), pi);
    assert forall|slot: int| 0 <= slot < size implies marked_by(size, moved)[#[trigger] pi[slot] as int]
        == res[slot] by {
        lemma_rearranged_hits(size, draws, pi, slot);
    }
}

/// Marks the slot that a draw hit, and counts it unless it was marked
/// already: `positives` slots were marked before, `counted` are after.
pub fn mark_drawn(res: &mut Vec<Number>, positives: usize, idx: usize) -> (counted: usize)
    requires
        idx < old(res)@.len(),
        is_binary(old(res)@),
        count_of(old(res)@, 1) == positives,
        positives < old(res)@.len(),
    ensures
        final(res)@ == old(res)@.update(idx as int, 1),
        counted == positives + 1 - old(res)@[idx as int],
        count_of(final(res)@, 1) == counted,
{
    proof {
        lemma_count_update(res@, idx as int, 1, 1);
    }
    assert(positives < res.len());
    // Count the draw, then take it back if the slot was marked already.
    let mut counted: usize = positives + 1;
    counted -= res[idx] as usize;
    res.set(idx, 1);
    counted
}

/// Marks slots drawn at random until `desired_positives` different slots are
/// marked: the result marks the slots that the draws hit, and the last draw
/// hits the last of them. A draw that hits a marked slot is lost, so the
/// number of draws has no bound but `DRAW_LIMIT`: after that many draws the
/// lowest free slots are marked instead, and the function returns on every
/// run of draws.
pub fn sparse_random_vec(desired_positives: usize, size: usize) -> (res: Vec<Number>)
    requires
        0 < desired_positives <= size,
    ensures
        is_selection(res@, desired_positives as nat, size as nat),
        exists|draws: Seq<usize>| #[trigger]
            is_sampled(res@, desired_positives as nat, size as nat, draws),
{
    let mut rng = thread_rng();
    let mut res: Vec<Number> = vec![0; size];
    let mut positives: usize = 0;
    let mut draws_left: u64 = DRAW_LIMIT;
    let ghost mut draws: Seq<usize> = Seq::empty();
    proof {
        assert(res@ =~= constant(size as nat, 0));
        lemma_marked_by_none(size as nat);
        lemma_count_constant(size as nat, 0, 1);
    }
    while positives != desired_positives && draws_left > 0
        invariant
            0 < desired_positives <= size,
            res@.len() == size,
            is_binary(res@),
            count_of(res@, 1) == positives,
            positives <= desired_positives,
            forall|j: int| 0 <= j < draws.len() ==> #[trigger] draws[j] < size,
            draws.len() == DRAW_LIMIT - draws_left,
            res@ == marked_by(size as nat, draws),
            positives == distinct(draws),
            draws.len() > 0 ==> distinct(draws.drop_last()) < desired_positives,
        decreases draws_left,
    {
        let idx: usize = gen_below(&mut rng, size);
        proof {
            lemma_marked_by_push(size as nat, draws, idx);
            assert(draws.push(idx).drop_last() =~= draws);
            draws = draws.push(idx);
            lemma_marked_count(size as nat, draws);
        }
        positives = mark_drawn(&mut res, positives, idx);
        draws_left -= 1;
    }
    // Only a run of draws that has reached the limit leaves slots to mark.
    let ghost drawn = res@;
    mark_lowest(&mut res, positives, desired_positives);
    proof {
        if positives == desired_positives {
            lemma_binary_counts(drawn);
            lemma_selection_is_marked(drawn, res@, desired_positives as nat);
        }
        assert(is_sampled(res@, desired_positives as nat, size as nat, draws));
    }
    res
}

/// Marking the lowest free slots of a selection that is full already
/// changes nothing.
pub proof fn lemma_selection_is_marked(before: Seq<i32>, after: Seq<i32>, positives: nat)
    requires
        is_binary(before),
        count_of(before, 1) == positives,
        count_of(after, 1) == positives,
        exists|from: int| 0 <= from <= before.len() && after == #[trigger] marked_before(before, from),
    ensures
        after == before,
{
    let from = choose|from: int|
        0 <= from <= before.len() && after == #[trigger] marked_before(before, from);
    lemma_marking_counts(before, from);
    assert(after =~= before);
}

/// Marking every slot before `from` of a binary sequence leaves no fewer
/// slots marked, and as many only if all of them were marked already.
pub proof fn lemma_marking_counts(s: Seq<i32>, from: int)
    requires
        is_binary(s),
        0 <= from <= s.len(),
    ensures
        count_of(marked_before(s, from), 1) >= count_of(s, 1),
        count_of(marked_before(s, from), 1) == count_of(s, 1) ==> forall|i: int|
            0 <= i < from ==> s[i] == 1,
    decreases s.len(),
{
    if s.len() > 0 {
        let shorter = s.drop_last();
        if from == s.len() {
            assert(marked_before(s, from).drop_last() =~= marked_before(shorter, from - 1));
            lemma_marking_counts(shorter, from - 1);
            assert forall|i: int| 0 <= i < from && count_of(marked_before(s, from), 1) == count_of(
                s,
                1,
            ) implies s[i] == 1 by {
                if i < from - 1 {
                    assert(shorter[i] == s[i]);
                }
            }
        } else {
            assert(marked_before(s, from).drop_last() =~= marked_before(shorter, from));
            lemma_marking_counts(shorter, from);
            assert forall|i: int| 0 <= i < from && count_of(marked_before(s, from), 1) == count_of(
                s,
                1,
            ) implies s[i] == 1 by {
                assert(shorter[i] == s[i]);
            }
        }
    }
}

/// Marks the lowest free slots of `res`, of which `positives` are marked,
/// until `desired_positives` are: every slot before some slot ends up
/// marked, and every slot from that one on stays as it is.
pub fn mark_lowest(res: &mut Vec<Number>, positives: usize, desired_positives: usize)
    requires
        is_binary(old(res)@),
        count_of(old(res)@, 1) == positives,
        positives <= desired_positives <= old(res)@.len(),
    ensures
        is_selection(final(res)@, desired_positives as nat, old(res)@.len()),
        exists|from: int|
            0 <= from <= old(res)@.len() && final(res)@ == #[trigger] marked_before(
                old(res)@,
                from,
            ),
{
    let size: usize = res.len();
    let mut positives: usize = positives;
    let mut slot: usize = 0;
    while positives != desired_positives
        invariant
            desired_positives <= size,
            res@.len() == size,
            old(res)@.len() == size,
            is_binary(res@),
            count_of(res@, 1) == positives,
            positives <= desired_positives,
            slot <= size,
            forall|i: int| 0 <= i < slot ==> res@[i] == 1,
            forall|i: int| slot <= i < size ==> res@[i] == old(res)@[i],
        decreases size - slot,
    {
        assert(slot < size) by {
            if slot == size {
                assert(res@ =~= constant(size as nat, 1));
                lemma_count_constant(size as nat, 1, 1);
            }
        }
        if res[slot] == 0 {
            proof {
                lemma_count_update(res@, slot as int, 1, 1);
            }
            res.set(slot, 1);
            positives += 1;
        }
        slot += 1;
    }
    proof {
        lemma_binary_counts(res@);
        assert(res@ =~= marked_before(old(res)@, slot as int));
    }
}

/// Turns every 0 of a binary vector into 1 and every 1 into 0.
fn negate(res: &mut Vec<Number>)
    requires
        is_binary(old(res)@),
    ensures
        final(res)@ == negated(old(res)@),
{
    let mut i: usize = 0;
    while i < res.len()
        invariant
            i <= res@.len(),
            res@.len() == old(res)@.len(),
            is_binary(old(res)@),
            forall|j: int| i <= j < res@.len() ==> res@[j] == old(res)@[j],
            forall|j: int| 0 <= j < i ==> res@[j] == 1 - old(res)@[j],
        decreases res@.len() - i,
    {
        let gene: Number = res[i];
        assert(0i32 ^ 1i32 == 1i32) by (bit_vector);
        assert(1i32 ^ 1i32 == 0i32) by (bit_vector);
        res.set(i, gene ^ 1);
        i += 1;
    }
}

/// A vector of `size` entries of which `desired_positives`, placed at random,
/// are 1 and the others 0.
pub fn random_vec(desired_positives: usize, size: usize) -> (selector: NumberVector)
    requires
        desired_positives <= size,
    ensures
        is_selection(selector@, desired_positives as nat, size as nat),
        is_drawn_selection(selector@, desired_positives as nat, size as nat),
        desired_positives == 0 ==> selector@ == constant(size as nat, 0),
        desired_positives == size ==> selector@ == constant(size as nat, 1),
{
    let res: Vec<Number> = if desired_positives == 0 {
        // fast path for a vector full of 0
        let zeros: Vec<Number> = vec![0; size];
        proof {
            assert(zeros@ =~= constant(size as nat, 0));
            lemma_count_constant(size as nat, 0, 0);
            lemma_count_constant(size as nat, 0, 1);
        }
        zeros
    } else if desired_positives == size {
        // fast path for a vector full of 1
        let ones: Vec<Number> = vec![1; size];
        proof {
            assert(ones@ =~= constant(size as nat, 1));
            lemma_count_constant(size as nat, 1, 0);
            lemma_count_constant(size as nat, 1, 1);
        }
        ones
    } else if desired_positives <= size / 2 {
        sparse_random_vec(desired_positives, size)
    } else {
        // Sampling collides less often on the smaller side: mark the slots
        // that stay 0, then negate the whole vector.
        let mut res: Vec<Number> = sparse_random_vec(size - desired_positives, size);
        let ghost sparse = res@;
        proof {
            lemma_count_negated(sparse);
        }
        negate(&mut res);
        assert(negated(res@) =~= sparse);
        res
    };
    proof {
        lemma_extreme_selections(res@, size as nat);
    }
    NumberVector::from_vec(res)
}

/// A vector of `size` entries of which `desired_positives`, placed at random,
/// are 1 and the others 0; no vector where more positives are asked for than
/// there are entries.
pub fn random_vector(desired_positives: usize, size: usize) -> (made: Result<
    NumberVector,
    InvalidCardinality,
>)
    ensures
        made.is_ok() <==> desired_positives <= size,
        made.is_ok() ==> is_selection(made.unwrap()@, desired_positives as nat, size as nat),
        made.is_ok() ==> is_drawn_selection(
            made.unwrap()@,
            desired_positives as nat,
            size as nat,
        ),
        made.is_ok() && desired_positives == 0 ==> made.unwrap()@ == constant(size as nat, 0),
        made.is_ok() && desired_positives == size ==> made.unwrap()@ == constant(size as nat, 1),
        made.is_err() ==> made.unwrap_err() == (InvalidCardinality { desired_positives, size }),
{
    if desired_positives <= size {
        Ok(random_vec(desired_positives, size))
    } else {
        Err(InvalidCardinality { desired_positives, size })
    }
}

} // verus!
