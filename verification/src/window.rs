//! The sliding window over a stream of samples, and its median.
//!
//! A window of length `limit` holds the samples fed last, at most `limit` of
//! them, oldest first. Its median is taken in the total order of
//! single-precision values; of the two middle samples of a window of even
//! size it is the one that comes first.

use vstd::prelude::*;
use crate::binary32::order_key;
use crate::binary32::pattern_of_key;
use crate::binary32::precedes;

verus! {

/// The window after one more sample: the sample joins at the end, and the
/// oldest one leaves if the window was full.
pub open spec fn slide<T>(window: Seq<T>, limit: nat, sample: T) -> Seq<T> {
    if window.len() < limit {
        window.push(sample)
    } else {
        window.subrange(window.len() - limit + 1, window.len() as int).push(sample)
    }
}

/// The window after a run of samples, fed in order.
pub open spec fn fed<T>(window: Seq<T>, limit: nat, samples: Seq<T>) -> Seq<T>
    decreases samples.len(),
{
    if samples.len() == 0 {
        window
    } else {
        slide(fed(window, limit, samples.drop_last()), limit, samples.last())
    }
}

/// How many entries of `keys` are smaller than `key`.
pub open spec fn count_below(keys: Seq<u32>, key: u32) -> nat
    decreases keys.len(),
{
    if keys.len() == 0 {
        0
    } else {
        count_below(keys.drop_last(), key) + if keys.last() < key {
            1nat
        } else {
            0nat
        }
    }
}

/// How many entries of `keys` are not larger than `key`.
pub open spec fn count_at_most(keys: Seq<u32>, key: u32) -> nat
    decreases keys.len(),
{
    if keys.len() == 0 {
        0
    } else {
        count_at_most(keys.drop_last(), key) + if keys.last() <= key {
            1nat
        } else {
            0nat
        }
    }
}

/// Whether `key` is the entry that stands at place `(len - 1) / 2` once `keys`
/// is put in ascending order: fewer entries than that place plus one are
/// smaller, and more entries than that place are not larger.
pub open spec fn is_lower_median_key(keys: Seq<u32>, key: u32) -> bool {
    &&& keys.len() > 0
    &&& keys.contains(key)
    &&& count_below(keys, key) <= (keys.len() - 1) / 2
    &&& (keys.len() - 1) / 2 < count_at_most(keys, key)
}

/// The samples that have the given ranks.
pub open spec fn samples_of(keys: Seq<u32>) -> Seq<u32> {
    keys.map_values(|key: u32| pattern_of_key(key))
}

/// How many samples of `window` come before `sample` in the total order.
pub open spec fn count_before(window: Seq<u32>, sample: u32) -> nat
    decreases window.len(),
{
    if window.len() == 0 {
        0
    } else {
        count_before(window.drop_last(), sample) + if precedes(window.last(), sample) {
            1nat
        } else {
            0nat
        }
    }
}

/// How many samples of `window` do not come after `sample` in the total order.
pub open spec fn count_not_after(window: Seq<u32>, sample: u32) -> nat
    decreases window.len(),
{
    if window.len() == 0 {
        0
    } else {
        count_not_after(window.drop_last(), sample) + if !precedes(sample, window.last()) {
            1nat
        } else {
            0nat
        }
    }
}

/// Whether `sample` is the median of `window`: it is in the window, fewer
/// than `(len - 1) / 2 + 1` samples come before it, and more than
/// `(len - 1) / 2` do not come after it.
pub open spec fn is_median(window: Seq<u32>, sample: u32) -> bool {
    &&& window.len() > 0
    &&& window.contains(sample)
    &&& count_before(window, sample) <= (window.len() - 1) / 2
    &&& (window.len() - 1) / 2 < count_not_after(window, sample)
}

/// The median of a window that holds a sample.
pub open spec fn median_of(window: Seq<u32>) -> u32 {
    choose|sample: u32| is_median(window, sample)
}

/// Ranks count as their samples do.
pub proof fn lemma_counts_of_keys(keys: Seq<u32>, key: u32)
    ensures
        count_before(samples_of(keys), pattern_of_key(key)) == count_below(keys, key),
        count_not_after(samples_of(keys), pattern_of_key(key)) == count_at_most(keys, key),
    decreases keys.len(),
{
    if keys.len() > 0 {
        lemma_counts_of_keys(keys.drop_last(), key);
        assert(samples_of(keys).drop_last() =~= samples_of(keys.drop_last()));
    }
}

/// The sample whose rank is the median of the ranks is the median of the
/// samples.
pub proof fn lemma_median_of_keys(keys: Seq<u32>, key: u32)
    requires
        is_lower_median_key(keys, key),
    ensures
        is_median(samples_of(keys), pattern_of_key(key)),
{
    lemma_counts_of_keys(keys, key);
    let i = choose|i: int| 0 <= i < keys.len() && keys[i] == key;
    assert(samples_of(keys)[i] == pattern_of_key(key));
}

/// Sliding the ranks is sliding the samples.
pub proof fn lemma_slide_of_keys(keys: Seq<u32>, limit: nat, sample: u32)
    requires
        limit >= 1,
    ensures
        samples_of(slide(keys, limit, order_key(sample))) == slide(samples_of(keys), limit, sample),
{
    assert(samples_of(slide(keys, limit, order_key(sample))) =~= slide(
        samples_of(keys),
        limit,
        sample,
    ));
}

/// Where one sample comes before another, every sample that does not come
/// after the first comes before the second.
proof fn lemma_counts_are_ordered(window: Seq<u32>, first: u32, second: u32)
    requires
        precedes(first, second),
    ensures
        count_not_after(window, first) <= count_before(window, second),
    decreases window.len(),
{
    if window.len() > 0 {
        lemma_counts_are_ordered(window.drop_last(), first, second);
    }
}

/// A window has one median at most.
pub proof fn lemma_median_is_unique(window: Seq<u32>, a: u32, b: u32)
    requires
        is_median(window, a),
        is_median(window, b),
    ensures
        a == b,
{
    if precedes(a, b) {
        lemma_counts_are_ordered(window, a, b);
    }
    if precedes(b, a) {
        lemma_counts_are_ordered(window, b, a);
    }
}

/// No more samples come before a sample than do not come after it, and
/// fewer if the sample is in the window itself.
pub proof fn lemma_counts_grow(window: Seq<u32>, sample: u32)
    ensures
        count_before(window, sample) <= count_not_after(window, sample) <= window.len(),
        window.contains(sample) ==> count_before(window, sample) < count_not_after(window, sample),
    decreases window.len(),
{
    if window.len() > 0 {
        lemma_counts_grow(window.drop_last(), sample);
        if window.contains(sample) && window.last() != sample {
            let i = choose|i: int| 0 <= i < window.len() && window[i] == sample;
            assert(window.drop_last()[i] == sample);
        }
    }
}

/// Where no sample of the window comes before a sample, the count of those
/// before it is zero, and where none comes after it, the count of those not
/// after it is the size of the window.
proof fn lemma_counts_at_the_ends(window: Seq<u32>, sample: u32)
    ensures
        (forall|i: int| 0 <= i < window.len() ==> !precedes(#[trigger] window[i], sample))
            ==> count_before(window, sample) == 0,
        (forall|i: int| 0 <= i < window.len() ==> !precedes(sample, #[trigger] window[i]))
            ==> count_not_after(window, sample) == window.len(),
    decreases window.len(),
{
    if window.len() > 0 {
        lemma_counts_at_the_ends(window.drop_last(), sample);
        assert(forall|i: int|
            0 <= i < window.len() - 1 ==> window.drop_last()[i] == #[trigger] window[i]);
    }
}

/// Where the samples before `next` are just those not after `sample`, the
/// two counts agree.
proof fn lemma_counts_meet(window: Seq<u32>, sample: u32, next: u32)
    requires
        forall|i: int|
            0 <= i < window.len() ==> (precedes(#[trigger] window[i], next) <==> !precedes(
                sample,
                window[i],
            )),
    ensures
        count_before(window, next) == count_not_after(window, sample),
    decreases window.len(),
{
    if window.len() > 0 {
        assert(forall|i: int|
            0 <= i < window.len() - 1 ==> window.drop_last()[i] == #[trigger] window[i]);
        lemma_counts_meet(window.drop_last(), sample, next);
    }
}

/// Of the samples of a window whose rank is at least `floor`, one comes first.
proof fn lemma_least_from(window: Seq<u32>, floor: int) -> (least: u32)
    requires
        exists|i: int| 0 <= i < window.len() && order_key(#[trigger] window[i]) >= floor,
    ensures
        window.contains(least),
        order_key(least) >= floor,
        forall|i: int|
            0 <= i < window.len() && order_key(#[trigger] window[i]) >= floor ==> order_key(least)
                <= order_key(window[i]),
    decreases window.len(),
{
    let rest = window.drop_last();
    let last = window.last();
    assert(forall|i: int| 0 <= i < window.len() - 1 ==> rest[i] == #[trigger] window[i]);
    if exists|i: int| 0 <= i < rest.len() && order_key(#[trigger] rest[i]) >= floor {
        let earlier = lemma_least_from(rest, floor);
        if order_key(last) >= floor && order_key(last) < order_key(earlier) {
            last
        } else {
            earlier
        }
    } else {
        last
    }
}

/// For every place of a window there is a sample that stands at that place
/// once the window is put in order.
pub proof fn lemma_sample_at_place(window: Seq<u32>, place: nat) -> (sample: u32)
    requires
        place < window.len(),
    ensures
        window.contains(sample),
        count_before(window, sample) <= place < count_not_after(window, sample),
    decreases place,
{
    if place == 0 {
        assert(order_key(window[0]) >= 0);
        let least = lemma_least_from(window, 0);
        lemma_counts_at_the_ends(window, least);
        lemma_counts_grow(window, least);
        least
    } else {
        let earlier = lemma_sample_at_place(window, (place - 1) as nat);
        if count_not_after(window, earlier) > place {
            earlier
        } else {
            lemma_counts_at_the_ends(window, earlier);
            let next = lemma_least_from(window, order_key(earlier) + 1);
            lemma_counts_meet(window, earlier, next);
            lemma_counts_grow(window, next);
            next
        }
    }
}

/// A window that holds a sample has a median.
pub proof fn lemma_median_exists(window: Seq<u32>)
    requires
        window.len() > 0,
    ensures
        is_median(window, median_of(window)),
{
    let sample = lemma_sample_at_place(window, ((window.len() - 1) / 2) as nat);
    assert(is_median(window, sample));
}

/// What a window holds after a run of samples was in it before or is one of
/// the samples.
pub proof fn lemma_fed_members<T>(window: Seq<T>, limit: nat, samples: Seq<T>, member: T)
    requires
        limit >= 1,
        fed(window, limit, samples).contains(member),
    ensures
        window.contains(member) || samples.contains(member),
    decreases samples.len(),
{
    if samples.len() > 0 {
        let before = fed(window, limit, samples.drop_last());
        if before.contains(member) {
            lemma_fed_members(window, limit, samples.drop_last(), member);
        }
    }
}

/// A sample that is a median of a window is the median of it.
pub proof fn lemma_median_is_determined(window: Seq<u32>, sample: u32)
    requires
        is_median(window, sample),
    ensures
        median_of(window) == sample,
{
    lemma_median_is_unique(window, sample, median_of(window));
}

/// Feeding a run of samples and then one more is feeding the longer run.
pub proof fn lemma_fed_push<T>(window: Seq<T>, limit: nat, samples: Seq<T>, sample: T)
    ensures
        fed(window, limit, samples.push(sample)) == slide(fed(window, limit, samples), limit, sample),
{
    assert(samples.push(sample).drop_last() =~= samples);
}

/// A window that was within its length stays so, whatever is fed, and holds
/// a sample as soon as one is fed.
pub proof fn lemma_fed_len<T>(window: Seq<T>, limit: nat, samples: Seq<T>)
    requires
        limit >= 1,
        window.len() <= limit,
    ensures
        fed(window, limit, samples).len() <= limit,
        samples.len() > 0 ==> fed(window, limit, samples).len() > 0,
{
}

/// Once as many samples as the window is long have been fed, nothing of what
/// the window held before is left: it holds the last `limit` samples.
pub proof fn lemma_fed_forgets<T>(window: Seq<T>, limit: nat, samples: Seq<T>)
    requires
        limit >= 1,
        window.len() <= limit,
        samples.len() >= limit,
    ensures
        fed(window, limit, samples) == samples.subrange(samples.len() - limit, samples.len() as int),
    decreases samples.len(),
{
    let before = fed(window, limit, samples.drop_last());
    if samples.len() > limit {
        lemma_fed_forgets(window, limit, samples.drop_last());
        assert(slide(before, limit, samples.last()) =~= samples.subrange(
            samples.len() - limit,
            samples.len() as int,
        ));
    } else {
        lemma_fed_holds_all(window, limit, samples.drop_last());
        assert(slide(before, limit, samples.last()) =~= samples.subrange(
            samples.len() - limit,
            samples.len() as int,
        ));
    }
}

/// While fewer samples than the window is long have been fed, the window ends
/// with all of them.
proof fn lemma_fed_holds_all<T>(window: Seq<T>, limit: nat, samples: Seq<T>)
    requires
        limit >= 1,
        window.len() <= limit,
        samples.len() < limit,
    ensures
        fed(window, limit, samples).len() >= samples.len(),
        fed(window, limit, samples).subrange(
            fed(window, limit, samples).len() - samples.len(),
            fed(window, limit, samples).len() as int,
        ) == samples,
    decreases samples.len(),
{
    if samples.len() > 0 {
        let before = fed(window, limit, samples.drop_last());
        lemma_fed_holds_all(window, limit, samples.drop_last());
        let after = slide(before, limit, samples.last());
        assert(after.subrange(after.len() - samples.len(), after.len() as int) =~= samples) by {
            let tail = before.subrange(before.len() - (samples.len() - 1), before.len() as int);
            assert forall|i: int| 0 <= i < samples.len() implies after[after.len() - samples.len()
                + i] == samples[i] by {
                if i < samples.len() - 1 {
                    assert(tail[i] == samples.drop_last()[i]);
                }
            }
        }
    } else {
        assert(fed(window, limit, samples).subrange(
            fed(window, limit, samples).len() as int,
            fed(window, limit, samples).len() as int,
        ) =~= samples);
    }
}

} // verus!
