//! The running-median filter of the `median` crate, as far as the audio loop
//! uses it.
//!
//! The filter holds ranks of samples rather than the samples themselves:
//! ranks are `u32` values, which the filter puts in their usual order.
//! Nothing here is proved; each contract says what the crate's source shows
//! of the function it names.

use median::heap::Filter;
use vstd::prelude::*;
use crate::window::is_lower_median_key;
use crate::window::slide;

verus! {

/// `Filter`, the running-median filter of the `median` crate. Nothing of
/// what is inside a filter is known here but what the two functions below
/// name.
#[verifier::external_type_specification]
#[verifier::external_body]
#[verifier::reject_recursive_types(T)]
pub struct ExFilter<T>(Filter<T>);

/// The entries a filter holds, oldest first.
pub uninterp spec fn filter_window(filter: Filter<u32>) -> Seq<u32>;

/// The window length a filter was made with.
pub uninterp spec fn filter_limit(filter: Filter<u32>) -> nat;

/// `Filter::new`: a filter of the given window length that holds nothing yet.
/// The filter allocates one slot of at most 32 bytes for each place of the
/// window and links them by index, so the length must be at least one and the
/// slots together must stay within the `isize::MAX` bytes of one allocation.
#[verifier::external_body]
pub(crate) fn filter_new(size: usize) -> (filter: Filter<u32>)
    requires
        1 <= size <= isize::MAX / 32,
    ensures
        filter_limit(filter) == size,
        filter_window(filter) == Seq::<u32>::empty(),
{
    Filter::new(size)
}

/// `Filter::consume`: the entry joins the window, and where the window was
/// full the oldest entry leaves. The window length stays as it was.
#[verifier::external_body]
pub(crate) fn filter_consume(filter: &mut Filter<u32>, value: u32)
    requires
        filter_limit(*old(filter)) >= 1,
    ensures
        filter_limit(*final(filter)) == filter_limit(*old(filter)),
        filter_window(*final(filter)) == slide(
            filter_window(*old(filter)),
            filter_limit(*old(filter)),
            value,
        ),
{
    filter.consume(value);
}

/// `Filter::is_empty`: despite its name it gives the window length, which is
/// zero only for a filter without any place.
#[verifier::external_body]
pub(crate) fn filter_is_empty(filter: &Filter<u32>) -> (length: usize)
    ensures
        length == filter_limit(*filter),
{
    filter.is_empty()
}

/// `Filter::median`: of the entries in the window, the one in the middle of
/// their ascending order, and of two in the middle the first. The filter
/// fails on a window that holds nothing.
#[verifier::external_body]
pub(crate) fn filter_median(filter: &Filter<u32>) -> (middle: u32)
    requires
        filter_window(*filter).len() > 0,
    ensures
        is_lower_median_key(filter_window(*filter), middle),
{
    filter.median()
}

} // verus!
