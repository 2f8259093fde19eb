//! The audio loop: two running-median filters, one for each channel, whose
//! window follows the window-size control.

use median::heap::Filter;
use vstd::arithmetic::power2::lemma2_to64;
use vstd::prelude::*;
use crate::arithmetic::blend;
use crate::arithmetic::blend_samples;
use crate::arithmetic::lemma_blend_all_dry;
use crate::arithmetic::lemma_blend_all_wet;
use crate::binary32::from_order_key;
use crate::binary32::is_finite;
use crate::binary32::is_zero;
use crate::binary32::pattern_of_key;
use crate::binary32::same_number;
use crate::binary32::to_order_key;
use crate::binary32::ONE;
use crate::binary32::ZERO;
use crate::engine::filter_consume;
use crate::engine::filter_is_empty;
use crate::engine::filter_limit;
use crate::engine::filter_median;
use crate::engine::filter_new;
use crate::engine::filter_window;
use crate::parameter::ParameterType;
use crate::storage::window_length;
use crate::storage::Parameters;
use crate::storage::RawParameters;
use crate::window::fed;
use crate::window::lemma_fed_members;
use crate::window::lemma_fed_push;
use crate::window::lemma_median_exists;
use crate::window::lemma_median_is_determined;
use crate::window::lemma_median_of_keys;
use crate::window::lemma_slide_of_keys;
use crate::window::median_of;
use crate::window::samples_of;

verus! {

/// The window length of a unit that has not seen its controls yet.
pub const INITIAL_WINDOW_SIZE: usize = 50;

/// What the unit tells the host of itself.
pub struct UnitInfo {
    /// The name of the unit.
    pub name: &'static str,
    /// Who made it.
    pub vendor: &'static str,
    /// The number by which hosts tell it from other units.
    pub unique_id: i32,
    /// Its version.
    pub version: i32,
    /// The number of its controls.
    pub parameters: i32,
    /// The number of channels it reads.
    pub inputs: i32,
    /// The number of channels it writes.
    pub outputs: i32,
}

/// The state of the audio loop.
pub struct MedianFilter {
    left_filter: Filter<u32>,
    right_filter: Filter<u32>,
    last_window_size: usize,
}

/// The two channels of one processed buffer.
pub struct StereoOutput {
    /// The output samples of the left channel.
    pub left: Vec<u32>,
    /// The output samples of the right channel.
    pub right: Vec<u32>,
}

/// Whether `output` is what one channel gives for `input`, one sample for
/// one: each output sample blends the input sample at its place with the
/// median of the window as it stands once that input sample has been fed.
pub open spec fn is_processed(
    start: Seq<u32>,
    limit: nat,
    mix: u32,
    input: Seq<u32>,
    output: Seq<u32>,
) -> bool {
    &&& output.len() == input.len()
    &&& forall|i: int|
        0 <= i < input.len() ==> #[trigger] output[i] == blend(
            input[i],
            median_of(fed(start, limit, input.take(i + 1))),
            mix,
        )
}

/// A unit that has not seen its controls yet has the window length that the
/// default of the window-size control stands for, so taking up the defaults
/// leaves its filters as they are.
pub proof fn lemma_initial_window_is_the_default()
    ensures
        window_length(ParameterType::WindowSize.default_bits()) == INITIAL_WINDOW_SIZE,
{
    lemma2_to64();
    assert(1694498816int / 33554432 == 50) by (nonlinear_arith);
}

/// Whether every sample of a run is a finite number.
pub open spec fn all_finite(samples: Seq<u32>) -> bool {
    forall|i: int| 0 <= i < samples.len() ==> is_finite(#[trigger] samples[i])
}

/// Where all samples are finite, the median that goes into an output sample
/// is a finite sample of the window.
proof fn lemma_median_is_finite(start: Seq<u32>, limit: nat, input: Seq<u32>, i: int)
    requires
        limit >= 1,
        all_finite(start),
        all_finite(input),
        0 <= i < input.len(),
    ensures
        is_finite(median_of(fed(start, limit, input.take(i + 1)))),
{
    let fed_so_far = input.take(i + 1);
    let window = fed(start, limit, fed_so_far);
    lemma_median_exists(window);
    let middle = median_of(window);
    lemma_fed_members(start, limit, fed_so_far, middle);
}

/// With no share for the filtered signal, every output sample is the number
/// that the input sample at its place is, as long as all samples are finite.
pub proof fn lemma_all_dry_gives_the_input(
    start: Seq<u32>,
    limit: nat,
    mix: u32,
    input: Seq<u32>,
    output: Seq<u32>,
)
    requires
        limit >= 1,
        is_zero(mix),
        all_finite(start),
        all_finite(input),
        is_processed(start, limit, mix, input, output),
    ensures
        forall|i: int| 0 <= i < input.len() ==> same_number(#[trigger] output[i], input[i]),
{
    assert forall|i: int| 0 <= i < input.len() implies same_number(#[trigger] output[i], input[i]) by {
        lemma_median_is_finite(start, limit, input, i);
        lemma_blend_all_dry(input[i], median_of(fed(start, limit, input.take(i + 1))), mix);
    }
}

/// With the whole share for the filtered signal, every output sample is the
/// number that the median of the window is once the input sample at its
/// place has been fed, as long as all samples are finite.
pub proof fn lemma_all_wet_gives_the_median(
    start: Seq<u32>,
    limit: nat,
    input: Seq<u32>,
    output: Seq<u32>,
)
    requires
        limit >= 1,
        all_finite(start),
        all_finite(input),
        is_processed(start, limit, ONE, input, output),
    ensures
        forall|i: int|
            0 <= i < input.len() ==> same_number(
                #[trigger] output[i],
                median_of(fed(start, limit, input.take(i + 1))),
            ),
{
    assert forall|i: int| 0 <= i < input.len() implies same_number(
        #[trigger] output[i],
        median_of(fed(start, limit, input.take(i + 1))),
    ) by {
        lemma_median_is_finite(start, limit, input, i);
        lemma_blend_all_wet(input[i], median_of(fed(start, limit, input.take(i + 1))));
    }
}

/// Runs one channel through its filter: each sample is fed to the filter and
/// blended with the median the filter then has. A filter without a place to
/// hold a sample would give silence for the median.
fn process_channel(filter: &mut Filter<u32>, input: &Vec<u32>, mix: u32) -> (output: Vec<u32>)
    requires
        filter_limit(*old(filter)) >= 1,
    ensures
        filter_limit(*final(filter)) == filter_limit(*old(filter)),
        samples_of(filter_window(*final(filter))) == fed(
            samples_of(filter_window(*old(filter))),
            filter_limit(*old(filter)),
            input@,
        ),
        is_processed(
            samples_of(filter_window(*old(filter))),
            filter_limit(*old(filter)),
            mix,
            input@,
            output@,
        ),
{
    let ghost start = samples_of(filter_window(*filter));
    let ghost limit = filter_limit(*filter);
    let mut output: Vec<u32> = Vec::new();
    let mut i: usize = 0;
    while i < input.len()
        invariant
            i <= input.len(),
            output.len() == i,
            limit >= 1,
            filter_limit(*filter) == limit,
            samples_of(filter_window(*filter)) == fed(start, limit, input@.take(i as int)),
            forall|j: int|
                0 <= j < i ==> #[trigger] output[j] == blend(
                    input[j],
                    median_of(fed(start, limit, input@.take(j + 1))),
                    mix,
                ),
        decreases input.len() - i,
    {
        let sample: u32 = input[i];
        let ghost keys_before = filter_window(*filter);
        filter_consume(filter, to_order_key(sample));
        proof {
            lemma_slide_of_keys(keys_before, limit, sample);
            lemma_fed_push(start, limit, input@.take(i as int), sample);
            assert(input@.take(i as int).push(sample) =~= input@.take(i + 1));
        }
        let out: u32 = if filter_is_empty(filter) != 0 {
            let middle: u32 = filter_median(filter);
            proof {
                lemma_median_of_keys(filter_window(*filter), middle);
                lemma_median_is_determined(
                    samples_of(filter_window(*filter)),
                    pattern_of_key(middle),
                );
            }
            from_order_key(middle)
        } else {
            ZERO
        };
        output.push(blend_samples(sample, out, mix));
        i += 1;
    }
    assert(input@.take(input.len() as int) =~= input@);
    output
}

impl MedianFilter {
    /// Whether both filters have the window length that was seen last.
    pub closed spec fn wf(&self) -> bool {
        &&& self.last_window_size >= 1
        &&& filter_limit(self.left_filter) == self.last_window_size
        &&& filter_limit(self.right_filter) == self.last_window_size
    }

    /// The window length that was seen last.
    pub closed spec fn window_size(&self) -> nat {
        self.last_window_size as nat
    }

    /// The samples the filter of the left channel holds, oldest first.
    pub closed spec fn left_window(&self) -> Seq<u32> {
        samples_of(filter_window(self.left_filter))
    }

    /// The samples the filter of the right channel holds, oldest first.
    pub closed spec fn right_window(&self) -> Seq<u32> {
        samples_of(filter_window(self.right_filter))
    }

    /// The window length the filters must take before they filter a buffer
    /// under the given controls.
    pub open spec fn wanted_window_size(params: &RawParameters) -> nat {
        window_length(params.stored(ParameterType::WindowSize))
    }

    /// What the left filter holds when it starts on a buffer under the given
    /// controls: what it held before if the window length is the same, and
    /// nothing if it is not.
    pub open spec fn left_start(&self, params: &RawParameters) -> Seq<u32> {
        if self.window_size() == Self::wanted_window_size(params) {
            self.left_window()
        } else {
            Seq::<u32>::empty()
        }
    }

    /// What the right filter holds when it starts on a buffer under the given
    /// controls.
    pub open spec fn right_start(&self, params: &RawParameters) -> Seq<u32> {
        if self.window_size() == Self::wanted_window_size(params) {
            self.right_window()
        } else {
            Seq::<u32>::empty()
        }
    }

    /// The largest window length for which filters are made.
    pub open spec fn largest_window_size() -> nat {
        (isize::MAX / 32) as nat
    }

    /// Whether filters can be made for the window length that the controls
    /// ask for.
    pub fn window_fits(params: &RawParameters) -> (fits: bool)
        ensures
            fits == (Self::wanted_window_size(params) <= Self::largest_window_size()),
    {
        Parameters::from(params).window_size <= isize::MAX as usize / 32
    }

    /// A loop whose filters hold nothing and have the initial window length.
    pub fn new() -> (unit: MedianFilter)
        ensures
            unit.wf(),
            unit.window_size() == INITIAL_WINDOW_SIZE,
            unit.left_window() == Seq::<u32>::empty(),
            unit.right_window() == Seq::<u32>::empty(),
    {
        let unit = MedianFilter {
            left_filter: filter_new(INITIAL_WINDOW_SIZE),
            right_filter: filter_new(INITIAL_WINDOW_SIZE),
            last_window_size: INITIAL_WINDOW_SIZE,
        };
        unit
    }

    /// What the unit tells the host of itself: an effect with two channels
    /// in, two channels out, and one control for each row of the table.
    pub fn get_info(&self) -> (info: UnitInfo)
        ensures
            info.name@ == "Median Filter"@,
            info.vendor@ == "a2aaron"@,
            info.unique_id == 612413,
            info.version == 1,
            info.parameters == ParameterType::COUNT,
            info.inputs == 2,
            info.outputs == 2,
    {
        UnitInfo {
            name: "Median Filter",
            vendor: "a2aaron",
            unique_id: 612413,
            version: 1,
            parameters: ParameterType::COUNT as i32,
            inputs: 2,
            outputs: 2,
        }
    }

    /// Whether the unit has the capability that the host asks for by name:
    /// it can be bypassed, and has no other.
    pub fn can_do(&self, capability: &str) -> (supported: bool)
        ensures
            supported == (capability@ == "bypass"@),
    {
        let asked = String::from_str(capability);
        let bypass = String::from_str("bypass");
        asked == bypass
    }

    /// Takes up the window length of the controls before the first buffer,
    /// as `reset_if_changed` does.
    pub fn init(&mut self, params: &RawParameters)
        requires
            old(self).wf(),
            Self::wanted_window_size(params) <= Self::largest_window_size(),
        ensures
            final(self).wf(),
            final(self).window_size() == Self::wanted_window_size(params),
            old(self).window_size() == Self::wanted_window_size(params) ==> *final(self) == *old(self),
            final(self).left_window() == old(self).left_start(params),
            final(self).right_window() == old(self).right_start(params),
    {
        self.reset_if_changed(params);
    }

    /// Takes up the window length of the controls: where it differs from the
    /// one seen last, both filters are made anew and hold nothing; where it
    /// does not, they stay as they are.
    pub fn reset_if_changed(&mut self, params: &RawParameters)
        requires
            old(self).wf(),
            Self::wanted_window_size(params) <= Self::largest_window_size(),
        ensures
            final(self).wf(),
            final(self).window_size() == Self::wanted_window_size(params),
            old(self).window_size() == Self::wanted_window_size(params) ==> *final(self) == *old(self),
            final(self).left_window() == old(self).left_start(params),
            final(self).right_window() == old(self).right_start(params),
    {
        let params = Parameters::from(params);
        if params.window_size != self.last_window_size {
            self.left_filter = filter_new(params.window_size);
            self.right_filter = filter_new(params.window_size);
            self.last_window_size = params.window_size;
        }
    }

    /// Processes one buffer: takes up the window length of the controls,
    /// then runs each channel through its filter and blends every sample with
    /// the median that the filter has once the sample is fed, in the share
    /// that the wet/dry control gives.
    pub fn process(&mut self, params: &RawParameters, left_input: &Vec<u32>, right_input: &Vec<
        u32,
    >) -> (output: StereoOutput)
        requires
            old(self).wf(),
            Self::wanted_window_size(params) <= Self::largest_window_size(),
        ensures
            final(self).wf(),
            final(self).window_size() == Self::wanted_window_size(params),
            is_processed(
                old(self).left_start(params),
                Self::wanted_window_size(params),
                params.stored(ParameterType::WetDry),
                left_input@,
                output.left@,
            ),
            is_processed(
                old(self).right_start(params),
                Self::wanted_window_size(params),
                params.stored(ParameterType::WetDry),
                right_input@,
                output.right@,
            ),
            final(self).left_window() == fed(
                old(self).left_start(params),
                Self::wanted_window_size(params),
                left_input@,
            ),
            final(self).right_window() == fed(
                old(self).right_start(params),
                Self::wanted_window_size(params),
                right_input@,
            ),
    {
        self.reset_if_changed(params);
        let params = Parameters::from(params);
        let wet_dry: u32 = params.wet_dry;
        let left = process_channel(&mut self.left_filter, left_input, wet_dry);
        let right = process_channel(&mut self.right_filter, right_input, wet_dry);
        StereoOutput { left, right }
    }
}

} // verus!
