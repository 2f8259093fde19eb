//! The stored values of the controls, and the values the audio loop derives
//! from them.

use vstd::arithmetic::power2::lemma2_to64;
use vstd::arithmetic::power2::lemma_pow2_strictly_increases;
use vstd::arithmetic::power2::pow2;
use vstd::prelude::*;
use vstd::std_specs::convert::FromSpecImpl;
use crate::arithmetic::multiply_patterns;
use crate::arithmetic::product;
use crate::binary32::in_unit_range;
use crate::binary32::is_infinite;
use crate::binary32::is_nan;
use crate::binary32::is_negative;
use crate::binary32::is_same_number;
use crate::binary32::same_number;
use crate::binary32::scale;
use crate::binary32::significand;
use crate::binary32::HUNDRED;
use crate::binary32::INFINITY;
use crate::binary32::ONE;
use crate::binary32::SIGN;
use crate::binary32::ZERO;
use crate::parameter::ParameterType;
use crate::rounding::round_multiple;
use crate::rounding::rounded_multiple;
use crate::text::decimal;
use crate::text::decimal_text;
use crate::text::fixed2_text;
use crate::text::format_fixed2;

verus! {

/// The stored value of each control, as the pattern of a number that by
/// convention lies between `0.0` and `1.0`.
#[derive(Debug, Clone, Copy, PartialEq, Eq, Structural)]
pub struct RawParameters {
    window_size: u32,
    wet_dry: u32,
}

/// One step the host side has to take for a change of a control to take
/// effect. The steps of a change are taken in the order they are given in.
#[derive(Debug, Clone, Copy, PartialEq, Eq, Structural)]
pub enum HostAction {
    /// Tell the host that an edit of the control at this place begins.
    BeginEdit(i32),
    /// Put the pattern into the cell of the control.
    Store(ParameterType, u32),
    /// Tell the host that the edit of the control at this place has ended.
    EndEdit(i32),
}

/// The steps of one change: the write to the cell, between the two notices
/// to the host.
pub open spec fn edit_steps(parameter: ParameterType, value: u32) -> Seq<HostAction> {
    seq![
        HostAction::BeginEdit(parameter.index()),
        HostAction::Store(parameter, value),
        HostAction::EndEdit(parameter.index()),
    ]
}

/// The values the audio loop works with, derived from the stored ones.
#[derive(Debug, Clone, Copy, PartialEq, Eq, Structural)]
pub struct Parameters {
    /// The length of the sliding window, in samples; never zero.
    pub window_size: usize,
    /// The pattern of the share of the filtered signal in the output.
    pub wet_dry: u32,
}

/// The window length that a stored pattern stands for: the whole number
/// nearest to a hundred times its value, but at least one and at most what a
/// `usize` holds. A pattern that is negative or not a number stands for one.
pub open spec fn window_length(bits: u32) -> nat {
    if is_nan(bits) || is_negative(bits) {
        1
    } else if is_infinite(bits) {
        usize::MAX as nat
    } else if rounded_multiple(bits, 100) < 1 {
        1
    } else if rounded_multiple(bits, 100) > usize::MAX {
        usize::MAX as nat
    } else {
        rounded_multiple(bits, 100)
    }
}

/// The unit in which the host shows the value of a control.
pub open spec fn unit_text(parameter: ParameterType) -> Seq<char> {
    match parameter {
        ParameterType::WetDry => "% Wet"@,
        ParameterType::WindowSize => " Samples"@,
    }
}

/// The unit of the control at a place, and the empty text where the place
/// holds none.
pub open spec fn unit_text_at(index: i32) -> Seq<char> {
    match ParameterType::at(index) {
        Some(parameter) => unit_text(parameter),
        None => Seq::<char>::empty(),
    }
}

/// The name of the control at a place, and the empty text where the place
/// holds none.
pub open spec fn name_at(index: i32) -> Seq<char> {
    match ParameterType::at(index) {
        Some(parameter) => parameter.name(),
        None => Seq::<char>::empty(),
    }
}

/// Computes `window_length`.
pub fn window_length_of(bits: u32) -> (length: usize)
    ensures
        length == window_length(bits),
        length >= 1,
{
    if bits >= SIGN || bits > INFINITY {
        1
    } else if bits == INFINITY {
        usize::MAX
    } else {
        let nearest: u64 = round_multiple(bits, 100);
        if nearest < 1 {
            1
        } else if nearest > usize::MAX as u64 {
            usize::MAX
        } else {
            nearest as usize
        }
    }
}

impl RawParameters {
    /// The pattern stored for a control.
    pub closed spec fn stored(&self, parameter: ParameterType) -> u32 {
        match parameter {
            ParameterType::WindowSize => self.window_size,
            ParameterType::WetDry => self.wet_dry,
        }
    }

    /// The storage in which `parameter` holds `value` and the other control
    /// holds what it holds in `self`.
    pub closed spec fn with(&self, parameter: ParameterType, value: u32) -> RawParameters {
        match parameter {
            ParameterType::WindowSize => RawParameters { window_size: value, wet_dry: self.wet_dry },
            ParameterType::WetDry => RawParameters { window_size: self.window_size, wet_dry: value },
        }
    }

    /// The storage after a request to give `parameter` the value `value`: a
    /// value that is the number already stored changes nothing.
    pub open spec fn after_set(&self, parameter: ParameterType, value: u32) -> RawParameters {
        if same_number(self.stored(parameter), value) {
            *self
        } else {
            self.with(parameter, value)
        }
    }

    /// The steps the host side has to take after such a request.
    pub open spec fn steps_of_set(&self, parameter: ParameterType, value: u32) -> Seq<HostAction> {
        if same_number(self.stored(parameter), value) {
            Seq::<HostAction>::empty()
        } else {
            edit_steps(parameter, value)
        }
    }

    /// The storage after a request by place: a place that holds no control
    /// changes nothing.
    pub open spec fn after_set_parameter(&self, index: i32, value: u32) -> RawParameters {
        match ParameterType::at(index) {
            Some(parameter) => self.after_set(parameter, value),
            None => *self,
        }
    }

    /// The steps the host side has to take after a request by place.
    pub open spec fn steps_of_set_parameter(&self, index: i32, value: u32) -> Seq<HostAction> {
        match ParameterType::at(index) {
            Some(parameter) => self.steps_of_set(parameter, value),
            None => Seq::<HostAction>::empty(),
        }
    }

    /// The pattern stored for the control at a place, and the pattern of zero
    /// where the place holds none.
    pub open spec fn stored_at(&self, index: i32) -> u32 {
        match ParameterType::at(index) {
            Some(parameter) => self.stored(parameter),
            None => ZERO,
        }
    }

    /// The value of the control at a place as the host shows it, and the
    /// empty text where the place holds none.
    pub open spec fn value_text_at(&self, index: i32) -> Seq<char> {
        match ParameterType::at(index) {
            Some(parameter) => self.value_text(parameter),
            None => Seq::<char>::empty(),
        }
    }

    /// The values the audio loop derives from this storage.
    pub open spec fn derived(&self) -> Parameters {
        Parameters {
            window_size: window_length(self.stored(ParameterType::WindowSize)) as usize,
            wet_dry: self.stored(ParameterType::WetDry),
        }
    }

    /// The value of a control as the host shows it: the share of the filtered
    /// signal as a percentage with two decimals, the window length as a whole
    /// number of samples.
    pub open spec fn value_text(&self, parameter: ParameterType) -> Seq<char> {
        match parameter {
            ParameterType::WetDry => fixed2_text(product(self.derived().wet_dry, HUNDRED)),
            ParameterType::WindowSize => decimal(self.derived().window_size as nat),
        }
    }

    /// A storage in which every control holds its default.
    pub fn default() -> (storage: RawParameters)
        ensures
            forall|parameter: ParameterType|
                #[trigger] storage.stored(parameter) == parameter.default_bits(),
    {
        RawParameters {
            window_size: ParameterType::get_default(ParameterType::WindowSize),
            wet_dry: ParameterType::get_default(ParameterType::WetDry),
        }
    }

    /// A storage that holds the two given patterns.
    pub fn snapshot(window_size: u32, wet_dry: u32) -> (storage: RawParameters)
        ensures
            storage.stored(ParameterType::WindowSize) == window_size,
            storage.stored(ParameterType::WetDry) == wet_dry,
    {
        RawParameters { window_size, wet_dry }
    }

    /// The pattern stored for a control.
    pub fn get(&self, parameter: ParameterType) -> (value: u32)
        ensures
            value == self.stored(parameter),
    {
        match parameter {
            ParameterType::WindowSize => self.window_size,
            ParameterType::WetDry => self.wet_dry,
        }
    }

    /// Gives a control a new value and says what the host side has to do for
    /// it. A value that is the number already stored is an echo of the host:
    /// nothing is stored and nothing is to be done.
    pub fn set(&mut self, value: u32, parameter: ParameterType) -> (steps: Vec<HostAction>)
        ensures
            *final(self) == old(self).after_set(parameter, value),
            steps@ == old(self).steps_of_set(parameter, value),
            same_number(old(self).stored(parameter), value) ==> final(self).stored(parameter) == old(
                self,
            ).stored(parameter),
            !same_number(old(self).stored(parameter), value) ==> final(self).stored(parameter)
                == value,
            forall|other: ParameterType|
                other != parameter ==> #[trigger] final(self).stored(other) == old(self).stored(other),
    {
        if is_same_number(self.get(parameter), value) {
            return Vec::new();
        }
        let index: i32 = i32::from(parameter);
        match parameter {
            ParameterType::WindowSize => {
                self.window_size = value;
            },
            ParameterType::WetDry => {
                self.wet_dry = value;
            },
        }
        vec![HostAction::BeginEdit(index), HostAction::Store(parameter, value), HostAction::EndEdit(index)]
    }

    /// The value of a control as the host shows it, and the unit that goes
    /// with it.
    pub fn get_strings(&self, parameter: ParameterType) -> (texts: (String, String))
        ensures
            texts.0@ == self.value_text(parameter),
            texts.1@ == unit_text(parameter),
    {
        let params = Parameters::from(self);
        match parameter {
            ParameterType::WetDry => (
                format_fixed2(multiply_patterns(params.wet_dry, HUNDRED)),
                String::from_str("% Wet"),
            ),
            ParameterType::WindowSize => (
                decimal_text(params.window_size as u128),
                String::from_str(" Samples"),
            ),
        }
    }

    /// The unit of the control at a place in the host's numbering, or the
    /// empty string where the place holds none.
    pub fn get_parameter_label(&self, index: i32) -> (label: String)
        ensures
            label@ == unit_text_at(index),
    {
        match ParameterType::try_from(index) {
            Ok(parameter) => self.get_strings(parameter).1,
            Err(_) => String::new(),
        }
    }

    /// The value of the control at a place in the host's numbering as the
    /// host shows it, or the empty string where the place holds none.
    pub fn get_parameter_text(&self, index: i32) -> (text: String)
        ensures
            text@ == self.value_text_at(index),
    {
        match ParameterType::try_from(index) {
            Ok(parameter) => self.get_strings(parameter).0,
            Err(_) => String::new(),
        }
    }

    /// The name of the control at a place in the host's numbering, or the
    /// empty string where the place holds none.
    pub fn get_parameter_name(&self, index: i32) -> (name: String)
        ensures
            name@ == name_at(index),
    {
        match ParameterType::try_from(index) {
            Ok(parameter) => parameter.to_string(),
            Err(_) => String::new(),
        }
    }

    /// The pattern stored for the control at a place in the host's
    /// numbering, or the pattern of zero where the place holds none.
    pub fn get_parameter(&self, index: i32) -> (value: u32)
        ensures
            value == self.stored_at(index),
    {
        match ParameterType::try_from(index) {
            Ok(parameter) => self.get(parameter),
            Err(_) => ZERO,
        }
    }

    /// Gives the control at a place in the host's numbering a new value, as
    /// `set` does. A place that holds no control changes nothing.
    pub fn set_parameter(&mut self, index: i32, value: u32) -> (steps: Vec<HostAction>)
        ensures
            *final(self) == old(self).after_set_parameter(index, value),
            steps@ == old(self).steps_of_set_parameter(index, value),
    {
        match ParameterType::try_from(index) {
            Ok(parameter) => self.set(value, parameter),
            Err(_) => Vec::new(),
        }
    }

    /// Whether the host may automate the control at a place in its
    /// numbering: it may where the place holds a control.
    pub fn can_be_automated(&self, index: i32) -> (automatable: bool)
        ensures
            automatable == ParameterType::at(index).is_some(),
    {
        ParameterType::try_from(index).is_ok()
    }

    /// Whether a text was taken as the value of a control: none ever is.
    pub fn string_to_parameter(&self, index: i32, text: String) -> (accepted: bool)
        ensures
            !accepted,
    {
        false
    }
}

impl<'a> From<&'a RawParameters> for Parameters {
    fn from(params: &'a RawParameters) -> (derived: Parameters)
    {
        Parameters {
            window_size: window_length_of(params.get(ParameterType::WindowSize)),
            wet_dry: params.get(ParameterType::WetDry),
        }
    }
}

impl<'a> FromSpecImpl<&'a RawParameters> for Parameters {
    open spec fn obeys_from_spec() -> bool {
        true
    }

    open spec fn from_spec(params: &'a RawParameters) -> Parameters {
        params.derived()
    }
}

/// A value from zero to one stands for a window of one to a hundred samples.
pub proof fn lemma_window_length_in_unit_range(bits: u32)
    requires
        in_unit_range(bits),
    ensures
        1 <= window_length(bits) <= 100,
{
    lemma2_to64();
    if bits == ONE {
        assert(1686110208int / 16777216 == 100) by (nonlinear_arith);
    } else if bits < ONE {
        let shift = (-scale(bits)) as nat;
        let unit = pow2(shift) as int;
        let product = 100 * significand(bits) as int;
        if shift > 24 {
            lemma_pow2_strictly_increases(24, shift);
        }
        assert((2 * product + unit) / (2 * unit) <= 100) by (nonlinear_arith)
            requires
                0 <= product < 100 * unit,
                unit > 0,
        ;
    }
}

/// Whatever is stored, the window length it stands for is at least one.
pub proof fn lemma_window_length_is_positive(bits: u32)
    ensures
        window_length(bits) >= 1,
{
}

/// A request for a value that is not the number already stored leaves that
/// value in the storage, and leaves the other control as it was.
pub proof fn lemma_set_then_get(storage: RawParameters, parameter: ParameterType, value: u32)
    requires
        !same_number(storage.stored(parameter), value),
    ensures
        storage.after_set(parameter, value).stored(parameter) == value,
        forall|other: ParameterType|
            other != parameter ==> #[trigger] storage.after_set(parameter, value).stored(other)
                == storage.stored(other),
        storage.steps_of_set(parameter, value) == edit_steps(parameter, value),
{
}

/// A request for the number already stored changes nothing and asks nothing
/// of the host.
pub proof fn lemma_echo_is_suppressed(storage: RawParameters, parameter: ParameterType, value: u32)
    requires
        same_number(storage.stored(parameter), value),
    ensures
        storage.after_set(parameter, value) == storage,
        storage.steps_of_set(parameter, value) == Seq::<HostAction>::empty(),
{
}

} // verus!
