//! The controls of the unit: their identifiers, their places in the host's
//! numbering, their names and their defaults.

use vstd::prelude::*;
use vstd::std_specs::convert::FromSpecImpl;
use vstd::std_specs::convert::TryFromSpecImpl;
use crate::binary32::in_unit_range;
use crate::binary32::ONE_HALF;

verus! {

/// One control of the unit.
#[derive(Debug, Clone, Copy, PartialEq, Eq, Structural)]
pub enum ParameterType {
    /// The length of the sliding window.
    WindowSize,
    /// The share of the filtered signal in the output.
    WetDry,
}

/// One row of the table of controls.
#[derive(Debug, Clone, Copy)]
pub struct ParameterDescriptor {
    /// The control the row is about.
    pub parameter: ParameterType,
    /// Its place in the host's numbering.
    pub index: i32,
    /// The name under which the host shows it.
    pub name: &'static str,
    /// The pattern of the value it starts with.
    pub default_bits: u32,
}

impl ParameterDescriptor {
    /// Whether the row says of its control what the control's own functions
    /// say.
    pub open spec fn is_consistent(self) -> bool {
        &&& self.index == self.parameter.index()
        &&& self.name@ == self.parameter.name()
        &&& self.default_bits == self.parameter.default_bits()
        &&& in_unit_range(self.default_bits)
    }
}

/// The table of controls, in the order of the host's numbering.
pub fn table() -> (rows: [ParameterDescriptor; 2])
    ensures
        forall|place: int|
            0 <= place < 2 ==> (#[trigger] rows[place]).index == place && rows[place].is_consistent(),
        forall|parameter: ParameterType|
            (#[trigger] rows[parameter.index() as int]).parameter == parameter,
{
    [
        ParameterDescriptor {
            parameter: ParameterType::WetDry,
            index: 0,
            name: "Wet/Dry",
            default_bits: ONE_HALF,
        },
        ParameterDescriptor {
            parameter: ParameterType::WindowSize,
            index: 1,
            name: "Window Size",
            default_bits: ONE_HALF,
        },
    ]
}

impl ParameterType {
    /// The number of controls.
    pub const COUNT: usize = 2;

    /// The place of a control in the host's numbering.
    pub open spec fn index(self) -> i32 {
        match self {
            ParameterType::WetDry => 0,
            ParameterType::WindowSize => 1,
        }
    }

    /// The control at a place in the host's numbering, if there is one.
    pub open spec fn at(index: i32) -> Option<ParameterType> {
        if index == 0 {
            Some(ParameterType::WetDry)
        } else if index == 1 {
            Some(ParameterType::WindowSize)
        } else {
            None
        }
    }

    /// The name under which the host shows a control.
    pub open spec fn name(self) -> Seq<char> {
        match self {
            ParameterType::WetDry => "Wet/Dry"@,
            ParameterType::WindowSize => "Window Size"@,
        }
    }

    /// The pattern of the value a control starts with.
    pub open spec fn default_bits(self) -> u32 {
        match self {
            ParameterType::WetDry => ONE_HALF,
            ParameterType::WindowSize => ONE_HALF,
        }
    }

    /// The row of the table that is about this control.
    pub fn descriptor(self) -> (row: ParameterDescriptor)
        ensures
            row.parameter == self,
            row.is_consistent(),
    {
        let rows = table();
        match self {
            ParameterType::WetDry => rows[0],
            ParameterType::WindowSize => rows[1],
        }
    }

    /// The name of the control, as a string of its own.
    pub fn to_string(&self) -> (text: String)
        ensures
            text@ == self.name(),
    {
        String::from_str(self.descriptor().name)
    }

    /// The pattern of the value the control starts with.
    pub fn get_default(x: ParameterType) -> (bits: u32)
        ensures
            bits == x.default_bits(),
            in_unit_range(bits),
    {
        x.descriptor().default_bits
    }
}

impl From<ParameterType> for i32 {
    fn from(x: ParameterType) -> (index: i32)
    {
        x.descriptor().index
    }
}

impl FromSpecImpl<ParameterType> for i32 {
    open spec fn obeys_from_spec() -> bool {
        true
    }

    open spec fn from_spec(x: ParameterType) -> i32 {
        x.index()
    }
}

impl TryFrom<i32> for ParameterType {
    type Error = ();

    fn try_from(x: i32) -> (found: Result<ParameterType, ()>)
    {
        let rows = table();
        if 0 <= x && (x as usize) < ParameterType::COUNT {
            Ok(rows[x as usize].parameter)
        } else {
            Err(())
        }
    }
}

impl TryFromSpecImpl<i32> for ParameterType {
    open spec fn obeys_try_from_spec() -> bool {
        true
    }

    open spec fn try_from_spec(x: i32) -> Result<ParameterType, ()> {
        match ParameterType::at(x) {
            Some(parameter) => Ok(parameter),
            None => Err(()),
        }
    }
}

/// The numbering is dense: a place holds a control exactly when it is at
/// least zero and below the number of controls.
pub proof fn lemma_places_are_dense(index: i32)
    ensures
        ParameterType::at(index).is_some() <==> 0 <= index < ParameterType::COUNT,
{
}

/// Going from a place to its control and back gives the place again.
pub proof fn lemma_place_round_trip(index: i32)
    requires
        ParameterType::at(index).is_some(),
    ensures
        ParameterType::at(index).unwrap().index() == index,
{
}

/// Going from a control to its place and back gives the control again, so no
/// two controls share a place.
pub proof fn lemma_control_round_trip(parameter: ParameterType)
    ensures
        ParameterType::at(parameter.index()) == Some(parameter),
{
}

} // verus!
