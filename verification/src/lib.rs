//! The controls and the audio loop of a stereo sliding-window median effect,
//! verified with Verus.
//!
//! Samples and values of controls are single-precision numbers. The library
//! holds each of them as its IEEE 754 bit pattern in a `u32`, so that
//! whatever it decides or computes of a number is a statement about
//! integers: [`binary32`] says what a pattern means, [`rounding`] and
//! [`arithmetic`] compute on patterns as a floating-point unit does, and
//! [`text`] writes them out.
//!
//! [`parameter`] holds the table of controls and [`storage`] their values,
//! with the operations a host asks for by place. [`plugin`] is the audio
//! loop; it runs each channel through a filter of the `median` crate, which
//! [`engine`] wraps, and [`window`] says what such a filter holds and gives.
//!
//! The library neither shares state between threads nor calls a host. A
//! caller that does both hands it what the shared cells hold, and takes from
//! it the steps that a change asks of the host.

pub mod arithmetic;
pub mod binary32;
pub mod engine;
pub mod parameter;
pub mod plugin;
pub mod rounding;
pub mod storage;
pub mod text;
pub mod window;

pub use crate::parameter::ParameterDescriptor;
pub use crate::parameter::ParameterType;
pub use crate::plugin::MedianFilter;
pub use crate::plugin::StereoOutput;
pub use crate::plugin::UnitInfo;
pub use crate::storage::HostAction;
pub use crate::storage::Parameters;
pub use crate::storage::RawParameters;
