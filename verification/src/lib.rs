//! Real-time acquisition, buffering and display-windowing engine for a
//! multi-channel streaming signal viewer.
//!
//! Time is measured in integer ticks (microseconds) and sample values in
//! integer micro-units, so that every transform in the engine is exact
//! fixed-point arithmetic. The rendering layer and the stream transport are
//! external collaborators; they convert at the boundary.

pub mod actor;
pub mod baseline;
pub mod buffer;
pub mod labels;
pub mod msg;
pub mod transform;
pub mod units;
pub mod view;
