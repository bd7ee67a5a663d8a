//! Interpretation of AOI/AXI and repair-station inspection reports.
//!
//! One inspection document describes one panel: a set of boards, each with a
//! serial number, a pass/fail result, and the defect windows recorded for it.
//! The library turns the text of one document into a validated [`model::Panel`]
//! aggregate, or a typed [`model::ParseError`] when the document is malformed.

pub mod boards;
pub mod ext;
pub mod global;
pub mod laws;
pub mod model;
pub mod panel;
pub mod sort;
pub mod status;
pub mod text;
pub mod windows;
pub mod xml;
