//! Presentation core of a terminal browser for a library of table files:
//! selection and sorting state, list labels, detail text with missing-resource
//! warnings, the footer's key bindings, and the split of the screen into regions.

pub mod text;
pub mod item;
pub mod detail;
pub mod selection;
pub mod layout;
pub mod screen;
