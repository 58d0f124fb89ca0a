//! Screen layout and the small pure pieces of the widgets.

pub mod braille;
pub mod chrome;
pub mod layout;
pub mod grid;
pub mod bands;
pub mod expanded;
pub mod footer;
pub mod processes;
pub mod proclist;
pub mod widgets;
pub mod placement;
