//! Settings of the pieces that the viewer is drawn with.

pub mod bordered_container;
