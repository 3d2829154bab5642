//! The pet widget's animation and lines; its needs, which change by
//! fractions, are kept by the host.
pub mod animation;
pub mod render;
pub mod state;
