//! A sidebar for a terminal multiplexer: grouped tab trees, context menus,
//! keyboard and mouse navigation, pipe-driven indicators and small widgets.
pub mod text;
pub mod assoc;
pub mod config;
pub mod colors;
pub mod color_picker;
pub mod click;
pub mod indicators;
pub mod pet;
pub mod menus;
pub mod state;
pub mod grouping;
pub mod widgets;
pub mod workers;
pub mod input;
pub mod render;
pub mod persistence;
pub mod picker;
