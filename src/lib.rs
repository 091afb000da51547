//! Pane tiling, window switching and clipboard history for a desktop
//! keyboard daemon: the layout engine, its exact fraction arithmetic, the
//! most-recently-used window registry and the modal sessions that drive them.
pub mod text;
pub mod fraction;
pub mod model;
pub mod conditions;
pub mod flatten;
pub mod order;
pub mod form;
pub mod display;
pub mod mru;
pub mod session;
pub mod keymap;
pub mod keystate;
pub mod validate;
pub mod xml;
pub mod parse;
pub mod config;
pub mod laws;
pub mod pipeline;
pub mod mutator;
