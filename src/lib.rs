//! A counter shown on an e-paper panel: bounded text formatting, the panel's
//! two-phase refresh protocol, and the in-memory frame it is drawn from.
pub mod frame;
pub mod refresh;
pub mod render;
pub mod write_to;
