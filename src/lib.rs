//! Card store editing: a greedy grid packer for card previews, the card and
//! schema data model, and the editing session state machine.

pub mod text;
pub mod shape;
pub mod arrange;
pub mod json;
pub mod data;
pub mod session;
pub mod config;
