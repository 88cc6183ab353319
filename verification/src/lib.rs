//! Verified core of the kyute GUI toolkit: the identifier filters, call-site
//! identifiers, the positional cache of composition, layered environments,
//! lenses and change descriptions, the gap buffer, the tree of visual nodes,
//! event routing decisions and the grid placement used by layout.

pub mod application;
pub mod bloom;
pub mod cache;
pub mod call_key;
pub mod component;
pub mod widget;
pub mod drawing;
pub mod env;
pub mod event;
pub mod gap_buffer;
pub mod layout;
pub mod live_literal;
pub mod model;
pub mod node;
pub mod renderer;
pub mod style;
