//! Custom keyboard shortcuts: the draft of a new shortcut, the configuration
//! that owns every binding, and the queue of replace decisions between them.

pub mod binding;
pub mod config;
pub mod draft;
pub mod laws;
pub mod model;
pub mod page;
pub mod rows;
pub mod section;
pub mod text;
