//! A small, universal rich text model.
//!
//! A [`Message`] is a tree of text fragments. Every node carries its own
//! [`MessageStyle`]; what a fragment finally looks like is decided only when
//! the tree is flattened, by laying the styles found on the way from the root
//! to the fragment over one another.

pub mod color;
pub mod debug;
pub mod term;
pub mod text;
pub mod util;

pub use ecolor::Color32;
pub use term::TermStyle;
pub use text::{
    IntoMessage, Message, MessageSource, MessageStyle, MessageView, StyleState, Styleable,
};
pub use util::{FlattenEvent, MessageFlattener, StackFlattener, StackView};
