//! Schemas of Cap'n Proto messages as data, and paths into the messages.
//!
//! A schema comes as the nodes of a code-generator request, copied into plain
//! values ([`raw`]). The library decodes them into an owned model ([`objs`]),
//! finds them by id and assembles the tree of what each file contains
//! ([`schema`]), leads a path from a node to the place of a field
//! ([`message`]), and walks such a path in a message under construction.

pub mod arena;
pub mod error;
pub mod message;
pub mod objs;
pub mod order;
pub mod raw;
pub mod schema;
pub mod segments;

pub use crate::error::Error;
pub use crate::schema::{ArenaItem, Definition, NodeArena, NodeInner, NodePy};
