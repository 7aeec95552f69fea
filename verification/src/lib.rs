//! The JSON Canvas document model and the operations on it: validation,
//! mutation, content revisions and fresh ids, plus the decisions that the
//! server and the formatter make around them.

pub mod api;
pub mod cli;
pub mod error;
pub mod laws;
pub mod model;
pub mod mutate;
pub mod rev;
pub mod store;
pub mod text;
pub mod validate;

pub use error::{MutationError, ValidationError};
pub use model::{Canvas, CanvasView, Edge, End, Extra, Node, NodeKind, Side};
pub use rev::{fresh_id, rev, short_hex, try_fresh_id};
pub use store::{validate_id, StoreError};
pub use validate::validate;
