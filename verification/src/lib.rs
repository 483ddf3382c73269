//! A recursive template-composition engine.
//!
//! Templates are texts with named tokens between two delimiters. A tree of
//! values names, node by node, the template to use and what to put in place
//! of its tokens; rendering the tree gives one string.
//!
//! The engine does no input or output: it is handed the texts of the
//! template files, indexes them, and renders values from what it holds.
//! `render::rendered` states what rendering gives, `index::tokens_of` which
//! tokens a text holds, and `laws` what follows for all engines and values.

pub mod error;
pub mod index;
pub mod laws;
pub mod nest;
pub mod option;
pub mod render;
pub mod text;
pub mod value;

pub use error::TemplateNestError;
pub use index::{index, TemplateIndex, Token};
pub use nest::{TemplateFile, TemplateNest};
pub use option::TemplateNestOption;
pub use value::Value;
