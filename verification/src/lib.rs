//! A small typed string-templating engine.
//!
//! A template is plain text with placeholders of the form
//! `{{ name[?][: type][ | FUNC]* }}`. Each placeholder is resolved against a
//! table of bindings, piped through named string transforms, checked against
//! its declared primitive type and replaced in place.

pub mod span;
pub mod text;
pub mod grammar;
pub mod data_type;
pub mod literal;
pub mod suggest;
pub mod diagnostic;
pub mod registry;
pub mod transform;
pub mod variable;
pub mod sigma;

pub use crate::data_type::DataType;
pub use crate::diagnostic::{Diagnostic, DiagnosticKind};
pub use crate::sigma::Sigma;
pub use crate::span::Span;
pub use crate::transform::{Function, Transform};
pub use crate::variable::Variable;
