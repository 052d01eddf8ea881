//! Stateless text utilities: Unicode-aware camel and kebab case, folding of
//! accented Latin letters to ASCII, a bounded suffix test, and two template
//! engines (named `{ key }` and positional `{N}` placeholders).

pub mod chars;
pub mod case;
pub mod diacritics;
pub mod suffix;
pub mod template;

pub use case::{camel_case, kebab_case};
pub use diacritics::replace_extended_ascii;
pub use suffix::ends_with;
pub use template::{template, template_vec, PositionalTemplate, Template};
