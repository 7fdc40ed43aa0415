//! Resolves template names against an index of ignore-pattern templates and
//! renders the matching templates into one ignore file.

pub mod distance;
pub mod entry;
pub mod error;
pub mod generate;
pub mod index;
pub mod listing;

pub use distance::{edit_distance, find_closest, MAX_COMPARED_LEN, MAX_SUGGESTION_DISTANCE};
pub use entry::{is_pruned_dir, IgnoreTemplate, TemplateEntry, TemplateEntryView};
pub use error::TemplateError;
pub use index::TemplateIndex;
pub use generate::{bodies_to_read, generate_gitignore, trim_newlines_of};
pub use listing::prefix_is_one_of;
