//! Export plumbing for typed Tauri bindings: the files an exporter writes,
//! the plugin-qualified names of commands and events, the error-handling mode
//! of the generated bindings, and transparent JSON wrapper types.
pub mod error_mode;
pub mod events;
pub mod export;
pub mod integrations;
pub mod name_order;
pub mod prefix;

pub use error_mode::ErrorHandlingMode;
pub use events::EventNames;
pub use export::ExportFiles;
pub use integrations::array::SJson;
pub use integrations::sqlx::SqlxJson;
pub use prefix::{apply_as_prefix, ItemType};
