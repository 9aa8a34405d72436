//! An interactive picker for the script commands of a project manifest.
//!
//! The library holds the whole interactive core: the script store read out
//! of the manifest's `scripts` object, the live search query with its
//! cursor, the filtered and selectable list of matching scripts, and the
//! step function that turns one keyboard event into the next state. Each
//! piece carries its contract; the terminal and file plumbing around it
//! stays outside.

mod input;
mod manifest;
mod render;
mod scripts;
mod table;
mod text;

pub use input::ScriptInput;
pub use manifest::ManifestLoad;
pub use manifest::Package;
pub use manifest::parse_manifest;
pub use manifest::read_scripts;
pub use render::Key;
pub use render::Render;
pub use render::StepResult;
pub use scripts::Scripts;
pub use table::ScriptTable;
pub use text::contains_str;
