//! Layered settings: the settings of a whole application, and for each scope
//! the settings that it overrides. A scope shows its own item where it has
//! one and the application's item where it has none, and takes a copy of the
//! application's item the first time it changes it.
//!
//! Every item can be read from a saved JSON form, written back, shown, and
//! changed by a list of strings. The one item so far is the list of Java
//! installations, each with a [`version::Version`] read from what the
//! installation says of itself.

pub mod decimal;
pub mod java_versions;
pub mod json;
pub mod json_text;
pub mod scan;
pub mod setting;
pub mod setting_laws;
pub mod setting_manager;
pub mod setting_trait;
pub mod text;
pub mod version;
pub mod version_json;
pub mod version_laws;
