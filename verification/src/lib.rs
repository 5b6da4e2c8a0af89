//! Inventory of installed audio plugin binaries (VST2, VST3, AAX, Audio
//! Unit): resolution of the candidate installation roots per format,
//! classification of walked filesystem entries, best-effort metadata
//! extraction, normalization of manufacturer names into one canonical
//! display name per company, and the selection and deletion bookkeeping
//! around the grouped inventory.
//!
//! Everything here works on plain values. The caller reads the
//! environment, walks directories and fetches file contents, then hands
//! the results in; every decision — which entry counts as a plugin, what
//! a record says, how records group and sort, what a deletion attempt
//! leaves behind — is made and verified in this crate.

mod detect;
mod extract;
mod inventory;
mod manager;
mod names;
mod resource;
mod roots;
mod scan;
mod strutil;
mod types;

pub use detect::accepts_entry;
pub use detect::is_potential_vst2_file;
pub use detect::Platform;
pub use extract::parse_aax_plugin;
pub use extract::parse_au_plugin;
pub use extract::parse_vst2_plugin;
pub use extract::parse_vst3_plugin;
pub use extract::first_declared;
pub use extract::info_from_node;
pub use extract::sidecar_from_fields;
pub use extract::MetaInput;
pub use extract::PlistNode;
pub use inventory::build_inventory;
pub use manager::PluginManager;
pub use names::clean_manufacturer_name;
pub use roots::PlatformEnv;
pub use scan::aax_candidate_relpaths;
pub use scan::is_aax_inner_binary;
pub use scan::vst3_nested_relpath;
pub use scan::vst3_sidecar_relpaths;
pub use scan::FsEntry;
pub use scan::PluginScanner;
pub use scan::RootScan;
pub use types::ManufacturerGroup;
pub use types::Plugin;
pub use types::PluginType;
