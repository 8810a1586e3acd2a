//! The in-memory record of one discovered project.

use vstd::prelude::*;

use crate::manifest::ProjectConfig;
use crate::script::JsConfig;

verus! {

/// One discovered project: its manifest path and parsed manifest, the
/// optional companion script file and its extracted fields, the
/// qualifying preview images, and the editing flags.
pub struct ProjectItem {
    /// The manifest file path.
    pub path: String,
    /// The parsed manifest.
    pub config: ProjectConfig,
    /// The companion script file path, when one was accepted.
    pub js_path: Option<String>,
    /// The fields extracted from the companion script.
    pub js_config: Option<JsConfig>,
    /// Paths of preview images of the required width.
    pub image_paths: Vec<String>,
    /// There are in-memory edits not yet written to disk.
    pub is_modified: bool,
    /// The record takes part in batch operations.
    pub selected: bool,
}

} // verus!
