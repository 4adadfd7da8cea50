//! The two documents that describe an image: its manifest and its config.

use std::collections::HashMap;

use vstd::prelude::*;

use crate::error::DedupError;

verus! {

/// A JSON value of the `serde_json` crate; the library only carries it along.
#[verifier::external_type_specification]
#[verifier::external_body]
pub struct ExJsonValue(serde_json::Value);

/// What a sequence of strings holds.
pub open spec fn strings_view(strings: Seq<String>) -> Seq<Seq<char>> {
    strings.map_values(|s: String| s@)
}

/// One image of a manifest file: where its config lies, its tags, and where
/// its layers lie, in the order of the layer chain.
#[derive(Debug, Clone)]
pub struct Manifest {
    pub config: String,
    pub repo_tags: Vec<String>,
    pub layers: Vec<String>,
}

/// A manifest file: a list of images.
pub type ManifestFile = Vec<Manifest>;

/// What a `Manifest` holds.
pub struct ManifestView {
    pub config: Seq<char>,
    pub repo_tags: Seq<Seq<char>>,
    pub layers: Seq<Seq<char>>,
}

impl View for Manifest {
    type V = ManifestView;

    open spec fn view(&self) -> ManifestView {
        ManifestView {
            config: self.config@,
            repo_tags: strings_view(self.repo_tags@),
            layers: strings_view(self.layers@),
        }
    }
}

impl Manifest {
    /// The first image of a manifest file; an empty file is an error.
    pub fn from_records(records: ManifestFile) -> (r: Result<Manifest, DedupError>)
        ensures
            match r {
                Ok(manifest) => records@.len() > 0 && manifest == records@[0],
                Err(e) => records@.len() == 0 && e == DedupError::NoManifest,
            },
    {
        let mut records = records;
        if records.len() == 0 {
            Err(DedupError::NoManifest)
        } else {
            Ok(records.swap_remove(0))
        }
    }
}

/// The config of an image.
#[derive(Debug, Clone)]
pub struct DockerConfig {
    pub architecture: String,
    pub config: ContainerConfig,
    pub created: String,
    pub history: Vec<HistoryEntry>,
    pub os: String,
    pub rootfs: RootFs,
}

/// How a container of the image is started. None of it depends on the layers.
#[derive(Debug, Clone)]
pub struct ContainerConfig {
    pub env: Option<Vec<String>>,
    pub cmd: Option<Vec<String>>,
    pub working_dir: Option<String>,
    pub labels: Option<HashMap<String, String>>,
    pub args_escaped: Option<bool>,
    pub entrypoint: Option<Vec<String>>,
    pub user: Option<String>,
    pub exposed_ports: Option<HashMap<String, serde_json::Value>>,
    pub volumes: Option<HashMap<String, serde_json::Value>>,
}

/// One step of the image's build.
#[derive(Debug, Clone)]
pub struct HistoryEntry {
    pub created: String,
    pub created_by: String,
    pub comment: String,
    pub empty_layer: bool,
    pub author: Option<String>,
}

/// The layer chain as the config sees it: one digest of the uncompressed
/// content for each layer, in the order of the chain.
#[derive(Debug, Clone)]
pub struct RootFs {
    pub fs_type: String,
    pub diff_ids: Vec<String>,
}

} // verus!
