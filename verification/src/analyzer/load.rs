//! Loading: an image comes as its two documents and the stored bytes of its
//! layers.

use vstd::prelude::*;

use crate::analyzer::{Analyzer, Layer, LayerView, layer_views};
use crate::error::DedupError;
use crate::schemas::{DockerConfig, Manifest, strings_view};
use crate::text::{ends_with_text, str_ends_with};

verus! {

/// A name that an exported image can have.
pub open spec fn is_image_name(image: Seq<char>) -> bool {
    ends_with_text(image, ".tar"@) || ends_with_text(image, ".tar.gz"@) || ends_with_text(
        image,
        ".tar.xz"@,
    )
}

/// What a sequence of byte vectors holds.
pub open spec fn bytes_views(data: Seq<Vec<u8>>) -> Seq<Seq<u8>> {
    data.map_values(|d: Vec<u8>| d@)
}

/// The layer chain of an image: layer `i` is named as the manifest names it,
/// has the `i`-th diff id of the config, or none where the config has too
/// few, and holds the `i`-th stored bytes.
pub open spec fn loaded_layers(
    names: Seq<Seq<char>>,
    diff_ids: Seq<Seq<char>>,
    data: Seq<Seq<u8>>,
) -> Seq<LayerView> {
    Seq::new(
        names.len(),
        |i: int|
            LayerView {
                path: names[i],
                layer_index: i as usize,
                hash: if i < diff_ids.len() {
                    diff_ids[i]
                } else {
                    Seq::empty()
                },
                data: data[i],
            },
    )
}

/// `analyzer` holds the image that the given parts make up.
pub open spec fn is_loaded(
    analyzer: Analyzer,
    manifest: Manifest,
    config: DockerConfig,
    layer_data: Seq<Vec<u8>>,
    min_size: u64,
    no_compression: bool,
) -> bool {
    &&& layer_views(analyzer.layers@) == loaded_layers(
        strings_view(manifest.layers@),
        strings_view(config.rootfs.diff_ids@),
        bytes_views(layer_data),
    )
    &&& analyzer.min_size == min_size
    &&& analyzer.no_compression == no_compression
    &&& analyzer.original_manifest == manifest
    &&& analyzer.original_config == config
}

/// Whether an exported image can have this name.
pub fn has_image_name(image: &str) -> (named: bool)
    ensures
        named == is_image_name(image@),
{
    str_ends_with(image, ".tar") || str_ends_with(image, ".tar.gz") || str_ends_with(
        image,
        ".tar.xz",
    )
}

impl Analyzer {
    /// Loads the image that is named `image`. A name that no exported image
    /// has is an error; else the image is put together from its parts.
    pub fn load(
        image: String,
        manifest: Manifest,
        config: DockerConfig,
        layer_data: Vec<Vec<u8>>,
        min_size: u64,
        no_compression: bool,
    ) -> (r: Result<Analyzer, DedupError>)
        ensures
            match r {
                Ok(analyzer) => {
                    &&& is_image_name(image@)
                    &&& layer_data@.len() == manifest.layers@.len()
                    &&& is_loaded(analyzer, manifest, config, layer_data@, min_size, no_compression)
                },
                Err(e) => if !is_image_name(image@) {
                    e == DedupError::UnexpectedImage
                } else {
                    e == DedupError::LayerCountMismatch && layer_data@.len() != manifest.layers@.len()
                },
            },
    {
        if has_image_name(image.as_str()) {
            Self::load_from_tar(manifest, config, layer_data, min_size, no_compression)
        } else {
            Err(DedupError::UnexpectedImage)
        }
    }

    /// Puts an image together from its parts: the manifest, the config, and
    /// the stored bytes of each layer that the manifest names, in the order
    /// of the chain. It is an error if there are more or fewer layers than
    /// the manifest names.
    pub fn load_from_tar(
        manifest: Manifest,
        config: DockerConfig,
        layer_data: Vec<Vec<u8>>,
        min_size: u64,
        no_compression: bool,
    ) -> (r: Result<Analyzer, DedupError>)
        ensures
            match r {
                Ok(analyzer) => {
                    &&& layer_data@.len() == manifest.layers@.len()
                    &&& is_loaded(analyzer, manifest, config, layer_data@, min_size, no_compression)
                },
                Err(e) => e == DedupError::LayerCountMismatch && layer_data@.len()
                    != manifest.layers@.len(),
            },
    {
        if layer_data.len() != manifest.layers.len() {
            return Err(DedupError::LayerCountMismatch);
        }
        let ghost names = strings_view(manifest.layers@);
        let ghost diff_ids = strings_view(config.rootfs.diff_ids@);
        let ghost data = bytes_views(layer_data@);
        let ghost expected = loaded_layers(names, diff_ids, data);
        let mut rest = layer_data;
        let mut layers: Vec<Layer> = Vec::new();
        let mut i: usize = 0;
        proof {
            assert(bytes_views(rest@) =~= data.skip(0));
        }
        while i < manifest.layers.len()
            invariant
                i <= manifest.layers@.len(),
                names == strings_view(manifest.layers@),
                diff_ids == strings_view(config.rootfs.diff_ids@),
                expected == loaded_layers(names, diff_ids, data),
                data.len() == names.len(),
                i + rest@.len() == data.len(),
                bytes_views(rest@) == data.skip(i as int),
                layers@.len() == i,
                forall|k: int| 0 <= k < i ==> (#[trigger] layers@[k])@ == expected[k],
            decreases manifest.layers@.len() - i,
        {
            let ghost remaining = bytes_views(rest@);
            let ghost old_rest = rest@;
            let stored = rest.remove(0);
            proof {
                assert(stored@ == remaining[0]);
                assert(rest@ =~= old_rest.skip(1));
                assert(bytes_views(rest@) =~= remaining.skip(1));
                assert(data.skip(i as int).skip(1) =~= data.skip(i + 1));
            }
            let hash = if i < config.rootfs.diff_ids.len() {
                config.rootfs.diff_ids[i].clone()
            } else {
                String::new()
            };
            let layer = Layer { path: manifest.layers[i].clone(), layer_index: i, hash, data: stored };
            proof {
                assert(layer@ == expected[i as int]);
            }
            layers.push(layer);
            i += 1;
        }
        proof {
            assert(layer_views(layers@) =~= expected);
        }
        Ok(
            Analyzer {
                layers,
                min_size,
                no_compression,
                original_manifest: manifest,
                original_config: config,
            },
        )
    }
}

} // verus!
