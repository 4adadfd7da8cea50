//! The new layers and the image that is put together from them.

use std::collections::HashMap;

use vstd::prelude::*;
use vstd::string::StringExecFns;

use crate::analyzer::plan::{plan_of, plan_view};
use crate::analyzer::rewrite::{build_archive, rewritten_layer};
use crate::analyzer::{
    Analyzer, DeDupTransaction, DuplicateInfo, Layer, LayerView, TransactionView, group_views,
    layer_views, transaction_views,
};
use crate::digest::{sha256, sha256_digest};
use crate::error::DedupError;
use crate::gzip::{GzipWriter, gzip_encoding};
use crate::schemas::{DockerConfig, Manifest, RootFs, strings_view};
use crate::sink::Buffer;
use crate::text::{bytes_to_hex, decimal, hex, u64_to_string};

verus! {

/// The diff id of an uncompressed archive: its SHA-256 digest in hexadecimal
/// notation, behind the name of the algorithm.
pub open spec fn diff_id(archive: Seq<u8>) -> Seq<char> {
    "sha256:"@ + hex(sha256(archive))
}

/// Where a layer with the given stored bytes lies in the image: under the
/// digest of those bytes.
pub open spec fn blob_path(data: Seq<u8>) -> Seq<char> {
    "blobs/sha256/"@ + hex(sha256(data))
}

/// The name of a rewritten layer.
pub open spec fn layer_file_name(layer_index: usize, no_compression: bool) -> Seq<char> {
    "layer-"@ + decimal(layer_index as nat) + if no_compression {
        ".tar"@
    } else {
        ".tar.gz"@
    }
}

/// The layer that takes the place of `layer` once `links` are applied: its
/// diff id is that of the new archive, and its stored bytes are the new
/// archive, compressed unless compression is off.
pub open spec fn processed_layer(
    layer: LayerView,
    links: Seq<TransactionView>,
    no_compression: bool,
) -> Result<LayerView, DedupError> {
    match rewritten_layer(layer.data, layer.layer_index, links) {
        Err(e) => Err(e),
        Ok(archive) => {
            let stored = if no_compression {
                Some(archive)
            } else {
                gzip_encoding(archive)
            };
            match stored {
                None => Err(DedupError::Compress),
                Some(data) => Ok(
                    LayerView {
                        path: layer_file_name(layer.layer_index, no_compression),
                        layer_index: layer.layer_index,
                        hash: diff_id(archive),
                        data,
                    },
                ),
            }
        },
    }
}

/// The layer that takes the place of `layer` under a plan: the rewritten
/// layer where the plan has transactions for it, else the layer itself.
pub open spec fn new_layer(
    layer: LayerView,
    plan: Map<usize, Seq<TransactionView>>,
    no_compression: bool,
) -> Result<LayerView, DedupError> {
    if plan.contains_key(layer.layer_index) {
        processed_layer(layer, plan[layer.layer_index], no_compression)
    } else {
        Ok(layer)
    }
}

/// The new layer chain, in the order of the old one; the first layer that
/// fails gives the error.
pub open spec fn new_layers(
    layers: Seq<LayerView>,
    plan: Map<usize, Seq<TransactionView>>,
    no_compression: bool,
) -> Result<Seq<LayerView>, DedupError>
    decreases layers.len(),
{
    if layers.len() == 0 {
        Ok(Seq::empty())
    } else {
        match new_layers(layers.drop_last(), plan, no_compression) {
            Err(e) => Err(e),
            Ok(done) => match new_layer(layers.last(), plan, no_compression) {
                Err(e) => Err(e),
                Ok(layer) => Ok(done.push(layer)),
            },
        }
    }
}

/// The tag that every image written by this library carries.
pub open spec fn output_tag() -> Seq<char> {
    "test:smaller"@
}

/// An image that has been put together again: the new layer chain, and the
/// two documents that describe it. Layer `i` is to be stored at the path that
/// the manifest names for it.
pub struct DeduplicatedImage {
    pub manifest: Manifest,
    pub config: DockerConfig,
    pub layers: Vec<Layer>,
}

/// The diff id of an uncompressed archive, from its digest.
pub fn diff_id_of(digest: &[u8]) -> (id: String)
    ensures
        id@ == "sha256:"@ + hex(digest@),
{
    let mut id = String::from_str("sha256:");
    let digits = bytes_to_hex(digest);
    id.append(digits.as_str());
    id
}

/// Where a layer with the given stored bytes lies in the image.
pub fn blob_path_of(data: &[u8]) -> (path: String)
    ensures
        path@ == blob_path(data@),
{
    let mut path = String::from_str("blobs/sha256/");
    let digest = sha256_digest(data);
    let digits = bytes_to_hex(digest.as_slice());
    path.append(digits.as_str());
    path
}

/// The name of a rewritten layer.
pub fn layer_file_name_of(layer_index: usize, no_compression: bool) -> (name: String)
    ensures
        name@ == layer_file_name(layer_index, no_compression),
{
    let mut name = String::from_str("layer-");
    let number = u64_to_string(layer_index as u64);
    name.append(number.as_str());
    if no_compression {
        name.append(".tar");
    } else {
        name.append(".tar.gz");
    }
    name
}

/// If a prefix of the chain fails, the whole chain fails in the same way.
proof fn lemma_new_layers_fail(
    layers: Seq<LayerView>,
    n: int,
    plan: Map<usize, Seq<TransactionView>>,
    no_compression: bool,
)
    requires
        0 <= n <= layers.len(),
        new_layers(layers.take(n), plan, no_compression) is Err,
    ensures
        new_layers(layers, plan, no_compression) == new_layers(layers.take(n), plan, no_compression),
    decreases layers.len() - n,
{
    if n < layers.len() {
        assert(layers.take(n + 1).drop_last() == layers.take(n));
        lemma_new_layers_fail(layers, n + 1, plan, no_compression);
    } else {
        assert(layers.take(n) == layers);
    }
}

/// Rewrites one layer with its transactions. The new layer has the same
/// position in the chain, the diff id of the new archive, and the new archive
/// as its stored bytes, compressed unless compression is off.
pub fn rewrite_layer(layer: &Layer, modifications: &Vec<DeDupTransaction>, no_compression: bool) -> (r:
    Result<Layer, DedupError>)
    ensures
        match r {
            Ok(new) => processed_layer(layer@, transaction_views(modifications@), no_compression)
                == Ok::<LayerView, DedupError>(new@),
            Err(e) => processed_layer(layer@, transaction_views(modifications@), no_compression)
                == Err::<LayerView, DedupError>(e),
        },
{
    let path = layer_file_name_of(layer.layer_index, no_compression);
    if no_compression {
        let (buffer, hasher) = build_archive(layer, modifications, Buffer::new())?;
        let digest = hasher.finalize();
        let hash = diff_id_of(digest.as_slice());
        let data = buffer.into_inner();
        Ok(Layer { path, layer_index: layer.layer_index, hash, data })
    } else {
        let (encoder, hasher) = build_archive(layer, modifications, GzipWriter::new())?;
        let digest = hasher.finalize();
        let hash = diff_id_of(digest.as_slice());
        match encoder.finish() {
            None => Err(DedupError::Compress),
            Some(data) => Ok(Layer { path, layer_index: layer.layer_index, hash, data }),
        }
    }
}

/// Applies a plan to one layer: the layer is rewritten where the plan has
/// transactions for it, and carried over as it is where it has none.
pub fn apply_to_layer(
    layer: Layer,
    plan: &HashMap<usize, Vec<DeDupTransaction>>,
    no_compression: bool,
) -> (r: Result<Layer, DedupError>)
    ensures
        match r {
            Ok(new) => new_layer(layer@, plan_view(plan@), no_compression) == Ok::<
                LayerView,
                DedupError,
            >(new@),
            Err(e) => new_layer(layer@, plan_view(plan@), no_compression) == Err::<
                LayerView,
                DedupError,
            >(e),
        },
{
    broadcast use vstd::std_specs::hash::group_hash_axioms;

    match plan.get(&layer.layer_index) {
        Some(modifications) => {
            assert(plan_view(plan@)[layer.layer_index] == transaction_views(modifications@));
            rewrite_layer(&layer, modifications, no_compression)
        },
        None => Ok(layer),
    }
}

/// Applies a plan to the layer chain: each layer that the plan names is
/// rewritten, every other layer is carried over as it is.
pub fn apply_plan(
    layers: Vec<Layer>,
    plan: &HashMap<usize, Vec<DeDupTransaction>>,
    no_compression: bool,
) -> (r: Result<Vec<Layer>, DedupError>)
    ensures
        match r {
            Ok(new) => new_layers(layer_views(layers@), plan_view(plan@), no_compression) == Ok::<
                Seq<LayerView>,
                DedupError,
            >(layer_views(new@)),
            Err(e) => new_layers(layer_views(layers@), plan_view(plan@), no_compression) == Err::<
                Seq<LayerView>,
                DedupError,
            >(e),
        },
{
    broadcast use vstd::std_specs::hash::group_hash_axioms;

    let ghost all = layer_views(layers@);
    let ghost links = plan_view(plan@);
    let mut rest = layers;
    let mut new: Vec<Layer> = Vec::new();
    let ghost mut i: int = 0;
    proof {
        assert(all.take(0).len() == 0);
        assert(layer_views(new@) =~= Seq::<LayerView>::empty());
        assert(all.skip(0) == all);
    }
    while rest.len() > 0
        invariant
            all == layer_views(layers@),
            0 <= i,
            i + rest@.len() == all.len(),
            layer_views(rest@) == all.skip(i),
            links == plan_view(plan@),
            new_layers(all.take(i), links, no_compression) == Ok::<Seq<LayerView>, DedupError>(
                layer_views(new@),
            ),
        decreases rest@.len(),
    {
        let ghost before = layer_views(new@);
        let ghost remaining = layer_views(rest@);
        let ghost old_rest = rest@;
        let layer = rest.remove(0);
        proof {
            assert(layer@ == remaining[0]);
            assert(layer@ == all[i]);
            assert(rest@ =~= old_rest.skip(1));
            assert(layer_views(rest@) =~= remaining.skip(1));
            assert(all.skip(i).skip(1) =~= all.skip(i + 1));
            assert(all.take(i + 1).drop_last() == all.take(i));
            assert(all.take(i + 1).last() == layer@);
        }
        let next = match apply_to_layer(layer, plan, no_compression) {
            Ok(next) => next,
            Err(e) => {
                proof {
                    lemma_new_layers_fail(all, i + 1, links, no_compression);
                }
                return Err(e);
            },
        };
        new.push(next);
        proof {
            assert(layer_views(new@) =~= before.push(next@));
            i = i + 1;
        }
    }
    proof {
        assert(all.take(i) == all);
    }
    Ok(new)
}

/// The new chain has a layer for each layer of the old chain, at the same
/// position: the layer that its own transactions give.
pub proof fn lemma_new_layers_aligned(
    layers: Seq<LayerView>,
    plan: Map<usize, Seq<TransactionView>>,
    no_compression: bool,
)
    requires
        new_layers(layers, plan, no_compression) is Ok,
    ensures
        new_layers(layers, plan, no_compression)->Ok_0.len() == layers.len(),
        forall|i: int|
            0 <= i < layers.len() ==> new_layer(#[trigger] layers[i], plan, no_compression) == Ok::<
                LayerView,
                DedupError,
            >(new_layers(layers, plan, no_compression)->Ok_0[i]),
    decreases layers.len(),
{
    if layers.len() > 0 {
        let rest = layers.drop_last();
        lemma_new_layers_aligned(rest, plan, no_compression);
        let new = new_layers(layers, plan, no_compression)->Ok_0;
        assert forall|i: int| 0 <= i < layers.len() implies new_layer(
            #[trigger] layers[i],
            plan,
            no_compression,
        ) == Ok::<LayerView, DedupError>(new[i]) by {
            if i < rest.len() {
                assert(layers[i] == rest[i]);
            }
        }
    }
}

/// The digests of a rewritten layer agree with its bytes: its diff id is the
/// digest of the new archive, and its stored bytes are that archive, or what
/// the archive compresses to. Stored uncompressed, the layer lies in the
/// image under the very digest that its diff id gives.
pub proof fn lemma_processed_digests(
    layer: LayerView,
    links: Seq<TransactionView>,
    no_compression: bool,
)
    requires
        processed_layer(layer, links, no_compression) is Ok,
    ensures
        ({
            let new = processed_layer(layer, links, no_compression)->Ok_0;
            let archive = rewritten_layer(layer.data, layer.layer_index, links);
            &&& archive is Ok
            &&& new.layer_index == layer.layer_index
            &&& new.hash == diff_id(archive->Ok_0)
            &&& no_compression ==> new.data == archive->Ok_0 && "sha256:"@ + blob_path(
                new.data,
            ).skip("blobs/sha256/"@.len() as int) == new.hash
            &&& !no_compression ==> gzip_encoding(archive->Ok_0) == Some(new.data)
        }),
{
    let new = processed_layer(layer, links, no_compression)->Ok_0;
    if no_compression {
        let digits = hex(sha256(new.data));
        assert(("blobs/sha256/"@ + digits).skip("blobs/sha256/"@.len() as int) =~= digits);
    }
}

impl Analyzer {
    /// Rewrites one layer with its transactions. The new layer has the same
    /// position in the chain, the diff id of the new archive, and the new
    /// archive as its stored bytes, compressed unless compression is off.
    pub fn process_layer(&self, layer: &Layer, modifications: &Vec<DeDupTransaction>) -> (r: Result<
        Layer,
        DedupError,
    >)
        ensures
            match r {
                Ok(new) => processed_layer(
                    layer@,
                    transaction_views(modifications@),
                    self.no_compression,
                ) == Ok::<LayerView, DedupError>(new@),
                Err(e) => processed_layer(
                    layer@,
                    transaction_views(modifications@),
                    self.no_compression,
                ) == Err::<LayerView, DedupError>(e),
            },
    {
        rewrite_layer(layer, modifications, self.no_compression)
    }

    /// The manifest of the new image: the layers are named by the digests of
    /// their stored bytes, the tags give way to the output tag, and the
    /// config lies where it lay.
    pub fn update_manifest(manifest: Manifest, new_layers: &Vec<Layer>) -> (updated: Manifest)
        ensures
            updated.config == manifest.config,
            strings_view(updated.repo_tags@) == seq![output_tag()],
            strings_view(updated.layers@) == Seq::new(
                new_layers@.len(),
                |i: int| blob_path(new_layers@[i].data@),
            ),
    {
        let mut new_refs: Vec<String> = Vec::new();
        let mut i: usize = 0;
        while i < new_layers.len()
            invariant
                i <= new_layers@.len(),
                strings_view(new_refs@) == Seq::new(
                    i as nat,
                    |k: int| blob_path(new_layers@[k].data@),
                ),
            decreases new_layers@.len() - i,
        {
            let ghost before = strings_view(new_refs@);
            let path = blob_path_of(new_layers[i].data.as_slice());
            new_refs.push(path);
            proof {
                assert(strings_view(new_refs@) =~= before.push(path@));
            }
            i += 1;
        }
        let mut tags: Vec<String> = Vec::new();
        tags.push(String::from_str("test:smaller"));
        proof {
            assert(strings_view(tags@) =~= seq![output_tag()]);
        }
        Manifest { config: manifest.config, repo_tags: tags, layers: new_refs }
    }

    /// The config of the new image: the diff ids are those of the new layers,
    /// in the order of the chain, and everything else is as it was.
    pub fn update_config(config: DockerConfig, new_layers: &Vec<Layer>) -> (updated: DockerConfig)
        ensures
            strings_view(updated.rootfs.diff_ids@) == Seq::new(
                new_layers@.len(),
                |i: int| new_layers@[i].hash@,
            ),
            updated.rootfs.fs_type == config.rootfs.fs_type,
            updated.architecture == config.architecture,
            updated.config == config.config,
            updated.created == config.created,
            updated.history == config.history,
            updated.os == config.os,
    {
        let mut diff_ids: Vec<String> = Vec::new();
        let mut i: usize = 0;
        while i < new_layers.len()
            invariant
                i <= new_layers@.len(),
                strings_view(diff_ids@) == Seq::new(i as nat, |k: int| new_layers@[k].hash@),
            decreases new_layers@.len() - i,
        {
            let ghost before = strings_view(diff_ids@);
            let id = new_layers[i].hash.clone();
            diff_ids.push(id);
            proof {
                assert(strings_view(diff_ids@) =~= before.push(id@));
            }
            i += 1;
        }
        DockerConfig {
            architecture: config.architecture,
            config: config.config,
            created: config.created,
            history: config.history,
            os: config.os,
            rootfs: RootFs { fs_type: config.rootfs.fs_type, diff_ids },
        }
    }

    /// Replaces the duplicates of the given groups by links and puts the
    /// image together again: the new layer chain, a config whose diff ids are
    /// those of the new layers, and a manifest that names each layer by the
    /// digest of its stored bytes.
    pub fn create_deduplicated_image(self, duplicates: Vec<DuplicateInfo>) -> (r: Result<
        DeduplicatedImage,
        DedupError,
    >)
        ensures
            match r {
                Ok(image) => {
                    let chain = new_layers(
                        layer_views(self.layers@),
                        plan_of(group_views(duplicates@)),
                        self.no_compression,
                    );
                    &&& chain == Ok::<Seq<LayerView>, DedupError>(layer_views(image.layers@))
                    &&& strings_view(image.config.rootfs.diff_ids@) == Seq::new(
                        image.layers@.len(),
                        |i: int| image.layers@[i].hash@,
                    )
                    &&& strings_view(image.manifest.layers@) == Seq::new(
                        image.layers@.len(),
                        |i: int| blob_path(image.layers@[i].data@),
                    )
                    &&& strings_view(image.manifest.repo_tags@) == seq![output_tag()]
                    &&& image.manifest.config == self.original_manifest.config
                    &&& image.config.rootfs.fs_type == self.original_config.rootfs.fs_type
                    &&& image.config.architecture == self.original_config.architecture
                    &&& image.config.config == self.original_config.config
                    &&& image.config.created == self.original_config.created
                    &&& image.config.history == self.original_config.history
                    &&& image.config.os == self.original_config.os
                },
                Err(e) => new_layers(
                    layer_views(self.layers@),
                    plan_of(group_views(duplicates@)),
                    self.no_compression,
                ) == Err::<Seq<LayerView>, DedupError>(e),
            },
    {
        let plan = match self.generate_modification_plan(duplicates) {
            Ok(plan) => plan,
            Err(e) => {
                return Err(e);
            },
        };
        let new = apply_plan(self.layers, &plan, self.no_compression)?;
        let config = Self::update_config(self.original_config, &new);
        let manifest = Self::update_manifest(self.original_manifest, &new);
        Ok(DeduplicatedImage { manifest, config, layers: new })
    }
}

} // verus!
