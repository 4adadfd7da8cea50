use docker_duplicate_files::analyzer::assemble::{
    apply_plan, apply_to_layer, blob_path_of, diff_id_of, layer_file_name_of, rewrite_layer,
};
use docker_duplicate_files::analyzer::rewrite::{
    build_archive, link_fields, read_layer, replaces, rewrite_entries,
};
use docker_duplicate_files::analyzer::{Analyzer, DeDupTransaction, Layer, LinkType};
use docker_duplicate_files::archive::TarEntry;
use docker_duplicate_files::error::{DedupError, LayerError};
use docker_duplicate_files::schemas::{ContainerConfig, DockerConfig, HistoryEntry, Manifest, RootFs};
use docker_duplicate_files::sink::{Buffer, ByteSink};

struct Seen {
    path: String,
    header: Vec<u8>,
    content: Vec<u8>,
    link: Option<String>,
    kind: u8,
    mode: u32,
    uid: u64,
    gid: u64,
    mtime: u64,
    size: u64,
}

fn archive_of(files: &[(&str, Vec<u8>)]) -> Vec<u8> {
    let mut builder = tar::Builder::new(Vec::new());
    for (path, content) in files {
        let mut header = tar::Header::new_gnu();
        header.set_size(content.len() as u64);
        header.set_mode(0o755);
        header.set_uid(1000);
        header.set_gid(50);
        header.set_mtime(1_700_000_000);
        header.set_entry_type(tar::EntryType::Regular);
        builder.append_data(&mut header, path, &content[..]).unwrap();
    }
    builder.into_inner().unwrap()
}

fn gzip_of(data: &[u8]) -> Vec<u8> {
    let mut encoder = flate2::write::GzEncoder::new(Vec::new(), flate2::Compression::fast());
    std::io::Write::write_all(&mut encoder, data).unwrap();
    encoder.finish().unwrap()
}

fn gunzip(data: &[u8]) -> Vec<u8> {
    let mut plain = Vec::new();
    std::io::Read::read_to_end(&mut flate2::read::GzDecoder::new(data), &mut plain).unwrap();
    plain
}

fn sha256_hex(data: &[u8]) -> String {
    let digest = <sha2::Sha256 as sha2::Digest>::digest(data);
    digest.iter().map(|b| format!("{:02x}", b)).collect()
}

fn entries_of(archive: &[u8]) -> Vec<Seen> {
    let mut reader = tar::Archive::new(archive);
    let mut seen = Vec::new();
    for item in reader.entries().unwrap() {
        let mut entry = item.unwrap();
        let mut content = Vec::new();
        std::io::Read::read_to_end(&mut entry, &mut content).unwrap();
        seen.push(Seen {
            path: entry.path().unwrap().to_string_lossy().to_string(),
            header: entry.header().as_bytes().to_vec(),
            content,
            link: entry.link_name().unwrap().map(|l| l.to_string_lossy().to_string()),
            kind: entry.header().entry_type().as_byte(),
            mode: entry.header().mode().unwrap(),
            uid: entry.header().uid().unwrap(),
            gid: entry.header().gid().unwrap(),
            mtime: entry.header().mtime().unwrap(),
            size: entry.header().size().unwrap(),
        });
    }
    seen
}

fn layer_of(data: Vec<u8>, layer_index: usize) -> Layer {
    Layer { path: format!("l{}/layer.tar", layer_index), layer_index, hash: "sha256:old".to_string(), data }
}

fn link(layer: usize, target: &str, original: &str, link_type: LinkType) -> DeDupTransaction {
    DeDupTransaction {
        layer,
        original_path: original.to_string(),
        target_path: target.to_string(),
        link_type,
    }
}

fn bare_config(diff_ids: Vec<String>) -> DockerConfig {
    DockerConfig {
        architecture: "arm64".to_string(),
        config: ContainerConfig {
            env: Some(vec!["PATH=/usr/local/bin".to_string()]),
            cmd: Some(vec!["/bin/sh".to_string()]),
            working_dir: Some("/app".to_string()),
            labels: None,
            args_escaped: Some(true),
            entrypoint: None,
            user: None,
            exposed_ports: None,
            volumes: None,
        },
        created: "2025-11-13T17:58:06Z".to_string(),
        history: vec![HistoryEntry {
            created: "2025-10-08T11:10:40Z".to_string(),
            created_by: "CMD [\"/bin/sh\"]".to_string(),
            comment: "buildkit.dockerfile.v0".to_string(),
            empty_layer: true,
            author: None,
        }],
        os: "linux".to_string(),
        rootfs: RootFs { fs_type: "layers".to_string(), diff_ids },
    }
}

fn image_of(layers: Vec<Vec<u8>>, min_size: u64, no_compression: bool) -> Analyzer {
    let names: Vec<String> = (0..layers.len()).map(|i| format!("l{}/layer.tar", i)).collect();
    let ids: Vec<String> = (0..layers.len()).map(|i| format!("sha256:old{}", i)).collect();
    let manifest = Manifest {
        config: "blobs/sha256/config".to_string(),
        repo_tags: vec!["demo:latest".to_string()],
        layers: names,
    };
    Analyzer::load_from_tar(manifest, bare_config(ids), layers, min_size, no_compression).unwrap()
}

fn two_layer_image(min_size: u64, no_compression: bool) -> Analyzer {
    let same = vec![b'X'; 600_000];
    let lower = archive_of(&[("a.txt", same.clone()), ("b.txt", same.clone())]);
    let upper = archive_of(&[("c.txt", same), ("d.txt", vec![b'D'; 500_000])]);
    image_of(vec![lower, gzip_of(&upper)], min_size, no_compression)
}

fn mixed_header(mut header: tar::Header, kind: tar::EntryType, mode: u32, size: u64) -> tar::Header {
    header.set_entry_type(kind);
    header.set_mode(mode);
    header.set_uid(7);
    header.set_gid(8);
    header.set_mtime(1_600_000_000);
    header.set_size(size);
    header
}

fn mixed_archive() -> Vec<u8> {
    let mut builder = tar::Builder::new(Vec::new());
    let mut dir = mixed_header(tar::Header::new_gnu(), tar::EntryType::Directory, 0o755, 0);
    builder.append_data(&mut dir, "usr/", std::io::empty()).unwrap();
    let mut file = mixed_header(tar::Header::new_gnu(), tar::EntryType::Regular, 0o4755, 3);
    builder.append_data(&mut file, "usr/tool", &b"abc"[..]).unwrap();
    let mut soft = mixed_header(tar::Header::new_gnu(), tar::EntryType::Symlink, 0o777, 0);
    builder.append_link(&mut soft, "usr/alias", "tool").unwrap();
    let mut hard = mixed_header(tar::Header::new_ustar(), tar::EntryType::Link, 0o644, 0);
    builder.append_link(&mut hard, "usr/twin", "usr/tool").unwrap();
    builder.into_inner().unwrap()
}

#[test]
fn directories_and_links_are_carried_over_as_they_are() {
    let archive = mixed_archive();
    let entries = read_layer(&layer_of(archive.clone(), 0)).unwrap();
    assert_eq!(entries.iter().map(|e| e.is_file).collect::<Vec<bool>>(), vec![false, true, false, false]);
    let (buffer, _) = rewrite_entries(&entries, &Vec::new(), Buffer::new()).unwrap();
    assert_eq!(buffer.into_inner(), archive);
}

#[test]
fn only_the_replaced_entry_changes_in_a_mixed_archive() {
    let archive = mixed_archive();
    let before = entries_of(&archive);
    let entries = read_layer(&layer_of(archive, 0)).unwrap();
    let links = vec![link(0, "usr/tool", "bin/tool", LinkType::Sym)];
    let (buffer, _) = rewrite_entries(&entries, &links, Buffer::new()).unwrap();
    let after = entries_of(&buffer.into_inner());
    assert_eq!(after.len(), 4);
    assert_eq!(after[0].header, before[0].header);
    assert_eq!(after[1].header, before[2].header);
    assert_eq!(after[2].header, before[3].header);
    assert_eq!(after[3].path, "usr/tool");
    assert_eq!(after[3].link.as_deref(), Some("bin/tool"));
}

#[test]
fn links_are_owned_by_root_dated_at_the_epoch_and_not_executable() {
    let fields = link_fields();
    assert_eq!((fields.uid, fields.gid, fields.mtime), (0, 0, 0));
    assert_eq!(fields.mode & 0o111, 0);
    assert_eq!(fields.mode, 0o666);
    assert_eq!(fields.type_flag, b'2');
    assert_eq!(fields.size, 0);
}

#[test]
fn replaces_looks_at_the_target_paths_only() {
    let links = vec![link(0, "b.txt", "a.txt", LinkType::Hard), link(0, "dir/c", "a.txt", LinkType::Sym)];
    assert!(replaces(&links, &"b.txt".to_string()));
    assert!(replaces(&links, &"dir/c".to_string()));
    assert!(!replaces(&links, &"a.txt".to_string()));
    assert!(!replaces(&links, &"B.txt".to_string()));
    assert!(!replaces(&Vec::new(), &"b.txt".to_string()));
}

#[test]
fn read_layer_gives_the_entries_as_plain_values() {
    let archive = archive_of(&[("a.txt", b"alpha".to_vec()), ("dir/b.txt", b"beta!".to_vec())]);
    let entries = read_layer(&layer_of(archive.clone(), 0)).unwrap();
    assert_eq!(entries.len(), 2);
    assert_eq!(entries[0].path, "a.txt");
    assert_eq!(entries[0].content, b"alpha".to_vec());
    assert_eq!(entries[0].size, 5);
    assert!(entries[0].is_file);
    assert_eq!(&entries[0].header[..], &archive[..512]);
    assert_eq!(entries[1].path, "dir/b.txt");
    assert_eq!(&entries[1].header[..], &archive[1024..1536]);
}

#[test]
fn rewriting_without_links_gives_the_archive_back() {
    let archive = archive_of(&[("a.txt", b"alpha".to_vec()), ("dir/b.txt", vec![7u8; 1000])]);
    let entries = read_layer(&layer_of(archive.clone(), 0)).unwrap();
    let (buffer, hasher) = rewrite_entries(&entries, &Vec::new(), Buffer::new()).unwrap();
    let written = buffer.into_inner();
    assert_eq!(written, archive);
    assert_eq!(docker_duplicate_files::text::bytes_to_hex(&hasher.finalize()), sha256_hex(&archive));
}

#[test]
fn rewriting_drops_targets_keeps_the_rest_and_appends_links() {
    let archive = archive_of(&[
        ("keep/first", vec![1u8; 700]),
        ("drop/me", vec![2u8; 700]),
        ("keep/second", b"short".to_vec()),
        ("drop/too", vec![2u8; 700]),
    ]);
    let before = entries_of(&archive);
    let links = vec![
        link(0, "drop/me", "keep/first", LinkType::Hard),
        link(0, "drop/too", "other/layer/file", LinkType::Sym),
    ];
    let entries = read_layer(&layer_of(archive, 0)).unwrap();
    let (buffer, _) = rewrite_entries(&entries, &links, Buffer::new()).unwrap();
    let written = buffer.into_inner();
    let after = entries_of(&written);

    assert_eq!(after.iter().map(|e| e.path.as_str()).collect::<Vec<&str>>(), vec![
        "keep/first",
        "keep/second",
        "drop/me",
        "drop/too"
    ]);
    assert_eq!(after[0].header, before[0].header);
    assert_eq!(after[0].content, before[0].content);
    assert_eq!(after[1].header, before[2].header);
    assert_eq!(after[1].content, before[2].content);
    assert_eq!((after[0].mode, after[0].uid, after[0].gid, after[0].mtime), (0o755, 1000, 50, 1_700_000_000));

    assert_eq!(after[2].link.as_deref(), Some("keep/first"));
    assert_eq!(after[3].link.as_deref(), Some("other/layer/file"));
    for added in &after[2..] {
        assert_eq!(added.kind, b'2');
        assert_eq!((added.mode, added.uid, added.gid, added.mtime, added.size), (0o666, 0, 0, 0, 0));
        assert!(added.content.is_empty());
    }
}

#[test]
fn the_new_archive_ends_with_two_zero_blocks() {
    let entries = read_layer(&layer_of(archive_of(&[("a", b"x".to_vec())]), 0)).unwrap();
    let (buffer, _) = rewrite_entries(&entries, &vec![link(0, "a", "b", LinkType::Sym)], Buffer::new()).unwrap();
    let written = buffer.into_inner();
    assert_eq!(written.len(), 512 + 1024);
    assert!(written[written.len() - 1024..].iter().all(|b| *b == 0));
    let (empty, _) = rewrite_entries(&Vec::new(), &Vec::new(), Buffer::new()).unwrap();
    assert_eq!(empty.into_inner(), vec![0u8; 1024]);
}

#[test]
fn both_sinks_see_the_same_bytes() {
    let archive = archive_of(&[("a", vec![9u8; 2000]), ("b", vec![9u8; 2000])]);
    let entries = read_layer(&layer_of(archive, 0)).unwrap();
    let mut writer = Buffer::new();
    writer.write(b"already here");
    let (buffer, hasher) =
        rewrite_entries(&entries, &vec![link(0, "b", "a", LinkType::Hard)], writer).unwrap();
    let written = buffer.into_inner();
    assert_eq!(&written[..12], b"already here");
    assert_eq!(docker_duplicate_files::text::bytes_to_hex(&hasher.finalize()), sha256_hex(&written[12..]));
}

#[test]
fn long_names_survive_rewriting() {
    let long = format!("{}/file.bin", "directory-with-a-long-name/".repeat(8));
    let target = format!("{}/copy.bin", "another-directory-with-a-long-name/".repeat(8));
    let archive = archive_of(&[(long.as_str(), vec![3u8; 100]), (target.as_str(), vec![3u8; 100])]);
    let entries = read_layer(&layer_of(archive, 0)).unwrap();
    let (buffer, _) =
        rewrite_entries(&entries, &vec![link(0, &target, &long, LinkType::Hard)], Buffer::new()).unwrap();
    let after = entries_of(&buffer.into_inner());
    assert_eq!(after.len(), 2);
    assert_eq!(after[0].path, long);
    assert_eq!(after[0].content, vec![3u8; 100]);
    assert_eq!(after[1].path, target);
    assert_eq!(after[1].link.as_deref(), Some(long.as_str()));
}

#[test]
fn an_entry_that_cannot_be_written_is_an_error() {
    let odd = TarEntry {
        header: [0u8; 512],
        path: "../outside".to_string(),
        is_file: true,
        size: 1,
        content: b"x".to_vec(),
    };
    assert_eq!(rewrite_entries(&vec![odd], &Vec::new(), Buffer::new()).err(), Some(DedupError::WriteEntry));
}

#[test]
fn a_replaced_entry_is_never_written_so_it_cannot_fail() {
    let odd = TarEntry {
        header: [0u8; 512],
        path: "../outside".to_string(),
        is_file: true,
        size: 1,
        content: b"x".to_vec(),
    };
    let links = vec![link(0, "../outside", "inside", LinkType::Hard)];
    assert_eq!(rewrite_entries(&vec![odd], &links, Buffer::new()).err(), Some(DedupError::WriteLink));
}

#[test]
fn a_link_that_cannot_be_written_is_an_error() {
    let entries = read_layer(&layer_of(archive_of(&[("a", b"x".to_vec())]), 0)).unwrap();
    let links = vec![link(0, "../b", "a", LinkType::Sym)];
    assert_eq!(rewrite_entries(&entries, &links, Buffer::new()).err(), Some(DedupError::WriteLink));
}

#[test]
fn an_unreadable_layer_is_reported_with_its_index() {
    let mut damaged = archive_of(&[("a", b"x".to_vec())]);
    damaged[0] ^= 0xff;
    assert_eq!(
        build_archive(&layer_of(damaged.clone(), 4), &Vec::new(), Buffer::new()).err(),
        Some(DedupError::Layer { layer_index: 4, cause: LayerError::Archive })
    );
    let analyzer = image_of(Vec::new(), 0, true);
    assert_eq!(
        analyzer.build_layer_tar(&layer_of(vec![1], 2), &Vec::new(), Buffer::new()).err(),
        Some(DedupError::Layer { layer_index: 2, cause: LayerError::Truncated })
    );
    assert_eq!(
        analyzer.process_layer(&layer_of(damaged, 6), &Vec::new()).err(),
        Some(DedupError::Layer { layer_index: 6, cause: LayerError::Archive })
    );
}

#[test]
fn build_layer_tar_reads_compressed_layers() {
    let archive = archive_of(&[("a", vec![9u8; 2000]), ("b", vec![9u8; 2000])]);
    let analyzer = image_of(Vec::new(), 0, false);
    let links = vec![link(1, "b", "a", LinkType::Hard)];
    let (plain, _) = analyzer.build_layer_tar(&layer_of(archive.clone(), 1), &links, Buffer::new()).unwrap();
    let (packed, _) = analyzer.build_layer_tar(&layer_of(gzip_of(&archive), 1), &links, Buffer::new()).unwrap();
    assert_eq!(plain.into_inner(), packed.into_inner());
}

#[test]
fn names_and_digest_strings() {
    assert_eq!(layer_file_name_of(0, true), "layer-0.tar");
    assert_eq!(layer_file_name_of(12, false), "layer-12.tar.gz");
    assert_eq!(diff_id_of(&[0xab, 0x01]), "sha256:ab01");
    assert_eq!(
        blob_path_of(b"abc"),
        "blobs/sha256/ba7816bf8f01cfea414140de5dae2223b00361a396177a9cb410ff61f20015ad"
    );
}

#[test]
fn an_uncompressed_layer_is_stored_as_the_archive() {
    let archive = archive_of(&[("a", vec![9u8; 2000]), ("b", vec![9u8; 2000])]);
    let old = layer_of(gzip_of(&archive), 3);
    let new = rewrite_layer(&old, &vec![link(3, "b", "a", LinkType::Hard)], true).unwrap();
    assert_eq!(new.path, "layer-3.tar");
    assert_eq!(new.layer_index, 3);
    assert_eq!(new.hash, format!("sha256:{}", sha256_hex(&new.data)));
    assert_eq!(blob_path_of(&new.data), format!("blobs/sha256/{}", &new.hash[7..]));
    let after = entries_of(&new.data);
    assert_eq!(after.len(), 2);
    assert_eq!(after[1].link.as_deref(), Some("a"));
    assert_eq!(old.hash, "sha256:old");
}

#[test]
fn a_compressed_layer_is_stored_as_gzip_and_named_by_the_archive() {
    let archive = archive_of(&[("a", vec![9u8; 2000]), ("b", vec![9u8; 2000])]);
    let analyzer = image_of(Vec::new(), 0, false);
    let new = analyzer.process_layer(&layer_of(archive, 0), &vec![link(0, "b", "a", LinkType::Hard)]).unwrap();
    assert_eq!(new.path, "layer-0.tar.gz");
    assert_eq!(&new.data[..2], &[0x1f, 0x8b]);
    let plain = gunzip(&new.data);
    assert_eq!(new.hash, format!("sha256:{}", sha256_hex(&plain)));
    assert_ne!(new.hash, format!("sha256:{}", sha256_hex(&new.data)));
    assert_eq!(entries_of(&plain).len(), 2);
}

#[test]
fn layers_without_a_plan_are_carried_over() {
    let first = archive_of(&[("a", vec![9u8; 2000])]);
    let second = gzip_of(&archive_of(&[("b", vec![9u8; 2000])]));
    let layers = vec![layer_of(first.clone(), 0), layer_of(second.clone(), 1)];
    let mut plan = std::collections::HashMap::new();
    plan.insert(1usize, vec![link(1, "b", "a", LinkType::Sym)]);
    let new = apply_plan(layers, &plan, false).unwrap();
    assert_eq!(new.len(), 2);
    assert_eq!(new[0].data, first);
    assert_eq!(new[0].hash, "sha256:old");
    assert_eq!(new[0].path, "l0/layer.tar");
    assert_ne!(new[1].data, second);
    assert_eq!(new[1].path, "layer-1.tar.gz");
    assert_eq!(new[1].layer_index, 1);
}

#[test]
fn a_plan_touches_only_the_layers_it_names() {
    let archive = archive_of(&[("a", vec![9u8; 2000]), ("b", vec![9u8; 2000])]);
    let mut plan = std::collections::HashMap::new();
    plan.insert(5usize, vec![link(5, "b", "a", LinkType::Hard)]);
    let same = apply_to_layer(layer_of(archive.clone(), 4), &plan, true).unwrap();
    assert_eq!((same.path.as_str(), same.layer_index, same.hash.as_str()), ("l4/layer.tar", 4, "sha256:old"));
    assert_eq!(same.data, archive);
    let new = apply_to_layer(layer_of(archive.clone(), 5), &plan, true).unwrap();
    assert_eq!((new.path.as_str(), new.layer_index), ("layer-5.tar", 5));
    assert_ne!(new.data, archive);
    assert_eq!(new.hash, format!("sha256:{}", sha256_hex(&new.data)));
}

#[test]
fn the_first_failing_layer_stops_the_plan() {
    let mut damaged = archive_of(&[("a", b"x".to_vec())]);
    damaged[0] ^= 0xff;
    let layers = vec![layer_of(vec![1], 0), layer_of(damaged, 1), layer_of(vec![2], 2)];
    let mut plan = std::collections::HashMap::new();
    plan.insert(1usize, Vec::new());
    plan.insert(2usize, Vec::new());
    assert_eq!(
        apply_plan(layers, &plan, false).err(),
        Some(DedupError::Layer { layer_index: 1, cause: LayerError::Archive })
    );
}

#[test]
fn the_manifest_names_layers_by_the_digest_of_their_bytes() {
    let manifest = Manifest {
        config: "blobs/sha256/config".to_string(),
        repo_tags: vec!["demo:latest".to_string(), "demo:1".to_string()],
        layers: vec!["l0/layer.tar".to_string()],
    };
    let layers = vec![layer_of(b"abc".to_vec(), 0), layer_of(Vec::new(), 1)];
    let updated = Analyzer::update_manifest(manifest, &layers);
    assert_eq!(updated.config, "blobs/sha256/config");
    assert_eq!(updated.repo_tags, vec!["test:smaller".to_string()]);
    assert_eq!(updated.layers, vec![
        "blobs/sha256/ba7816bf8f01cfea414140de5dae2223b00361a396177a9cb410ff61f20015ad".to_string(),
        "blobs/sha256/e3b0c44298fc1c149afbf4c8996fb92427ae41e4649b934ca495991b7852b855".to_string(),
    ]);
}

#[test]
fn the_config_takes_the_diff_ids_of_the_new_layers() {
    let mut first = layer_of(Vec::new(), 0);
    first.hash = "sha256:aaa".to_string();
    let mut second = layer_of(Vec::new(), 1);
    second.hash = "sha256:bbb".to_string();
    let updated = Analyzer::update_config(bare_config(vec!["sha256:old".to_string()]), &vec![first, second]);
    assert_eq!(updated.rootfs.diff_ids, vec!["sha256:aaa".to_string(), "sha256:bbb".to_string()]);
    assert_eq!(updated.rootfs.fs_type, "layers");
    assert_eq!(updated.architecture, "arm64");
    assert_eq!(updated.os, "linux");
    assert_eq!(updated.created, "2025-11-13T17:58:06Z");
    assert_eq!(updated.history.len(), 1);
    assert_eq!(updated.history[0].comment, "buildkit.dockerfile.v0");
    assert_eq!(updated.config.working_dir.as_deref(), Some("/app"));
    assert_eq!(updated.config.args_escaped, Some(true));
}

#[test]
fn load_takes_only_exported_archives() {
    let manifest = Manifest { config: "c".to_string(), repo_tags: Vec::new(), layers: Vec::new() };
    for name in ["image.tar", "image.tar.gz", "image.tar.xz", ".tar"] {
        let loaded = Analyzer::load(name.to_string(), manifest.clone(), bare_config(Vec::new()), Vec::new(), 5, true);
        assert!(loaded.is_ok());
    }
    for name in ["image", "image.zip", "image.tar.bz2", "tar", "image.TAR", ""] {
        let loaded = Analyzer::load(name.to_string(), manifest.clone(), bare_config(Vec::new()), Vec::new(), 5, true);
        assert_eq!(loaded.err(), Some(DedupError::UnexpectedImage));
    }
}

#[test]
fn loading_lines_the_layers_up_with_the_manifest_and_the_config() {
    let manifest = Manifest {
        config: "c".to_string(),
        repo_tags: Vec::new(),
        layers: vec!["x/layer.tar".to_string(), "y/layer.tar".to_string(), "z/layer.tar".to_string()],
    };
    let config = bare_config(vec!["sha256:one".to_string(), "sha256:two".to_string()]);
    let data = vec![vec![1u8], vec![2u8, 2], vec![3u8, 3, 3]];
    let analyzer = Analyzer::load("image.tar".to_string(), manifest, config, data, 42, true).unwrap();
    assert_eq!(analyzer.min_size, 42);
    assert!(analyzer.no_compression);
    assert_eq!(analyzer.layers.len(), 3);
    let seen: Vec<(&str, usize, &str, usize)> =
        analyzer.layers.iter().map(|l| (l.path.as_str(), l.layer_index, l.hash.as_str(), l.data.len())).collect();
    assert_eq!(seen, vec![
        ("x/layer.tar", 0, "sha256:one", 1),
        ("y/layer.tar", 1, "sha256:two", 2),
        ("z/layer.tar", 2, "", 3),
    ]);
    assert_eq!(analyzer.original_manifest.layers.len(), 3);
    assert_eq!(analyzer.original_config.rootfs.diff_ids.len(), 2);
}

#[test]
fn loading_needs_the_bytes_of_every_layer() {
    let manifest = Manifest {
        config: "c".to_string(),
        repo_tags: Vec::new(),
        layers: vec!["x/layer.tar".to_string()],
    };
    let none = Analyzer::load_from_tar(manifest.clone(), bare_config(Vec::new()), Vec::new(), 1, false);
    assert_eq!(none.err(), Some(DedupError::LayerCountMismatch));
    let two = Analyzer::load("i.tar".to_string(), manifest, bare_config(Vec::new()), vec![vec![1], vec![2]], 1, false);
    assert_eq!(two.err(), Some(DedupError::LayerCountMismatch));
}

#[test]
fn two_layers_with_three_copies_end_to_end() {
    let analyzer = two_layer_image(100_000, false);
    let groups = analyzer.find_duplicates().unwrap();
    assert_eq!(groups.len(), 1);
    assert_eq!(groups[0].original.path, "a.txt");
    assert_eq!(groups[0].original.layer_index, 0);
    let duplicates: Vec<(&str, usize)> =
        groups[0].duplicates.iter().map(|d| (d.path.as_str(), d.layer_index)).collect();
    assert_eq!(duplicates, vec![("b.txt", 0), ("c.txt", 1)]);
    assert_eq!(groups[0].total_savings, 600_000 * 2);

    let plan = analyzer.generate_modification_plan(groups.clone()).unwrap();
    assert_eq!(plan.len(), 2);
    assert_eq!(plan[&0][0].link_type, LinkType::Hard);
    assert_eq!(plan[&1][0].link_type, LinkType::Sym);

    let image = analyzer.create_deduplicated_image(groups).unwrap();
    assert_eq!(image.layers.len(), 2);
    let lower = entries_of(&gunzip(&image.layers[0].data));
    assert_eq!(lower.iter().map(|e| e.path.as_str()).collect::<Vec<&str>>(), vec!["a.txt", "b.txt"]);
    assert_eq!(lower[0].content, vec![b'X'; 600_000]);
    assert_eq!(lower[1].link.as_deref(), Some("a.txt"));
    let upper = entries_of(&gunzip(&image.layers[1].data));
    assert_eq!(upper.iter().map(|e| e.path.as_str()).collect::<Vec<&str>>(), vec!["d.txt", "c.txt"]);
    assert_eq!(upper[0].content, vec![b'D'; 500_000]);
    assert_eq!(upper[1].link.as_deref(), Some("a.txt"));
}

#[test]
fn the_digests_of_the_new_image_agree_with_its_bytes() {
    for no_compression in [false, true] {
        let analyzer = two_layer_image(100_000, no_compression);
        let groups = analyzer.find_duplicates().unwrap();
        let image = analyzer.create_deduplicated_image(groups).unwrap();
        assert_eq!(image.config.rootfs.diff_ids.len(), 2);
        assert_eq!(image.manifest.layers.len(), 2);
        for (i, layer) in image.layers.iter().enumerate() {
            assert_eq!(layer.layer_index, i);
            let plain = if layer.data[..2] == [0x1f, 0x8b] { gunzip(&layer.data) } else { layer.data.clone() };
            assert_eq!(no_compression, layer.data == plain);
            assert_eq!(image.config.rootfs.diff_ids[i], format!("sha256:{}", sha256_hex(&plain)));
            assert_eq!(image.config.rootfs.diff_ids[i], layer.hash);
            assert_eq!(image.manifest.layers[i], format!("blobs/sha256/{}", sha256_hex(&layer.data)));
        }
        assert_eq!(image.manifest.repo_tags, vec!["test:smaller".to_string()]);
        assert_eq!(image.manifest.config, "blobs/sha256/config");
        assert_eq!(image.config.architecture, "arm64");
        assert_eq!(image.config.history.len(), 1);
        assert_eq!(image.config.config.cmd, Some(vec!["/bin/sh".to_string()]));
    }
}

#[test]
fn below_the_threshold_nothing_is_touched() {
    let analyzer = two_layer_image(1_000_000, false);
    let before: Vec<Vec<u8>> = analyzer.layers.iter().map(|l| l.data.clone()).collect();
    let groups = analyzer.find_duplicates().unwrap();
    assert!(groups.is_empty());
    let image = analyzer.create_deduplicated_image(groups).unwrap();
    assert_eq!(image.layers.iter().map(|l| l.data.clone()).collect::<Vec<Vec<u8>>>(), before);
    assert_eq!(image.config.rootfs.diff_ids, vec!["sha256:old0".to_string(), "sha256:old1".to_string()]);
    assert_eq!(image.manifest.layers[0], format!("blobs/sha256/{}", sha256_hex(&before[0])));
}

#[test]
fn a_unique_file_above_the_threshold_stays_as_it_is() {
    let analyzer = two_layer_image(500_000, true);
    let files = analyzer.scan_files().unwrap();
    assert_eq!(files.iter().map(|f| f.path.as_str()).collect::<Vec<&str>>(), vec![
        "a.txt", "b.txt", "c.txt", "d.txt"
    ]);
    let groups = analyzer.find_duplicates().unwrap();
    assert_eq!(groups.len(), 1);
    let image = analyzer.create_deduplicated_image(groups).unwrap();
    let upper = entries_of(&image.layers[1].data);
    assert_eq!(upper[0].path, "d.txt");
    assert_eq!(upper[0].kind, b'0');
    assert_eq!(upper[0].content.len(), 500_000);
}
