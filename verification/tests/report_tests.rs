use docker_duplicate_files::analyzer::group::{group_duplicates, total_savings};
use docker_duplicate_files::analyzer::{Analyzer, DuplicateInfo, FileInfo};
use docker_duplicate_files::error::DedupError;
use docker_duplicate_files::schemas::{ContainerConfig, DockerConfig, HistoryEntry, Manifest, RootFs};

fn record(path: &str, size: u64, hash: &str, layer_index: usize) -> FileInfo {
    FileInfo { path: path.to_string(), size, hash: hash.to_string(), layer_index }
}

fn reporter() -> Analyzer {
    let manifest = Manifest { config: "config.json".to_string(), repo_tags: Vec::new(), layers: Vec::new() };
    let config = DockerConfig {
        architecture: String::new(),
        config: ContainerConfig {
            env: None,
            cmd: None,
            working_dir: None,
            labels: None,
            args_escaped: None,
            entrypoint: None,
            user: None,
            exposed_ports: None,
            volumes: None,
        },
        created: String::new(),
        history: Vec::new(),
        os: String::new(),
        rootfs: RootFs { fs_type: String::new(), diff_ids: Vec::new() },
    };
    Analyzer::load_from_tar(manifest, config, Vec::new(), 0, false).unwrap()
}

fn huge_group(path: &str) -> DuplicateInfo {
    DuplicateInfo {
        original: record(path, u64::MAX, "h", 0),
        duplicates: vec![record("copy", u64::MAX, "h", 1)],
        total_savings: u64::MAX,
    }
}

fn text_of(value: &serde_json::Value, key: &str) -> String {
    value[key].as_str().unwrap().to_string()
}

fn texts_of(value: &serde_json::Value) -> Option<Vec<String>> {
    value.as_array().map(|items| items.iter().map(|i| i.as_str().unwrap().to_string()).collect())
}

#[test]
fn the_total_is_the_sum_of_the_savings() {
    let files = vec![
        record("a", 600_000, "1", 0),
        record("b", 600_000, "1", 0),
        record("c", 600_000, "1", 1),
        record("d", 7, "2", 0),
        record("e", 7, "2", 1),
    ];
    let groups = group_duplicates(files).unwrap();
    assert_eq!(total_savings(&groups), Some(1_200_007));
    assert_eq!(total_savings(&Vec::new()), Some(0));
}

#[test]
fn a_total_beyond_64_bits_is_none() {
    assert_eq!(total_savings(&vec![huge_group("a")]), Some(u64::MAX));
    assert_eq!(total_savings(&vec![huge_group("a"), huge_group("b")]), None);
    let mut small = huge_group("c");
    small.total_savings = 1;
    assert_eq!(total_savings(&vec![huge_group("a"), small]), None);
}

#[test]
fn the_report_lists_every_group() {
    let files = vec![
        record("a.txt", 600_000, "1", 0),
        record("b.txt", 600_000, "1", 0),
        record("c.txt", 600_000, "1", 1),
        record("lib/x.so", 2048, "2", 3),
        record("lib/y.so", 2048, "2", 12),
    ];
    let groups = group_duplicates(files).unwrap();
    let lines = reporter().print_possible_savings(&groups).unwrap();
    assert_eq!(lines, vec![
        "=============================".to_string(),
        "Total duplicate files: 2".to_string(),
        "Total duplicate size: 1.15 MiB".to_string(),
        "=============================".to_string(),
        "Duplicate files:".to_string(),
        "\tOriginal: a.txt, layer: 0 size: 585.94 KiB".to_string(),
        "\tDuplicate: b.txt, layer: 0".to_string(),
        "\tDuplicate: c.txt, layer: 1".to_string(),
        "\tOriginal: lib/x.so, layer: 3 size: 2 KiB".to_string(),
        "\tDuplicate: lib/y.so, layer: 12".to_string(),
        "=============================".to_string(),
    ]);
    assert_eq!(lines[2], format!("Total duplicate size: {}", humansize::format_size(1_202_048u64, humansize::BINARY)));
}

#[test]
fn the_report_on_nothing() {
    assert_eq!(reporter().print_possible_savings(&Vec::new()).unwrap(), vec![
        "=============================".to_string(),
        "Total duplicate files: 0".to_string(),
        "Total duplicate size: 0 B".to_string(),
        "=============================".to_string(),
        "Duplicate files:".to_string(),
        "=============================".to_string(),
    ]);
}

#[test]
fn no_report_on_savings_beyond_64_bits() {
    let groups = vec![huge_group("a"), huge_group("b")];
    assert_eq!(reporter().print_possible_savings(&groups).err(), Some(DedupError::SavingsOverflow));
}

#[test]
fn test_parse_docker_config() {
    let json = r#"{
            "architecture": "arm64",
            "config": {
                "Env": ["PATH=/usr/local/bin"],
                "Cmd": ["/bin/sh"],
                "WorkingDir": "/app",
                "Labels": {
                    "maintainer": "test@example.com"
                },
                "ArgsEscaped": true
            },
            "created": "2025-11-13T17:58:06.296708481-05:00",
            "history": [
                {
                    "created": "2025-10-08T11:10:40Z",
                    "created_by": "CMD [\"/bin/sh\"]",
                    "comment": "buildkit.dockerfile.v0",
                    "empty_layer": true
                }
            ],
            "os": "linux",
            "rootfs": {
                "type": "layers",
                "diff_ids": [
                    "sha256:8ff721756ec0097ba331876f1502858f8849716bdf720516fafa96c72a8d7dac"
                ]
            }
        }"#;

    let value: serde_json::Value = serde_json::from_str(json).unwrap();
    let config = DockerConfig {
        architecture: text_of(&value, "architecture"),
        config: ContainerConfig {
            env: texts_of(&value["config"]["Env"]),
            cmd: texts_of(&value["config"]["Cmd"]),
            working_dir: value["config"]["WorkingDir"].as_str().map(|s| s.to_string()),
            labels: value["config"]["Labels"].as_object().map(|labels| {
                labels.iter().map(|(k, v)| (k.clone(), v.as_str().unwrap().to_string())).collect()
            }),
            args_escaped: value["config"]["ArgsEscaped"].as_bool(),
            entrypoint: texts_of(&value["config"]["Entrypoint"]),
            user: value["config"]["User"].as_str().map(|s| s.to_string()),
            exposed_ports: None,
            volumes: None,
        },
        created: text_of(&value, "created"),
        history: value["history"]
            .as_array()
            .unwrap()
            .iter()
            .map(|entry| HistoryEntry {
                created: text_of(entry, "created"),
                created_by: text_of(entry, "created_by"),
                comment: entry["comment"].as_str().unwrap_or("").to_string(),
                empty_layer: entry["empty_layer"].as_bool().unwrap_or(false),
                author: entry["author"].as_str().map(|s| s.to_string()),
            })
            .collect(),
        os: text_of(&value, "os"),
        rootfs: RootFs {
            fs_type: text_of(&value["rootfs"], "type"),
            diff_ids: texts_of(&value["rootfs"]["diff_ids"]).unwrap(),
        },
    };
    assert_eq!(config.architecture, "arm64");
    assert_eq!(config.os, "linux");
    assert_eq!(config.rootfs.fs_type, "layers");
    assert_eq!(config.rootfs.diff_ids.len(), 1);
    assert_eq!(config.history[0].comment, "buildkit.dockerfile.v0");
    assert_eq!(config.config.labels.unwrap()["maintainer"], "test@example.com");
}
