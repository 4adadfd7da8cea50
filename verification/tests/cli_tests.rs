use docker_duplicate_files::cli::Args;
use docker_duplicate_files::error::DedupError;

fn args(output: Option<&str>, stdout: bool) -> Args {
    Args {
        image: None,
        output: output.map(|s| s.to_string()),
        stdout,
        min_size: 1_000_000,
        no_compression: false,
    }
}

#[test]
fn validate_accepts_an_output_file() {
    assert_eq!(args(Some("out.tar"), false).validate(), Ok(()));
}

#[test]
fn validate_accepts_stdout() {
    assert_eq!(args(None, true).validate(), Ok(()));
}

#[test]
fn validate_rejects_no_destination() {
    assert_eq!(args(None, false).validate(), Err(DedupError::MissingOutput));
}
