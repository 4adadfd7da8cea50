use docker_duplicate_files::digest::Sha256Hasher;
use docker_duplicate_files::error::DedupError;
use docker_duplicate_files::gzip::GzipWriter;
use docker_duplicate_files::schemas::Manifest;
use docker_duplicate_files::sha_writer::Sha256Writer;
use docker_duplicate_files::sink::{Buffer, ByteSink};
use docker_duplicate_files::tee_writer::TeeWriter;
use docker_duplicate_files::text::bytes_to_hex;

const ABC_SHA256: &str = "ba7816bf8f01cfea414140de5dae2223b00361a396177a9cb410ff61f20015ad";
const EMPTY_SHA256: &str = "e3b0c44298fc1c149afbf4c8996fb92427ae41e4649b934ca495991b7852b855";

fn manifest_named(config: &str) -> Manifest {
    Manifest {
        config: config.to_string(),
        repo_tags: vec!["demo:latest".to_string()],
        layers: vec!["l0/layer.tar".to_string()],
    }
}

#[test]
fn hex_of_no_bytes_is_empty() {
    assert_eq!(bytes_to_hex(&[]), "");
}

#[test]
fn hex_is_lower_case_with_two_digits_per_byte() {
    assert_eq!(bytes_to_hex(&[0x00, 0x0f, 0xa0, 0xff, 0x1b]), "000fa0ff1b");
}

#[test]
fn hex_keeps_the_order_of_the_bytes() {
    assert_eq!(bytes_to_hex(&[0x12, 0x34]), "1234");
    assert_eq!(bytes_to_hex(&[0x34, 0x12]), "3412");
}

#[test]
fn buffer_stores_writes_in_order() {
    let mut buffer = Buffer::new();
    assert_eq!(buffer.write(b"ab"), 2);
    assert_eq!(buffer.write(b""), 0);
    assert_eq!(buffer.write(b"cde"), 3);
    buffer.flush();
    assert_eq!(buffer.into_inner(), b"abcde".to_vec());
}

#[test]
fn tee_gives_back_what_it_was_made_of() {
    let mut first = Buffer::new();
    first.write(b"one");
    let mut second = Buffer::new();
    second.write(b"two");
    let (a, b) = TeeWriter::new(first, second).into_inner();
    assert_eq!(a.into_inner(), b"one".to_vec());
    assert_eq!(b.into_inner(), b"two".to_vec());
}

#[test]
fn tee_forwards_every_write_to_both_sinks() {
    let mut first = Buffer::new();
    first.write(b">");
    let mut tee = TeeWriter::new(first, Buffer::new());
    assert_eq!(tee.write(b"hello "), 6);
    tee.flush();
    assert_eq!(tee.write(b"world"), 5);
    let (a, b) = tee.into_inner();
    assert_eq!(a.into_inner(), b">hello world".to_vec());
    assert_eq!(b.into_inner(), b"hello world".to_vec());
}

#[test]
fn tee_of_tees_reaches_all_three_sinks() {
    let inner = TeeWriter::new(Buffer::new(), Buffer::new());
    let mut outer = TeeWriter::new(inner, Sha256Writer::new());
    outer.write(b"a");
    outer.write(b"bc");
    let (inner, hasher) = outer.into_inner();
    let (a, b) = inner.into_inner();
    assert_eq!(a.into_inner(), b"abc".to_vec());
    assert_eq!(b.into_inner(), b"abc".to_vec());
    assert_eq!(hasher.finalize_hex(), ABC_SHA256);
}

#[test]
fn sha256_writer_of_nothing() {
    assert_eq!(Sha256Writer::new().finalize_hex(), EMPTY_SHA256);
    assert_eq!(Sha256Writer::default().finalize_hex(), EMPTY_SHA256);
}

#[test]
fn sha256_writer_hashes_what_was_written_in_pieces() {
    let mut writer = Sha256Writer::new();
    assert_eq!(writer.write(b"a"), 1);
    writer.flush();
    assert_eq!(writer.write(b"bc"), 2);
    assert_eq!(writer.finalize_hex(), ABC_SHA256);
}

#[test]
fn sha256_writer_finalize_gives_the_raw_digest() {
    let mut writer = Sha256Writer::new();
    writer.write(b"abc");
    let digest = writer.finalize();
    assert_eq!(digest.len(), 32);
    assert_eq!(bytes_to_hex(&digest), ABC_SHA256);
    assert_eq!(digest[0], 0xba);
    assert_eq!(digest[31], 0xad);
}

#[test]
fn sha256_hasher_agrees_with_the_known_digests() {
    let mut hasher = Sha256Hasher::new();
    hasher.write(b"ab");
    hasher.write(b"c");
    assert_eq!(bytes_to_hex(&hasher.finalize()), ABC_SHA256);
    assert_eq!(bytes_to_hex(&Sha256Hasher::new().finalize()), EMPTY_SHA256);
}

#[test]
fn gzip_writer_output_decodes_to_what_was_written() {
    let mut writer = GzipWriter::new();
    let text = b"compress me, compress me, compress me, compress me".to_vec();
    writer.write(&text[..10]);
    writer.write(&text[10..]);
    let stream = writer.finish().unwrap();
    assert_eq!(&stream[..2], &[0x1f, 0x8b]);
    assert_ne!(stream, text);
    let mut plain = Vec::new();
    std::io::Read::read_to_end(&mut flate2::read::GzDecoder::new(&stream[..]), &mut plain).unwrap();
    assert_eq!(plain, text);
}

#[test]
fn gzip_writer_is_repeatable() {
    let mut first = GzipWriter::new();
    first.write(b"same bytes");
    let mut second = GzipWriter::new();
    second.write(b"same ");
    second.write(b"bytes");
    assert_eq!(first.finish(), second.finish());
}

#[test]
fn manifest_file_gives_its_first_image() {
    let picked = Manifest::from_records(vec![manifest_named("first.json"), manifest_named("second.json")]);
    assert_eq!(picked.unwrap().config, "first.json");
}

#[test]
fn empty_manifest_file_is_an_error() {
    assert_eq!(Manifest::from_records(Vec::new()).err(), Some(DedupError::NoManifest));
}
