use std::io::Read;
use test_utils::context::{digest_string, path_is_less, registry_file, select_files, ContextFile, ImageContext};
use test_utils::error::ErrorKind;
use test_utils::hex::HexSlice;

fn file(path: &str, data: &[u8]) -> ContextFile {
    ContextFile { path: path.to_string(), mode: 0o644, mtime: 1_700_000_000, data: data.to_vec() }
}

fn entries(archive: &[u8]) -> Vec<(String, Vec<u8>, u32)> {
    let mut out = Vec::new();
    let mut a = tar::Archive::new(flate2::read::GzDecoder::new(archive));
    for e in a.entries().unwrap() {
        let mut e = e.unwrap();
        let path = e.path().unwrap().to_string_lossy().to_string();
        let mode = e.header().mode().unwrap();
        let mut data = Vec::new();
        e.read_to_end(&mut data).unwrap();
        out.push((path, data, mode));
    }
    out
}

#[test]
fn hex_slice_is_lower_case_two_digits_per_byte() {
    assert_eq!(HexSlice(&[0x00, 0xff, 0x1a, 0x09]).to_string(), "00ff1a09");
    assert_eq!(HexSlice(&[]).to_string(), "");
}

#[test]
fn digest_string_prefixes_algorithm() {
    assert_eq!(digest_string(&[0xab, 0x01]), "sha256:ab01");
}

#[test]
fn digest_is_sha256_of_contents_in_path_order() {
    let ctx = ImageContext::create(vec![file("b.txt", b"c"), file("a.txt", b"ab")]).unwrap();
    assert_eq!(ctx.digest, "sha256:ba7816bf8f01cfea414140de5dae2223b00361a396177a9cb410ff61f20015ad");
    assert_eq!(ctx.digest.len(), 71);
}

#[test]
fn empty_directory_hashes_nothing() {
    let ctx = ImageContext::create(vec![]).unwrap();
    assert_eq!(ctx.digest, "sha256:e3b0c44298fc1c149afbf4c8996fb92427ae41e4649b934ca495991b7852b855");
    assert!(entries(&ctx.archive).is_empty());
}

#[test]
fn digest_is_deterministic_and_order_independent() {
    let a = ImageContext::create(vec![file("x/1", b"one"), file("y", b"two"), file("Dockerfile", b"FROM a")]).unwrap();
    let b = ImageContext::create(vec![file("x/1", b"one"), file("y", b"two"), file("Dockerfile", b"FROM a")]).unwrap();
    let c = ImageContext::create(vec![file("y", b"two"), file("Dockerfile", b"FROM a"), file("x/1", b"one")]).unwrap();
    assert_eq!(a.digest, b.digest);
    assert_eq!(a.digest, c.digest);
    assert_eq!(a.archive, c.archive);
}

#[test]
fn changing_a_byte_changes_the_digest() {
    let a = ImageContext::create(vec![file("f", b"hello"), file("g", b"world")]).unwrap();
    let b = ImageContext::create(vec![file("f", b"hellp"), file("g", b"world")]).unwrap();
    assert_ne!(a.digest, b.digest);
}

#[test]
fn changing_only_metadata_keeps_the_digest() {
    let a = ImageContext::create(vec![file("f", b"hello")]).unwrap();
    let mut f = file("f", b"hello");
    f.mode = 0o755;
    f.mtime = 42;
    let b = ImageContext::create(vec![f]).unwrap();
    assert_eq!(a.digest, b.digest);
}

#[test]
fn registry_file_is_neither_hashed_nor_archived() {
    let with = ImageContext::create(vec![file(".digests", b"img=sha256:00\n"), file("sub/.digests", b"x"), file("Dockerfile", b"FROM a")]).unwrap();
    let without = ImageContext::create(vec![file("Dockerfile", b"FROM a")]).unwrap();
    assert_eq!(with.digest, without.digest);
    let names: Vec<String> = entries(&with.archive).into_iter().map(|e| e.0).collect();
    assert_eq!(names, vec!["Dockerfile".to_string()]);
}

#[test]
fn archive_holds_files_in_path_order_with_mode() {
    let mut f = file("run.sh", b"#!/bin/sh\n");
    f.mode = 0o755;
    let ctx = ImageContext::create(vec![f, file("Dockerfile", b"FROM a"), file("conf/app.toml", b"k=1")]).unwrap();
    let es = entries(&ctx.archive);
    let names: Vec<&str> = es.iter().map(|e| e.0.as_str()).collect();
    assert_eq!(names, vec!["Dockerfile", "conf/app.toml", "run.sh"]);
    assert_eq!(es[2].1, b"#!/bin/sh\n".to_vec());
    assert_eq!(es[2].2 & 0o777, 0o755);
    assert_eq!(ctx.archive[0], 0x1f);
    assert_eq!(ctx.archive[1], 0x8b);
}

#[test]
fn invalid_archive_path_is_a_build_error() {
    let r = ImageContext::create(vec![file("../escape", b"x")]);
    assert_eq!(r.unwrap_err().kind, ErrorKind::Build);
}

#[test]
fn registry_file_matches_last_component_only() {
    assert!(registry_file(".digests"));
    assert!(registry_file("a/b/.digests"));
    assert!(!registry_file("a.digests"));
    assert!(!registry_file(".digests/x"));
    assert!(!registry_file("digests"));
}

#[test]
fn paths_order_lexicographically() {
    assert!(path_is_less("a", "b"));
    assert!(path_is_less("a", "ab"));
    assert!(!path_is_less("ab", "a"));
    assert!(!path_is_less("a", "a"));
    assert!(path_is_less("Z", "a"));
}

#[test]
fn selection_sorts_and_drops_registry_file() {
    let out = select_files(vec![file("c", b""), file(".digests", b""), file("a", b""), file("b", b"")]);
    let names: Vec<&str> = out.iter().map(|f| f.path.as_str()).collect();
    assert_eq!(names, vec!["a", "b", "c"]);
}
