use base64::Engine;
use cfdrop::manifest::{
    asset_hash, build_manifest_from, extension_of, is_hidden, manifest_path, total_size, ManifestError, SourceFile,
    MAX_FILES, MAX_FILE_SIZE,
};
use sha2::{Digest, Sha256};

fn file(rel: &str, content: &[u8]) -> SourceFile {
    SourceFile {
        rel: rel.split('/').map(|s| s.to_string()).collect(),
        disk_path: format!("/src/{rel}"),
        content: content.to_vec(),
    }
}

#[test]
fn hash_matches_reference_scheme() {
    let h = asset_hash("aGVsbG8=", "html");
    let mut hasher = Sha256::new();
    hasher.update(b"aGVsbG8=html");
    let expect: String = hasher.finalize().iter().map(|b| format!("{b:02x}")).collect();
    assert_eq!(h, expect[..32]);
    assert_eq!(h.len(), 32);
}

#[test]
fn walks_nested_dirs_and_skips_hidden() {
    let files = vec![
        file("index.html", b"<h1>hi</h1>"),
        file("css/site.css", b"body{}"),
        file(".git/config", b"x"),
        file(".DS_Store", b"x"),
    ];
    let entries = build_manifest_from(&files, "/src").unwrap();
    let paths: Vec<&str> = entries.iter().map(|e| e.manifest_path.as_str()).collect();
    assert_eq!(paths, vec!["/css/site.css", "/index.html"]);
}

#[test]
fn rejects_empty_dir() {
    let err = build_manifest_from(&[], "/src").unwrap_err();
    assert_eq!(err, ManifestError::Empty { dir: "/src".into() });
    assert_eq!(err.message(), "no deployable files found in /src");
}

#[test]
fn no_extension_file_hashes_without_extension() {
    let entries = build_manifest_from(&[file("LICENSE", b"MIT")], "/src").unwrap();
    assert_eq!(entries.len(), 1);
    let b64 = base64::engine::general_purpose::STANDARD.encode(b"MIT");
    assert_eq!(entries[0].hash, asset_hash(&b64, ""));
}

#[test]
fn entry_carries_content_size_and_paths() {
    let entries = build_manifest_from(&[file("a/b.txt", b"hello")], "/src").unwrap();
    let e = &entries[0];
    assert_eq!(e.manifest_path, "/a/b.txt");
    assert_eq!(e.disk_path, "/src/a/b.txt");
    assert_eq!(e.size, 5);
    assert_eq!(e.content_b64, "aGVsbG8=");
    assert_eq!(e.hash, asset_hash("aGVsbG8=", "txt"));
}

#[test]
fn oversized_file_is_refused() {
    let big = vec![0u8; (MAX_FILE_SIZE + 1) as usize];
    let files = vec![file("ok.txt", b"x"), file("big.bin", &big), file(".hidden", &big)];
    let err = build_manifest_from(&files, "/src").unwrap_err();
    assert_eq!(err, ManifestError::TooLarge { path: "/src/big.bin".into(), size: MAX_FILE_SIZE + 1 });
    assert_eq!(err.message(), "/src/big.bin is 5242881 bytes; temporary accounts cap each asset at 5 MiB");
    // a hidden oversized file is simply skipped
    let files = vec![file("ok.txt", b"x"), file(".hidden/big.bin", &big)];
    assert!(build_manifest_from(&files, "/src").is_ok());
}

#[test]
fn too_many_files_are_refused() {
    let files: Vec<SourceFile> = (0..=MAX_FILES).map(|i| file(&format!("f{i:05}.txt"), b"x")).collect();
    let err = build_manifest_from(&files, "/src").unwrap_err();
    assert_eq!(err, ManifestError::TooMany(MAX_FILES + 1));
    assert_eq!(err.message(), "1001 files found; temporary accounts cap deployments at 1000 files");
    assert!(build_manifest_from(&files[..MAX_FILES], "/src").is_ok());
}

#[test]
fn entries_are_sorted_and_unique_by_path() {
    let files = vec![
        file("b.txt", b"1"),
        file("a.txt", b"2"),
        file("c/d.txt", b"3"),
        file("a.txt", b"4"),
    ];
    let entries = build_manifest_from(&files, "/src").unwrap();
    let paths: Vec<&str> = entries.iter().map(|e| e.manifest_path.as_str()).collect();
    assert_eq!(paths, vec!["/a.txt", "/b.txt", "/c/d.txt"]);
    // the later file with the same path wins
    assert_eq!(entries[0].content_b64, base64::engine::general_purpose::STANDARD.encode(b"4"));
}

#[test]
fn extensions_follow_path_rules() {
    assert_eq!(extension_of("index.html"), "html");
    assert_eq!(extension_of("archive.tar.gz"), "gz");
    assert_eq!(extension_of("LICENSE"), "");
    assert_eq!(extension_of(".bashrc"), "");
    assert_eq!(extension_of("trailing."), "");
    assert_eq!(extension_of(".."), "");
}

#[test]
fn hidden_and_paths() {
    let rel = |s: &str| -> Vec<String> { s.split('/').map(|x| x.to_string()).collect() };
    assert!(is_hidden(&rel(".git/config")));
    assert!(is_hidden(&rel("a/.b/c")));
    assert!(!is_hidden(&rel("a/b.c")));
    assert_eq!(manifest_path(&rel("a/b\\c.txt")), "/a/b/c.txt");
}

#[test]
fn asset_hash_differs_from_its_input() {
    let h = asset_hash("aGVsbG8=", "html");
    assert_ne!(h, "aGVsbG8=html");
    assert!(h.chars().all(|c| c.is_ascii_hexdigit() && !c.is_ascii_uppercase()));
}

#[test]
fn asset_hashes_are_32_lowercase_hex_digits() {
    for (b64, ext) in [("", ""), ("aGVsbG8=", "html"), ("eA==", "PNG")] {
        let h = asset_hash(b64, ext);
        assert_eq!(h.len(), 32);
        assert!(h.chars().all(|c| c.is_ascii_digit() || ('a'..='f').contains(&c)), "{h}");
    }
}

#[test]
fn accepted_manifest_lists_every_visible_file_once() {
    let files = vec![
        file("z.txt", b"1"),
        file(".git/config", b"x"),
        file("m/n.txt", b"22"),
        file("a.txt", b"333"),
        file("m/.hidden", b"y"),
    ];
    let entries = build_manifest_from(&files, "/src").unwrap();
    let paths: Vec<&str> = entries.iter().map(|e| e.manifest_path.as_str()).collect();
    assert_eq!(paths, vec!["/a.txt", "/m/n.txt", "/z.txt"]);
    assert!(entries.iter().all(|e| e.size <= MAX_FILE_SIZE));
    assert_eq!(total_size(&entries), 6);
}

#[test]
fn total_size_sums_the_sizes() {
    assert_eq!(total_size(&[]), 0);
    let files = vec![file("a", &[0u8; 10]), file("b", &[1u8; 1024])];
    let entries = build_manifest_from(&files, "/src").unwrap();
    assert_eq!(total_size(&entries), 1034);
}

#[test]
fn one_entry_per_visible_file_up_to_the_limits() {
    let mut files: Vec<SourceFile> = (0..MAX_FILES).map(|i| file(&format!("d/f{i:05}.txt"), b"x")).collect();
    files.push(file(".hidden/big.bin", &vec![0u8; (MAX_FILE_SIZE + 1) as usize]));
    let entries = build_manifest_from(&files, "/src").unwrap();
    assert_eq!(entries.len(), MAX_FILES);
    let exact = vec![file("exact.bin", &vec![0u8; MAX_FILE_SIZE as usize])];
    assert_eq!(build_manifest_from(&exact, "/src").unwrap().len(), 1);
}
