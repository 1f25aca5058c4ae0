use filetoolkit::commands::checksum::{batch_verify, compute_checksum, content_hash, eq_ignore_ascii_case, verify_checksum, FileVerifyItem};

#[test]
fn md5_of_empty_input() {
    assert_eq!(compute_checksum(b"", "md5").unwrap(), "d41d8cd98f00b204e9800998ecf8427e");
}

#[test]
fn known_digests_of_abc() {
    assert_eq!(compute_checksum(b"abc", "MD5").unwrap(), "900150983cd24fb0d6963f7d28e17f72");
    assert_eq!(compute_checksum(b"abc", "sha1").unwrap(), "a9993e364706816aba3e25717850c26c9cd0d89d");
    assert_eq!(
        compute_checksum(b"abc", "Sha256").unwrap(),
        "ba7816bf8f01cfea414140de5dae2223b00361a396177a9cb410ff61f20015ad"
    );
    assert_eq!(
        compute_checksum(b"abc", "sha512").unwrap(),
        "ddaf35a193617abacc417349ae20413112e6fa4e89a97ea20a9eeee64b55d39a2192992a274fc1a836ba3c23a3feebbd454d4423643ce80e2a9ac94fa54ca49f"
    );
    assert_eq!(
        compute_checksum(b"abc", "blake3").unwrap(),
        "6437b3ac38465133ffb63b75273a8db548c558465d79db03fd359c6cd5bd9d85"
    );
}

#[test]
fn unknown_algorithm_is_an_error() {
    assert_eq!(compute_checksum(b"abc", "crc32"), Err("不支持的算法".to_string()));
    assert_eq!(verify_checksum(b"abc", "x", "sha3"), Err("不支持的算法".to_string()));
}

#[test]
fn verification_ignores_ascii_case() {
    assert_eq!(verify_checksum(b"abc", "900150983CD24FB0D6963F7D28E17F72", "md5"), Ok(true));
    assert_eq!(verify_checksum(b"abd", "900150983cd24fb0d6963f7d28e17f72", "md5"), Ok(false));
    assert!(eq_ignore_ascii_case("AbC", "aBc"));
    assert!(!eq_ignore_ascii_case("abc", "abcd"));
    assert!(!eq_ignore_ascii_case("Ä", "ä"));
}

#[test]
fn content_hash_is_blake3_hex() {
    assert_eq!(content_hash(b"abc"), "6437b3ac38465133ffb63b75273a8db548c558465d79db03fd359c6cd5bd9d85");
    assert_ne!(content_hash(b"abc"), content_hash(b"abd"));
}

fn item(path: &str, expected: &str, algorithm: &str) -> FileVerifyItem {
    FileVerifyItem { path: path.into(), expected: expected.into(), algorithm: algorithm.into() }
}

#[test]
fn batch_reports_each_file_or_the_first_error() {
    let items = vec![item("a", "900150983cd24fb0d6963f7d28e17f72", "md5"), item("b", "00", "md5")];
    let reads = vec![Ok(b"abc".to_vec()), Ok(b"abc".to_vec())];
    assert_eq!(batch_verify(&items, &reads), Ok(vec![("a".to_string(), true), ("b".to_string(), false)]));

    let items = vec![item("a", "00", "md4"), item("b", "00", "md5")];
    let reads = vec![Ok(b"abc".to_vec()), Err("missing".to_string())];
    assert_eq!(batch_verify(&items, &reads), Err("不支持的算法".to_string()));

    let items = vec![item("a", "00", "md5"), item("b", "00", "md5")];
    let reads = vec![Ok(b"abc".to_vec()), Err("missing".to_string())];
    assert_eq!(batch_verify(&items, &reads), Err("missing".to_string()));
}

#[test]
fn checksum_lengths_follow_the_algorithm() {
    let lens: Vec<usize> = ["MD5", "sha1", "Sha256", "sha512", "blake3"]
        .iter()
        .map(|a| compute_checksum(b"abc", a).unwrap().len())
        .collect();
    assert_eq!(lens, vec![32, 40, 64, 128, 64]);
}
