use photo4share::fingerprint::{
    calculate_directory_hash, fingerprint_input_bytes, sort_by_name, FileStamp,
};

fn stamp(name: &str, mtime: u64) -> FileStamp {
    FileStamp { name: name.to_string(), mtime }
}

#[test]
fn input_is_names_and_little_endian_times_in_name_order() {
    let stamps = vec![stamp("b", 2), stamp("a", 0x0102)];
    let bytes = fingerprint_input_bytes(&stamps);
    let mut expected = vec![b'a', 0x02, 0x01, 0, 0, 0, 0, 0, 0];
    expected.extend_from_slice(&[b'b', 2, 0, 0, 0, 0, 0, 0, 0]);
    assert_eq!(bytes, expected);
}

#[test]
fn sort_is_bytewise() {
    let stamps = vec![stamp("b", 1), stamp("B", 1), stamp("ab", 1), stamp("a", 1), stamp("é", 1)];
    let sorted: Vec<String> = sort_by_name(&stamps).into_iter().map(|s| s.name).collect();
    assert_eq!(sorted, vec!["B", "a", "ab", "b", "é"]);
}

#[test]
fn hash_of_nothing_is_blake3_of_empty_input() {
    assert_eq!(
        calculate_directory_hash(&vec![]),
        "af1349b9f5f9a1a6a0404dea36dcc9499bcb25c9adc112b7cc9a93cae41f3262"
    );
}

#[test]
fn hash_matches_blake3_of_input() {
    let stamps = vec![stamp("a.txt", 1_700_000_000), stamp("b.txt", 1_700_000_500)];
    let expected = blake3::hash(&fingerprint_input_bytes(&stamps)).to_hex().to_string();
    let h = calculate_directory_hash(&stamps);
    assert_eq!(h, expected);
    assert_eq!(h.len(), 64);
    assert!(h.chars().all(|c| c.is_ascii_digit() || ('a'..='f').contains(&c)));
}

#[test]
fn hash_ignores_enumeration_order() {
    let a = vec![stamp("a.txt", 10), stamp("b.txt", 20), stamp("c.txt", 30)];
    let b = vec![stamp("c.txt", 30), stamp("a.txt", 10), stamp("b.txt", 20)];
    assert_eq!(calculate_directory_hash(&a), calculate_directory_hash(&b));
}

#[test]
fn hash_changes_with_one_second_of_mtime() {
    let a = vec![stamp("a.txt", 10), stamp("b.txt", 20)];
    let b = vec![stamp("a.txt", 10), stamp("b.txt", 21)];
    assert_ne!(calculate_directory_hash(&a), calculate_directory_hash(&b));
}

#[test]
fn hash_changes_when_a_file_is_added_removed_or_renamed() {
    let base = vec![stamp("a.txt", 10)];
    let added = vec![stamp("a.txt", 10), stamp("b.txt", 10)];
    let renamed = vec![stamp("c.txt", 10)];
    let h = calculate_directory_hash(&base);
    assert_ne!(h, calculate_directory_hash(&added));
    assert_ne!(h, calculate_directory_hash(&renamed));
    assert_ne!(h, calculate_directory_hash(&vec![]));
}
