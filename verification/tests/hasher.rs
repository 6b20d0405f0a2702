use photo_dupe_resolver::hasher::{content_hash, perceptual_hash, to_lower_hex, HashAction, HashRun};

#[test]
fn test_compute_content_hash() {
    let hash = content_hash(b"test data");
    assert!(!hash.is_empty());
    assert_eq!(hash.len(), 64);
    assert_eq!(hash, "916f0027a575074ce72a331777c3478d6513f786a591bd892da1a577bf2335f9");
}

#[test]
fn test_compute_perceptual_hash() {
    let hash = perceptual_hash(b"test data");
    assert!(!hash.is_empty());
    assert_eq!(hash.len(), 64);
}

#[test]
fn test_same_content_produces_same_hash() {
    let hash1 = content_hash(b"test data");
    let hash2 = content_hash(b"test data");
    assert_eq!(hash1, hash2);
    assert_eq!(perceptual_hash(b"test data"), perceptual_hash(b"test data"));
}

#[test]
fn content_hash_known_values() {
    assert_eq!(content_hash(b"abc"), "ba7816bf8f01cfea414140de5dae2223b00361a396177a9cb410ff61f20015ad");
    assert_eq!(content_hash(b""), "e3b0c44298fc1c149afbf4c8996fb92427ae41e4649b934ca495991b7852b855");
}

#[test]
fn different_content_different_hash() {
    assert_ne!(content_hash(b"test data"), content_hash(b"test datb"));
}

#[test]
fn perceptual_hash_known_values() {
    // SHA-256 of "abc" + "abc" + the length as eight little-endian bytes.
    assert_eq!(perceptual_hash(b"abc"), "33a862ec9da466e5b9c71889beca4ad1b684887511aeb0fd604dc3627a3a15d2");
    assert_eq!(perceptual_hash(b""), "af5570f5a1810b7af78caf4bc70a660f0df51e42baf91d4de5b2328de0e83dfc");
    let data: Vec<u8> = (0..2048u32).map(|i| (i % 256) as u8).collect();
    assert_eq!(perceptual_hash(&data), "a88f38a790979d7d8288542c6598fe83e5739606667dcf57f2dbdc23602e6f53");
}

#[test]
fn perceptual_hash_ignores_the_middle() {
    let mut a = vec![7u8; 5000];
    let b = a.clone();
    a[2500] = 9;
    assert_eq!(perceptual_hash(&a), perceptual_hash(&b));
    assert_ne!(content_hash(&a), content_hash(&b));
    let mut c = b.clone();
    c[10] = 1;
    assert_ne!(perceptual_hash(&c), perceptual_hash(&b));
}

#[test]
fn hex_is_lowercase_two_digits_per_byte() {
    assert_eq!(to_lower_hex(&[0x0a, 0x14, 0x1e, 0xff, 0x00]), "0a141eff00");
    assert_eq!(to_lower_hex(&[]), "");
}

#[test]
fn hash_run_counts_batches_and_stops_on_empty() {
    let mut run = HashRun::start(50);
    assert_eq!(run.batch_size, 50);
    assert_eq!(run.on_batch_fetched(3), HashAction::HashBatch);
    assert_eq!(run.on_batch_hashed(3), 3);
    assert_eq!(run.on_batch_hashed(2), 5);
    assert_eq!(run.on_batch_fetched(0), HashAction::Finish);
    assert_eq!(run.total_hashed, 5);
}
