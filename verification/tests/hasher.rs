use flagforge::hasher::bucket;
use flagforge::hasher::murmurhash3;

#[test]
fn test_murmurhash3_known_values() {
    // Empty string with seed 0
    assert_eq!(murmurhash3(b"", 0), 0);
    // Known values for deterministic verification
    let h1 = murmurhash3(b"hello", 0);
    let h2 = murmurhash3(b"hello", 0);
    assert_eq!(h1, h2, "Same input must produce same hash");

    let h3 = murmurhash3(b"hello", 1);
    assert_ne!(h1, h3, "Different seed should produce different hash");
}

#[test]
fn test_bucket_range() {
    for i in 0..1000 {
        let b = bucket("test-flag", &format!("user-{i}"));
        assert!((0..10000).contains(&b), "Bucket {b} out of range");
    }
}

#[test]
fn test_bucket_deterministic() {
    let b1 = bucket("my-flag", "user-123");
    let b2 = bucket("my-flag", "user-123");
    assert_eq!(b1, b2);
}

#[test]
fn test_bucket_different_flags() {
    let b1 = bucket("flag-a", "user-123");
    let b2 = bucket("flag-b", "user-123");
    // Different flags should (usually) produce different buckets
    // This isn't guaranteed but is overwhelmingly likely
    assert_ne!(b1, b2);
}

#[test]
fn test_uniform_distribution() {
    let mut counts = [0u32; 10];
    let n = 100_000;
    for i in 0..n {
        let b = bucket("rollout-flag", &format!("user-{i}"));
        counts[(b / 1000) as usize] += 1;
    }
    // Each decile should have roughly 10% — allow 2% tolerance
    for (i, &count) in counts.iter().enumerate() {
        let pct = (count as f64 / n as f64) * 100.0;
        assert!(
            (8.0..12.0).contains(&pct),
            "Decile {i} has {pct:.1}% — distribution is not uniform"
        );
    }
}

#[test]
fn test_bucket_empty_keys() {
    let b = bucket("", "");
    assert!((0..10000).contains(&b));
    assert_eq!(b, bucket("", ""));
}

#[test]
fn test_murmurhash3_reference_vectors() {
    // Reference values of MurmurHash3 x86 32-bit.
    assert_eq!(murmurhash3(b"", 1), 0x514e28b7);
    assert_eq!(murmurhash3(b"abc", 0), 0xb3dd93fa);
    assert_eq!(murmurhash3(b"Hello, world!", 0), 0xc0363e43);
}
