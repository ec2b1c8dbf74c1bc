use embedcache::entry::{decode_entry, encode_entry, HEADER_LEN};
use embedcache::eviction::EvictionPlan;
use embedcache::key;
use embedcache::policy::{CacheConfig, ExpirySweep};
use embedcache::clock::secs_or_zero;
use embedcache::{unix_now, CacheError, CacheStats};

fn bits_of(v: &[f32]) -> Vec<u32> {
    v.iter().map(|x| x.to_bits()).collect()
}

fn floats_of(v: &[u32]) -> Vec<f32> {
    v.iter().map(|b| f32::from_bits(*b)).collect()
}

#[test]
fn key_changes_with_model_or_text() {
    let a = key("m1", "hello");
    let b = key("m2", "hello");
    let c = key("m1", "world");
    assert_ne!(a, b);
    assert_ne!(a, c);
    assert_eq!(a, key("m1", "hello"));
}

#[test]
fn key_separator_blocks_concatenation_collision() {
    // Without a separator, ("a", "bc") and ("ab", "c") would collide.
    let a = key("a", "bc");
    let b = key("ab", "c");
    assert_ne!(a, b);
}

#[test]
fn put_then_get_round_trips() {
    let config = CacheConfig::new(None).unwrap();
    let v = vec![0.1_f32, 0.2, 0.3];
    let stored = encode_entry(unix_now(), &bits_of(&v));
    let got = config.lookup(Some(stored.as_slice()), unix_now()).unwrap();
    assert_eq!(got.map(|b| floats_of(&b)), Some(v));
}

#[test]
fn get_missing_returns_none() {
    let config = CacheConfig::new(None).unwrap();
    assert_eq!(config.lookup(None, unix_now()).unwrap(), None);
}

#[test]
fn purge_to_size_evicts_oldest() {
    // Each entry: 8 + 4 + 4 = 16 bytes value.
    let now = unix_now();
    let mut plan = EvictionPlan::new();
    let mut stored: Vec<([u8; 32], Vec<u8>)> = Vec::new();
    for i in 0..10u32 {
        let k = key("m", &format!("k{i}"));
        let value = encode_entry(now, &bits_of(&[i as f32]));
        plan.observe(k, &value);
        stored.push((k, value));
    }
    let victims = plan.victims(32);
    let removed = victims.len() as u64;
    assert!(removed > 0, "expected at least 1 eviction");
    let kept_lens: Vec<usize> = stored
        .iter()
        .filter(|(k, _)| !victims.contains(k))
        .map(|(_, v)| v.len())
        .collect();
    let stats = CacheStats::tally(kept_lens.len() as u64, &kept_lens, 0);
    assert!(stats.value_bytes <= 32, "value_bytes={}", stats.value_bytes);
}

#[test]
fn ttl_zero_rejected() {
    let err = CacheConfig::new(Some(0));
    assert!(err.is_err());
}

#[test]
fn malformed_entry_rejected() {
    let bad = vec![0u8; 5];
    let r = decode_entry(&bad);
    assert!(r.is_err());
}

#[test]
fn encode_decode_round_trip() {
    let v = vec![1.0_f32, -2.5, 3.125, f32::MIN, f32::MAX];
    let bytes = encode_entry(123, &bits_of(&v));
    let (t, decoded) = decode_entry(&bytes).unwrap();
    assert_eq!(t, 123);
    assert_eq!(floats_of(&decoded), v);
}

#[test]
fn key_is_blake3_of_model_nul_text() {
    let expected = *blake3::hash(b"text-embedding-3-small\0hello world").as_bytes();
    assert_eq!(key("text-embedding-3-small", "hello world"), expected);
    let mut hasher = blake3::Hasher::new();
    hasher.update(b"m");
    hasher.update(&[0u8]);
    hasher.update("héllo".as_bytes());
    assert_eq!(key("m", "héllo"), *hasher.finalize().as_bytes());
}

#[test]
fn key_with_nul_in_model_can_meet_another_pair() {
    // The separator only separates model names without NUL characters.
    assert_eq!(key("a\0", ""), key("a", "\0"));
}

#[test]
fn encoded_layout_is_timestamp_dim_components() {
    let bytes = encode_entry(0x0102_0304_0506_0708, &[0xAABB_CCDD, 1]);
    assert_eq!(bytes.len(), HEADER_LEN + 8);
    assert_eq!(
        bytes,
        vec![8, 7, 6, 5, 4, 3, 2, 1, 2, 0, 0, 0, 0xDD, 0xCC, 0xBB, 0xAA, 1, 0, 0, 0]
    );
    assert_eq!(encode_entry(7, &[]), vec![7, 0, 0, 0, 0, 0, 0, 0, 0, 0, 0, 0]);
}

#[test]
fn decode_reports_short_entry() {
    match decode_entry(&[1, 2, 3, 4, 5, 6, 7, 8, 9, 10, 11]) {
        Err(CacheError::Malformed(m)) => assert_eq!(m, "entry shorter than header"),
        other => panic!("unexpected {:?}", other),
    }
}

#[test]
fn decode_reports_length_mismatch() {
    let mut bytes = encode_entry(5, &[1, 2]);
    bytes.push(0);
    match decode_entry(&bytes) {
        Err(CacheError::Malformed(m)) => assert_eq!(m, "entry length 21, expected 20"),
        other => panic!("unexpected {:?}", other),
    }
    let mut huge = vec![0u8; 12];
    huge[8..12].copy_from_slice(&u32::MAX.to_le_bytes());
    match decode_entry(&huge) {
        Err(CacheError::Malformed(m)) => assert_eq!(m, "entry length 12, expected 17179869192"),
        other => panic!("unexpected {:?}", other),
    }
}

#[test]
fn decode_then_encode_gives_the_same_bytes() {
    let bytes = vec![9, 0, 0, 0, 0, 0, 0, 0, 1, 0, 0, 0, 0x00, 0x00, 0xC0, 0x7F];
    let (t, comps) = decode_entry(&bytes).unwrap();
    assert_eq!(t, 9);
    assert_eq!(comps, vec![0x7FC0_0000]);
    assert_eq!(encode_entry(t, &comps), bytes);
}

#[test]
fn zero_ttl_error_names_the_setting() {
    match CacheConfig::new(Some(0)) {
        Err(CacheError::InvalidConfig(m)) => {
            assert_eq!(m, "ttl_secs must be > 0 (or None for no expiry)")
        }
        _ => panic!("expected InvalidConfig"),
    }
    assert_eq!(CacheConfig::new(Some(30)).unwrap().ttl_secs(), Some(30));
    assert_eq!(CacheConfig::new(None).unwrap().ttl_secs(), None);
}

#[test]
fn ttl_expires_after_exactly_ttl_seconds() {
    let config = CacheConfig::new(Some(10)).unwrap();
    let stored = encode_entry(100, &[42]);
    assert_eq!(config.lookup(Some(&stored), 109).unwrap(), Some(vec![42]));
    assert_eq!(config.lookup(Some(&stored), 110).unwrap(), None);
    // a timestamp in the future counts as zero seconds elapsed
    assert_eq!(config.lookup(Some(&stored), 50).unwrap(), Some(vec![42]));
    assert!(!config.is_expired(100, 109));
    assert!(config.is_expired(100, 110));
}

#[test]
fn no_ttl_never_expires() {
    let config = CacheConfig::new(None).unwrap();
    let stored = encode_entry(0, &[1, 2, 3]);
    assert_eq!(config.lookup(Some(&stored), u64::MAX).unwrap(), Some(vec![1, 2, 3]));
    assert!(ExpirySweep::new(&config, u64::MAX).is_none());
}

#[test]
fn lookup_reports_malformed_even_when_expired() {
    let config = CacheConfig::new(Some(1)).unwrap();
    let mut stored = encode_entry(0, &[1]);
    stored.pop();
    assert!(matches!(
        config.lookup(Some(&stored), 1_000),
        Err(CacheError::Malformed(_))
    ));
}

#[test]
fn sweep_takes_what_lookup_hid_a_second_earlier() {
    let config = CacheConfig::new(Some(10)).unwrap();
    let now = 100;
    let mut sweep = ExpirySweep::new(&config, now).unwrap();
    let entries: Vec<([u8; 32], Vec<u8>)> = vec![
        ([1; 32], encode_entry(90, &[1])),
        ([2; 32], encode_entry(89, &[2])),
        ([3; 32], vec![0, 0, 0, 0, 0, 0, 0]),
        ([4; 32], encode_entry(200, &[4])),
        ([5; 32], encode_entry(0, &[])),
        ([6; 32], encode_entry(u64::MAX, &[6])),
    ];
    for (k, v) in &entries {
        sweep.observe(*k, v);
    }
    let victims = sweep.into_victims();
    assert_eq!(victims, vec![[2; 32], [5; 32]]);
    for (k, v) in &entries {
        if v.len() >= HEADER_LEN {
            let hidden = config.lookup(Some(v), now - 1).unwrap().is_none();
            assert_eq!(hidden, victims.contains(k));
        }
    }
}

#[test]
fn second_sweep_at_the_same_time_chooses_nothing() {
    let config = CacheConfig::new(Some(5)).unwrap();
    let stored: Vec<([u8; 32], Vec<u8>)> = (0..8u8)
        .map(|i| ([i; 32], encode_entry(u64::from(i) * 3, &[u32::from(i)])))
        .collect();
    let mut first = ExpirySweep::new(&config, 12).unwrap();
    for (k, v) in &stored {
        first.observe(*k, v);
    }
    let victims = first.into_victims();
    assert_eq!(victims, vec![[0; 32], [1; 32], [2; 32]]);
    let mut second = ExpirySweep::new(&config, 12).unwrap();
    for (k, v) in stored.iter().filter(|(k, _)| !victims.contains(k)) {
        second.observe(*k, v);
    }
    assert!(second.into_victims().is_empty());
}

#[test]
fn sweep_keeps_an_entry_at_its_deadline() {
    // inserted_at + ttl == now: the entry stays; one second later it goes.
    let config = CacheConfig::new(Some(10)).unwrap();
    let stored = encode_entry(100, &[7]);
    let mut at_deadline = ExpirySweep::new(&config, 110).unwrap();
    at_deadline.observe([1; 32], &stored);
    assert!(at_deadline.into_victims().is_empty());
    let mut after = ExpirySweep::new(&config, 111).unwrap();
    after.observe([1; 32], &stored);
    assert_eq!(after.into_victims(), vec![[1; 32]]);
}

#[test]
fn eviction_goes_oldest_first_and_stops_when_it_fits() {
    let mut plan = EvictionPlan::new();
    let stamps = [5u64, 1, 3, 1, 9];
    for (i, t) in stamps.iter().enumerate() {
        plan.observe([i as u8; 32], &encode_entry(*t, &[0]));
    }
    // a value too short to hold a timestamp is neither counted nor evicted
    plan.observe([99; 32], &[1, 2, 3]);
    assert_eq!(plan.total(), 80);
    assert_eq!(plan.victims(80), Vec::<[u8; 32]>::new());
    assert_eq!(plan.victims(79), vec![[1; 32]]);
    assert_eq!(plan.victims(48), vec![[1; 32], [3; 32]]);
    assert_eq!(plan.victims(40), vec![[1; 32], [3; 32], [2; 32]]);
    assert_eq!(plan.victims(0), vec![[1; 32], [3; 32], [2; 32], [0; 32], [4; 32]]);
}

#[test]
fn stats_tally_sums_value_lengths() {
    let s = CacheStats::tally(3, &[16, 20, 12], 4096);
    assert_eq!(
        s,
        CacheStats { entries: 3, value_bytes: 48, disk_bytes: 4096 }
    );
    assert_eq!(CacheStats::tally(0, &[], 0).value_bytes, 0);
}

#[test]
fn clock_reading_before_epoch_gives_zero() {
    assert_eq!(secs_or_zero(Some(1_700_000_000)), 1_700_000_000);
    assert_eq!(secs_or_zero(None), 0);
}

#[test]
fn clock_reads_seconds_since_epoch() {
    let now = unix_now();
    // 2020-09-13: any working clock reads later than this
    assert!(now > 1_600_000_000);
}
