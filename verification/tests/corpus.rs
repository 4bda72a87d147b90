use gldf_search::cache::{frame, unframe, CacheError, CACHE_MAGIC};
use gldf_search::corpus::{
    copy_one, find_gldf, is_gldf_name, prepare_out_dir, reservoir_sample, run, run_sample, sample,
    ManifestEntry, OutAction, OutState, SampleArgs, SampleError,
};

fn names(n: usize) -> Vec<String> {
    (0..n).map(|i| format!("file{i:02}.gldf")).collect()
}

#[test]
fn seeded_sample_is_deterministic() {
    let root = names(50);
    let (a, total_a) = reservoir_sample(true, &root, 5, Some(42)).unwrap();
    let (b, total_b) = reservoir_sample(true, &root, 5, Some(42)).unwrap();
    assert_eq!(total_a, 50);
    assert_eq!(total_b, 50);
    assert_eq!(a, b, "seeded reservoir must be reproducible");
}

#[test]
fn different_seeds_likely_differ() {
    let root = names(200);
    let (mut a, _) = reservoir_sample(true, &root, 5, Some(1)).unwrap();
    let (mut b, _) = reservoir_sample(true, &root, 5, Some(2)).unwrap();
    a.sort();
    b.sort();
    assert_ne!(a, b, "two random seeds happened to match");
}

#[test]
fn ignores_non_gldf_files() {
    let mut root: Vec<String> = (0..10).map(|i| format!("hit{i}.gldf")).collect();
    root.push("skip.txt".to_string());
    root.push("skip.json".to_string());
    let (sampled, total) = reservoir_sample(true, &root, 3, Some(7)).unwrap();
    assert_eq!(total, 10);
    assert_eq!(sampled.len(), 3);
    for i in sampled {
        assert!(root[i].to_lowercase().ends_with(".gldf"));
    }
}

#[test]
fn corpus_smaller_than_n_returns_all() {
    let root = names(3);
    let (sampled, total) = reservoir_sample(true, &root, 10, Some(1)).unwrap();
    assert_eq!(total, 3);
    assert_eq!(sampled, vec![0, 1, 2]);
}

#[test]
fn unseeded_sample_is_a_choice() {
    let root = names(30);
    let (mut sampled, total) = reservoir_sample(true, &root, 5, None).unwrap();
    assert_eq!(total, 30);
    sampled.sort();
    sampled.dedup();
    assert_eq!(sampled.len(), 5);
    assert!(sampled.iter().all(|i| *i < 30));
}

fn args(n: usize) -> SampleArgs {
    SampleArgs {
        root: "src".to_string(),
        out: "out".to_string(),
        n,
        seed: Some(99),
        force: false,
    }
}

#[test]
fn run_copies_and_hashes() {
    let root: Vec<String> = (0..20).map(|i| format!("f{i:02}.gldf")).collect();
    let (chosen, total) = reservoir_sample(true, &root, 5, Some(99)).unwrap();
    let entries: Vec<ManifestEntry> = chosen
        .iter()
        .map(|i| {
            let bytes = [*i as u8; 256];
            copy_one(format!("src/{}", root[*i]), root[*i].clone(), &bytes, None)
        })
        .collect();
    for (entry, i) in entries.iter().zip(chosen.iter()) {
        assert_eq!(entry.size_bytes, 256);
        assert_eq!(entry.blake3.len(), 64, "blake3 hex length");
        assert_eq!(entry.blake3, blake3::hash(&[*i as u8; 256]).to_hex().to_string());
        assert_eq!(entry.dest_name, root[*i]);
    }
    let outcome = run(
        &args(5),
        "0.1.0".to_string(),
        "/src".to_string(),
        "/out".to_string(),
        total,
        entries,
        7,
    )
    .unwrap();
    let manifest = &outcome.manifest;
    assert_eq!(manifest.entries.len(), 5);
    assert_eq!(manifest.source_count, 20);
    assert_eq!(manifest.requested_n, 5);
    assert_eq!(manifest.seed, Some(99));
    assert_eq!(manifest.sampled_at_epoch_s, 7);
    assert_eq!(manifest.source_root, "/src");
    assert_eq!(outcome.out_dir, "/out");
    let lines = run_sample(&outcome, "/out/entries.json");
    assert!(lines.iter().any(|l| l.contains("/out/entries.json")), "{lines:?}");
}

#[test]
fn refuses_nonempty_out_without_force() {
    assert_eq!(prepare_out_dir(OutState::Filled, false), Err(SampleError::OutNotEmpty));
    assert_eq!(prepare_out_dir(OutState::NotADirectory, true), Err(SampleError::OutNotADirectory));
}

#[test]
fn force_clears_existing() {
    assert_eq!(prepare_out_dir(OutState::Filled, true), Ok(OutAction::Clear));
    assert_eq!(prepare_out_dir(OutState::Empty, false), Ok(OutAction::Keep));
    assert_eq!(prepare_out_dir(OutState::Missing, false), Ok(OutAction::Create));
}

#[test]
fn bad_requests_are_refused() {
    assert_eq!(reservoir_sample(false, &names(3), 2, Some(1)), Err(SampleError::RootNotADirectory));
    let r = run(
        &args(0),
        String::new(),
        String::new(),
        String::new(),
        0,
        vec![],
        0,
    );
    assert!(matches!(r, Err(SampleError::SizeIsZero)));
    let r = run(
        &args(1),
        String::new(),
        String::new(),
        String::new(),
        0,
        vec![],
        0,
    );
    assert!(matches!(r, Err(SampleError::NothingFound)));
}

#[test]
fn names_are_judged_by_their_ending() {
    assert!(is_gldf_name("a.gldf"));
    assert!(is_gldf_name("A.GLDF"));
    assert!(!is_gldf_name("a.gldf.txt"));
    assert!(!is_gldf_name("gldf"));
    assert!(!is_gldf_name(".gldf"));
    let mixed = vec!["a.txt".to_string(), "b.gldf".to_string(), "c.Gldf".to_string()];
    assert_eq!(find_gldf(&mixed), vec![1, 2]);
}

#[test]
fn draws_decide_the_sample() {
    assert_eq!(sample(2, 4, &vec![0, 1]), vec![2, 3]);
    assert_eq!(sample(2, 4, &vec![2, 3]), vec![0, 1]);
    assert_eq!(sample(3, 2, &vec![]), vec![0, 1]);
}

#[test]
fn write_then_read_round_trips() {
    let payload = b"two documents".to_vec();
    let file = frame(&payload);
    assert_eq!(&file[..8], &CACHE_MAGIC[..]);
    assert_eq!(unframe(&file), Ok(payload));
}

#[test]
fn read_rejects_missing_magic() {
    assert_eq!(unframe(b"not a cache file"), Err(CacheError::MagicMismatch));
    assert_eq!(unframe(b""), Err(CacheError::MagicMismatch));
    assert_eq!(unframe(&CACHE_MAGIC), Ok(vec![]));
}
