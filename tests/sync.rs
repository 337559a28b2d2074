use std::collections::HashMap;

use plutonium_updater::{
    check_exit_code, classify, classify_with_digest, download_url, is_skipped, load_local,
    needs_update, start_sync, Action, FileEntry, Manifest, SyncOptions, SyncStats, SyncTally,
};

const ABC_SHA1: &str = "a9993e364706816aba3e25717850c26c9cd0d89d";

fn entry(name: &str, size: u32, hash: &str) -> FileEntry {
    FileEntry { name: name.to_string(), size, hash: hash.to_string() }
}

fn manifest(revision: u16, files: Vec<FileEntry>) -> Manifest {
    Manifest {
        product: "test".to_string(),
        revision,
        base_url: "https://cdn.example/files/".to_string(),
        files,
    }
}

fn options(force: bool, launcher: bool, exclude: &[&str]) -> SyncOptions {
    SyncOptions {
        force,
        launcher,
        exclude: exclude.iter().map(|s| s.to_string()).collect(),
        threads: 2,
    }
}

/// Runs a whole sync over an in-memory tree, finishing the entries in `order`.
fn run_sync(
    tree: &mut HashMap<String, Vec<u8>>,
    server: &HashMap<String, Vec<u8>>,
    remote: &Manifest,
    opts: &SyncOptions,
    order: &[usize],
) -> SyncStats {
    let mut tally = SyncTally::new(remote);
    let mut actions = Vec::new();
    for f in &remote.files {
        actions.push(classify(f, opts, tree.get(&f.name)));
    }
    for &i in order {
        let f = &remote.files[i];
        if let Action::Download { .. } = actions[i] {
            let url = download_url(&remote.base_url, &f.hash);
            tree.insert(f.name.clone(), server[&url].clone());
        }
        assert!(tally.record(i, actions[i]));
    }
    tally.finish().expect("every entry finished")
}

#[test]
fn classifier_example() {
    let files = vec![
        entry("launcher_pak", 100, "H1"),
        entry("optional/readme", 5, "H2"),
        entry("core.bin", 50, ABC_SHA1),
    ];
    let opts = options(false, false, &["optional/"]);
    let local_core = b"abc".to_vec();
    let actions: Vec<Action> = files
        .iter()
        .map(|f| classify(f, &opts, if f.name == "core.bin" { Some(&local_core) } else { None }))
        .collect();
    assert_eq!(actions, vec![Action::Skip, Action::Skip, Action::Verified]);

    let remote = manifest(2, files);
    let mut tally = SyncTally::new(&remote);
    for (i, a) in actions.iter().enumerate() {
        assert!(tally.record(i, *a));
    }
    let stats = tally.finish().unwrap();
    assert_eq!(stats.skipped, 2);
    assert_eq!(stats.checked, 1);
    assert_eq!(stats.downloaded, 0);
    assert_eq!(stats.bytes_downloaded, 0);
    assert_eq!(stats.bytes_to_download, 155);
}

#[test]
fn launcher_assets_fetched_when_asked() {
    let f = entry("launcher/app.exe", 10, "H1");
    assert!(is_skipped(&f, &options(false, false, &[])));
    assert!(!is_skipped(&f, &options(false, true, &[])));
    assert_eq!(classify(&f, &options(false, true, &[]), None), Action::Download { stale: false });
}

#[test]
fn exclusion_is_by_prefix() {
    let opts = options(false, true, &["maps/", "mods"]);
    assert!(is_skipped(&entry("maps/a.ff", 1, "h"), &opts));
    assert!(is_skipped(&entry("mods.txt", 1, "h"), &opts));
    assert!(!is_skipped(&entry("game/maps/a.ff", 1, "h"), &opts));
    assert!(!is_skipped(&entry("map", 1, "h"), &opts));
}

#[test]
fn stale_file_is_replaced() {
    let f = entry("core.bin", 3, ABC_SHA1);
    let opts = options(false, false, &[]);
    let wrong = b"abd".to_vec();
    assert_eq!(classify(&f, &opts, Some(&wrong)), Action::Download { stale: true });
    assert_eq!(classify(&f, &opts, None), Action::Download { stale: false });
    let right = b"abc".to_vec();
    assert_eq!(classify(&f, &opts, Some(&right)), Action::Verified);
}

#[test]
fn content_digest_is_sha1_hex() {
    // a file whose content is its own expected digest must not pass
    let f = entry("x", 1, ABC_SHA1);
    let same_as_hash = ABC_SHA1.as_bytes().to_vec();
    let opts = options(false, false, &[]);
    assert_eq!(classify(&f, &opts, Some(&same_as_hash)), Action::Download { stale: true });
    let empty = entry("e", 0, "da39a3ee5e6b4b0d3255bfef95601890afd80709");
    assert_eq!(classify(&empty, &opts, Some(&Vec::new())), Action::Verified);
}

#[test]
fn classify_with_known_digest() {
    let f = entry("core.bin", 3, "abc123");
    let opts = options(false, false, &["optional/"]);
    assert_eq!(classify_with_digest(&f, &opts, Some(&"abc123".to_string())), Action::Verified);
    assert_eq!(
        classify_with_digest(&f, &opts, Some(&"abc124".to_string())),
        Action::Download { stale: true }
    );
    assert_eq!(classify_with_digest(&f, &opts, None), Action::Download { stale: false });
    let skipped = entry("optional/x", 3, "abc123");
    assert_eq!(classify_with_digest(&skipped, &opts, None), Action::Skip);
}

#[test]
fn revision_gating() {
    let remote = manifest(5, vec![entry("a", 1, "h")]);
    let same = manifest(5, vec![]);
    let newer = manifest(6, vec![]);
    let older = manifest(4, vec![]);
    assert!(start_sync(&remote, &same, false).is_none());
    assert!(start_sync(&remote, &newer, false).is_none());
    assert!(start_sync(&remote, &older, false).is_some());
    let forced = start_sync(&remote, &newer, true).expect("forced sync runs");
    assert_eq!(forced.stats().bytes_to_download, 1);
    assert_eq!(forced.stats().checked, 0);
    assert!(needs_update(6, 5, false));
    assert!(!needs_update(5, 5, false));
    assert!(needs_update(5, 5, true));
    let none = SyncStats::none();
    assert_eq!(
        (none.checked, none.downloaded, none.skipped, none.bytes_to_download, none.bytes_downloaded),
        (0, 0, 0, 0, 0)
    );
}

#[test]
fn tally_refuses_unknown_or_repeated_entries() {
    let remote = manifest(1, vec![entry("a", 7, "h"), entry("b", 9, "h")]);
    let mut tally = SyncTally::new(&remote);
    assert!(!tally.record(2, Action::Verified));
    assert!(tally.record(1, Action::Download { stale: false }));
    assert!(!tally.record(1, Action::Verified));
    assert!(!tally.is_complete());
    assert!(tally.finish().is_none());
    assert!(tally.record(0, Action::Download { stale: true }));
    assert!(tally.is_complete());
    let stats = tally.finish().unwrap();
    assert_eq!(stats.downloaded, 2);
    assert_eq!(stats.bytes_downloaded, 16);
    assert_eq!(stats.checked, 0);
}

#[test]
fn failed_sync_is_not_committed() {
    let remote = manifest(1, vec![entry("a", 7, "h")]);
    let mut tally = SyncTally::new(&remote);
    assert!(tally.record(0, Action::Verified));
    tally.fail();
    assert!(tally.is_complete());
    assert!(tally.finish().is_none());
    assert_eq!(tally.stats().checked, 1);
}

fn sample() -> (Manifest, HashMap<String, Vec<u8>>, HashMap<String, Vec<u8>>) {
    let contents: Vec<(&str, &[u8])> =
        vec![("a.bin", b"abc"), ("dir/b.bin", b""), ("launcher/l.exe", b"xyz"), ("c.bin", b"abc")];
    let mut files = Vec::new();
    let mut server = HashMap::new();
    for (name, data) in &contents {
        let mut h = sha1_smol::Sha1::new();
        h.update(data);
        let hash = h.digest().to_string();
        server.insert(format!("https://cdn.example/files/{}", hash), data.to_vec());
        files.push(entry(name, data.len() as u32 + 1, &hash));
    }
    let mut tree = HashMap::new();
    tree.insert("c.bin".to_string(), b"old".to_vec());
    tree.insert("dir/b.bin".to_string(), Vec::new());
    (manifest(3, files), tree, server)
}

#[test]
fn completion_order_does_not_change_totals() {
    let (remote, tree, server) = sample();
    let opts = options(false, false, &[]);
    let mut tree_a = tree.clone();
    let mut tree_b = tree.clone();
    let a = run_sync(&mut tree_a, &server, &remote, &opts, &[0, 1, 2, 3]);
    let b = run_sync(&mut tree_b, &server, &remote, &opts, &[3, 1, 0, 2]);
    assert_eq!(a, b);
    assert_eq!(tree_a, tree_b);
    assert_eq!((a.checked, a.downloaded, a.skipped), (1, 2, 1));
    assert_eq!(a.bytes_downloaded, 8);
    assert_eq!(a.bytes_to_download, 4 + 1 + 4 + 4);
}

#[test]
fn sync_converges_and_second_sync_fetches_nothing() {
    let (remote, mut tree, server) = sample();
    let opts = options(false, false, &[]);
    let first = run_sync(&mut tree, &server, &remote, &opts, &[0, 1, 2, 3]);
    assert_eq!(first.downloaded, 2);
    for f in &remote.files {
        if !is_skipped(f, &opts) {
            let mut h = sha1_smol::Sha1::new();
            h.update(&tree[&f.name]);
            assert_eq!(h.digest().to_string(), f.hash);
        }
    }
    // the committed local manifest is the remote one
    assert!(start_sync(&remote, &remote, false).is_none());
    let forced = options(true, false, &[]);
    let second = run_sync(&mut tree, &server, &remote, &forced, &[2, 0, 3, 1]);
    assert_eq!(second.downloaded, 0);
    assert_eq!(second.checked, 3);
    assert_eq!(second.skipped, 1);
}

#[test]
fn total_bytes_and_urls() {
    let m = manifest(1, vec![entry("a", u32::MAX, "h"), entry("b", 2, "h")]);
    assert_eq!(m.total_bytes(), u32::MAX as u64 + 2);
    assert_eq!(manifest(1, vec![]).total_bytes(), 0);
    let url = download_url(&"https://cdn.example/".to_string(), &"deadbeef".to_string());
    assert_eq!(url, "https://cdn.example/deadbeef");
}

#[test]
fn missing_local_manifest_is_revision_zero() {
    let m = load_local(None);
    assert_eq!(m.revision, 0);
    assert!(m.files.is_empty());
    assert!(m.base_url.is_empty());
    let stored = load_local(Some(manifest(7, vec![entry("a", 1, "h")])));
    assert_eq!(stored.revision, 7);
    assert_eq!(stored.files.len(), 1);
    let blank = Manifest::blank();
    assert_eq!(blank.revision, 0);
}

#[test]
fn check_mode_exit_codes() {
    assert_eq!(check_exit_code(5, 4), 1);
    assert_eq!(check_exit_code(5, 5), 0);
    assert_eq!(check_exit_code(4, 5), 0);
}
