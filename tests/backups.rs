use std::collections::HashMap;

use plutonium_updater::backup::INFO_FILE;
use plutonium_updater::{expired_backups, list_backups, version_files, FileEntry, Manifest};

fn names(v: &[&str]) -> Vec<String> {
    v.iter().map(|s| s.to_string()).collect()
}

fn manifest(revision: u16, files: &[&str]) -> Manifest {
    Manifest {
        product: "test".to_string(),
        revision,
        base_url: String::new(),
        files: files
            .iter()
            .map(|n| FileEntry { name: n.to_string(), size: 1, hash: "h".to_string() })
            .collect(),
    }
}

#[test]
fn backups_sorted_numerically() {
    let dirs = names(&["10", "9", "abc", "+3", "70000", "", "-1", "65535", "0"]);
    assert_eq!(list_backups(&dirs), vec![0, 3, 9, 10, 65535]);
    assert_eq!(list_backups(&Vec::new()), Vec::<u16>::new());
}

#[test]
fn rotation_keeps_newest_three() {
    assert_eq!(expired_backups(&vec![1, 2, 3, 4, 5]), vec![1, 2]);
    assert_eq!(expired_backups(&vec![1, 2, 3, 4]), vec![1]);
    assert_eq!(expired_backups(&vec![1, 2, 3]), Vec::<u16>::new());
    assert_eq!(expired_backups(&Vec::new()), Vec::<u16>::new());
}

#[test]
fn retention_after_many_snapshots() {
    let mut dirs: Vec<String> = Vec::new();
    for revision in [3u16, 8, 9, 10, 12, 20] {
        let listed = list_backups(&dirs);
        for old in expired_backups(&listed) {
            dirs.retain(|d| d != &old.to_string());
        }
        dirs.push(revision.to_string());
    }
    assert_eq!(list_backups(&dirs), vec![9, 10, 12, 20]);
}

#[test]
fn version_files_lists_entries_then_manifest() {
    let m = manifest(4, &["a.bin", "dir/b.bin"]);
    assert_eq!(version_files(&m), names(&["a.bin", "dir/b.bin", INFO_FILE]));
    assert_eq!(version_files(&manifest(0, &[])), names(&["cdn_info.json"]));
}

fn copy_present(from: &HashMap<String, Vec<u8>>, to: &mut HashMap<String, Vec<u8>>, files: &[String]) {
    for f in files {
        if let Some(c) = from.get(f) {
            to.insert(f.clone(), c.clone());
        }
    }
}

#[test]
fn backup_round_trip() {
    let m = manifest(4, &["a.bin", "dir/b.bin", "missing.bin"]);
    let mut installed: HashMap<String, Vec<u8>> = HashMap::new();
    installed.insert("a.bin".to_string(), b"one".to_vec());
    installed.insert("dir/b.bin".to_string(), b"two".to_vec());
    installed.insert(INFO_FILE.to_string(), b"{}".to_vec());
    let at_snapshot = installed.clone();

    let mut backup = HashMap::new();
    copy_present(&installed, &mut backup, &version_files(&m));

    installed.insert("a.bin".to_string(), b"changed".to_vec());
    installed.remove("dir/b.bin");
    copy_present(&backup, &mut installed, &version_files(&m));
    assert_eq!(installed, at_snapshot);
}
