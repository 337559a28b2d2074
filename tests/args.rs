use plutonium_updater::{get, get_body_string, Args};

fn args(directory: &str) -> Args {
    Args {
        directory: directory.to_string(),
        force: true,
        launcher: false,
        quiet: false,
        silent: true,
        check: false,
        no_color: false,
        backup: false,
        manual_backup: false,
        backup_list: false,
        backup_restore: "undefined".to_string(),
        no_backup: false,
        cdn_url: "https://cdn.example/info.json".to_string(),
        version_local: false,
        version_cdn: false,
        exclude: vec!["optional/".to_string()],
        threads: 2,
    }
}

#[test]
fn quotes_removed_from_directory() {
    let a = get(args("\"C:\\Games\\plutonium\""));
    assert_eq!(a.directory, "C:\\Games\\plutonium");
    assert!(a.force && a.silent && !a.launcher);
    assert_eq!(a.exclude, vec!["optional/".to_string()]);
    assert_eq!(a.threads, 2);
    assert_eq!(get(args("plain")).directory, "plain");
    assert_eq!(get(args("a\"b\"\"c")).directory, "abc");
}

#[test]
fn body_decoded_as_utf8() {
    assert_eq!(get_body_string(b"{\"revision\": 3}".to_vec()), Ok("{\"revision\": 3}".to_string()));
    assert_eq!(get_body_string("h\u{e9}".as_bytes().to_vec()), Ok("h\u{e9}".to_string()));
    assert!(get_body_string(vec![0xff, 0xfe]).is_err());
    assert!(get_body_string(vec![0xc3]).is_err());
    assert_eq!(get_body_string(Vec::new()), Ok(String::new()));
}
