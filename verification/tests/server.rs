use duhashtsrv::{
    backup_file_name, line_count_hint, Args, ConfigError, FormatError, HashPair, Server,
};

fn args_with_test(test: &str) -> Args {
    Args {
        host: "127.0.0.1".to_string(),
        port: 1337,
        log_level: "info".to_string(),
        hash_file: "hashes.txt".to_string(),
        merge: false,
        test: test.to_string(),
    }
}

fn lines(texts: &[&str]) -> Vec<String> {
    texts.iter().map(|t| t.to_string()).collect()
}

#[test]
fn new_server_starts_empty() {
    let srv = Server::new(args_with_test(""));
    assert_eq!(srv.store.len(), 0);
}

#[test]
fn cmdline_accepts_no_probe_or_a_32_character_probe() {
    assert!(Server::new(args_with_test("")).verify_cmdline().is_ok());
    assert!(Server::new(args_with_test("00000000000000000000000000000000"))
        .verify_cmdline()
        .is_ok());
}

#[test]
fn cmdline_rejects_a_probe_of_other_length() {
    let r = Server::new(args_with_test("ABC")).verify_cmdline();
    assert!(matches!(r, Err(ConfigError::InvalidTestHash)));
}

#[test]
fn initialize_loads_all_lines() {
    let mut srv = Server::new(args_with_test(""));
    srv.initialize(&lines(&[
        "00000000000000020000000000000000",
        "00000000000000010000000000000000",
    ]))
    .unwrap();
    assert_eq!(srv.store.len(), 2);
    assert!(srv.store.contains(&HashPair::new(1, 0)));
    assert!(srv.store.contains(&HashPair::new(2, 0)));
}

#[test]
fn initialize_fails_whole_load_on_a_bad_line() {
    let mut srv = Server::new(args_with_test(""));
    let r = srv.initialize(&lines(&["00000000000000020000000000000000", "bad"]));
    assert!(matches!(r, Err(FormatError::InvalidHashFormat)));
    assert_eq!(srv.store.len(), 0);
}

#[test]
fn merge_without_pending_lines_equals_plain_load() {
    let hash_lines = lines(&[
        "00000000000000010000000000000000",
        "00000000000000030000000000000000",
    ]);
    let mut merged = Server::new(args_with_test(""));
    let outcome = merged.merge_and_initialize(&hash_lines, &Vec::new()).unwrap();
    assert_eq!(outcome.inserted, 0);
    assert!(!outcome.needs_rewrite);

    let mut loaded = Server::new(args_with_test(""));
    loaded.initialize(&hash_lines).unwrap();
    assert_eq!(merged.store.as_vec(), loaded.store.as_vec());
}

#[test]
fn merge_of_already_present_hashes_changes_nothing_on_disk() {
    let hash_lines = lines(&[
        "00000000000000010000000000000000",
        "00000000000000030000000000000000",
    ]);
    let change_lines = lines(&[
        "00000000000000030000000000000000",
        "00000000000000010000000000000000",
    ]);
    let mut srv = Server::new(args_with_test(""));
    let outcome = srv.merge_and_initialize(&hash_lines, &change_lines).unwrap();
    assert_eq!(outcome.inserted, 0);
    assert!(!outcome.needs_rewrite);
    // The store's dump is exactly the hash file's own lines.
    assert_eq!(srv.store.persist_to_text(), hash_lines);
}

#[test]
fn merge_folds_new_pending_hashes_and_asks_for_a_rewrite() {
    let hash_lines = lines(&[
        "00000000000000010000000000000000",
        "00000000000000030000000000000000",
    ]);
    let change_lines = lines(&[
        "00000000000000040000000000000000",
        "00000000000000030000000000000000",
        "00000000000000020000000000000000",
        "00000000000000040000000000000000",
    ]);
    let mut srv = Server::new(args_with_test(""));
    let outcome = srv.merge_and_initialize(&hash_lines, &change_lines).unwrap();
    assert_eq!(outcome.inserted, 2);
    assert!(outcome.needs_rewrite);
    assert_eq!(
        srv.store.persist_to_text(),
        lines(&[
            "00000000000000010000000000000000",
            "00000000000000020000000000000000",
            "00000000000000030000000000000000",
            "00000000000000040000000000000000",
        ])
    );
}

#[test]
fn merge_fails_whole_startup_on_a_bad_pending_line() {
    let mut srv = Server::new(args_with_test(""));
    let r = srv.merge_and_initialize(
        &lines(&["00000000000000010000000000000000"]),
        &lines(&["short"]),
    );
    assert!(matches!(r, Err(FormatError::InvalidHashFormat)));
    assert_eq!(srv.store.len(), 0);
}

#[test]
fn probe_finds_a_present_hash_at_its_position() {
    let mut srv = Server::new(args_with_test("00000000000000030000000000000000"));
    srv.initialize(&lines(&[
        "00000000000000010000000000000000",
        "00000000000000030000000000000000",
    ]))
    .unwrap();
    assert_eq!(srv.test(), Ok(Some(1)));
}

#[test]
fn probe_reports_an_absent_hash() {
    let mut srv = Server::new(args_with_test("00000000000000090000000000000000"));
    srv.initialize(&lines(&["00000000000000010000000000000000"]))
        .unwrap();
    assert_eq!(srv.test(), Ok(None));
}

#[test]
fn probe_rejects_malformed_text() {
    let srv = Server::new(args_with_test("not-a-hash"));
    assert_eq!(srv.test(), Err(FormatError::InvalidHashFormat));
}

#[test]
fn capacity_hint_counts_33_byte_lines() {
    assert_eq!(line_count_hint(0), 0);
    assert_eq!(line_count_hint(33), 1);
    assert_eq!(line_count_hint(66), 2);
    assert_eq!(line_count_hint(100), 3);
}

#[test]
fn backup_name_appends_bak() {
    assert_eq!(backup_file_name("hashes.txt"), "hashes.txt.bak");
}
