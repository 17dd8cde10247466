use duhashtsrv::{change_file_dir, change_file_name, change_file_name_for, change_file_path};

#[test]
fn names_are_seconds_dot_nanos_dot_txt() {
    assert_eq!(change_file_name_for(1, 2), "1.2.txt");
    assert_eq!(change_file_name_for(0, 0), "0.0.txt");
    assert_eq!(
        change_file_name_for(1700000000, 123456789),
        "1700000000.123456789.txt"
    );
    assert_eq!(
        change_file_name_for(u64::MAX, 999_999_999),
        "18446744073709551615.999999999.txt"
    );
}

#[test]
fn fresh_name_has_the_journal_shape() {
    let name = change_file_name().unwrap();
    let parts: Vec<&str> = name.split('.').collect();
    assert_eq!(parts.len(), 3);
    assert!(!parts[0].is_empty() && parts[0].chars().all(|c| c.is_ascii_digit()));
    assert!(!parts[1].is_empty() && parts[1].chars().all(|c| c.is_ascii_digit()));
    assert_eq!(parts[2], "txt");
}

#[test]
fn journal_files_live_under_the_change_directory() {
    assert_eq!(change_file_dir(), ".change-files");
    assert_eq!(change_file_path("1.2.txt"), ".change-files/1.2.txt");
}
