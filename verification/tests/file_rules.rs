use term_sessions::files::{
    exceeds_read_limit, looks_binary, sort_entries, FileEntry, FileInfo,
};

fn entry(name: &str, is_dir: bool) -> FileEntry {
    FileEntry {
        name: name.to_string(),
        path: format!("/tmp/{}", name),
        is_directory: is_dir,
        is_symlink: false,
        size: 1,
    }
}

#[test]
fn binary_probe_finds_null_in_prefix() {
    assert!(looks_binary(&vec![1, 2, 0, 3]));
    assert!(!looks_binary(&vec![1, 2, 3]));
    assert!(!looks_binary(&Vec::new()));
}

#[test]
fn binary_probe_ignores_null_after_the_probe_window() {
    let mut bytes = vec![7u8; 9000];
    bytes[8500] = 0;
    assert!(!looks_binary(&bytes));
    bytes[100] = 0;
    assert!(looks_binary(&bytes));
}

#[test]
fn read_limit_is_fifty_mebibytes() {
    assert!(!exceeds_read_limit(50 * 1024 * 1024));
    assert!(exceeds_read_limit(50 * 1024 * 1024 + 1));
    assert!(!exceeds_read_limit(0));
}

#[test]
fn sort_puts_directories_first_then_case_insensitive_names() {
    let listing = vec![
        entry("zeta.rs", false),
        entry("B.txt", false),
        entry("a.txt", false),
        entry("src", true),
        entry("Docs", true),
    ];
    let sorted = sort_entries(listing);
    let names: Vec<&str> = sorted.iter().map(|e| e.name.as_str()).collect();
    // Directories first, each group folded case-insensitively: "a.txt"
    // before "B.txt" even though 'B' < 'a' by scalar value.
    assert_eq!(names, vec!["Docs", "src", "a.txt", "B.txt", "zeta.rs"]);
}

#[test]
fn sort_keeps_every_entry() {
    let listing = vec![entry("b", false), entry("a", false), entry("a", false)];
    let sorted = sort_entries(listing);
    assert_eq!(sorted.len(), 3);
    assert_eq!(sorted[0].name.as_str(), "a");
    assert_eq!(sorted[1].name.as_str(), "a");
    assert_eq!(sorted[2].name.as_str(), "b");
}

#[test]
fn sort_of_empty_listing_is_empty() {
    assert!(sort_entries(Vec::new()).is_empty());
}

#[test]
fn file_info_carries_the_probe_results() {
    let info = FileInfo { size: 42, is_binary: true, is_readonly: false };
    assert_eq!(info.size, 42);
    assert!(info.is_binary);
    assert!(!info.is_readonly);
}
