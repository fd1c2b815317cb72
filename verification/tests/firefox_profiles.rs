use open_with_browser::browser_details::{get_firefox_profiles, FsEntry};

#[test]
fn discovers_profile_directories() {
    let entries = vec![
        FsEntry { name: "abcd.default-release".to_string(), is_dir: true },
        FsEntry { name: "custom.work".to_string(), is_dir: true },
        // include a file to ensure non-dirs skipped
        FsEntry { name: "not_a_dir".to_string(), is_dir: false },
    ];

    let profiles = get_firefox_profiles(&entries);
    let names: Vec<_> = profiles.iter().map(|p| &p.display_name).collect();
    assert!(names.contains(&&"abcd.default-release".to_string()));
    assert!(names.contains(&&"custom.work".to_string()));
    assert_eq!(profiles.len(), 2);
}

#[test]
fn directory_names_become_display_name_and_key() {
    let entries = vec![FsEntry { name: "zz.last".to_string(), is_dir: true }, FsEntry {
        name: "aa.first".to_string(),
        is_dir: true,
    }];

    let profiles = get_firefox_profiles(&entries);
    assert_eq!(profiles.len(), 2);
    assert_eq!(profiles[0].display_name, "aa.first");
    assert_eq!(profiles[0].directory, "aa.first");
    assert_eq!(profiles[1].display_name, "zz.last");
    assert_eq!(profiles[1].directory, "zz.last");
}
