use open_with_browser::routing::{
    add_profile_args, browser_user_data_dir, build_launch_args, no_executable_message,
    normalize_browser_key, normalize_url, pick_browser_path, OsKind,
};

#[test]
fn normalize_url_handles_missing_scheme_and_whitespace() {
    assert_eq!(normalize_url(" https://example.com "), "https://example.com");
    assert_eq!(normalize_url("example.com"), "https://example.com");
    assert_eq!(normalize_url("http://already.com"), "http://already.com");
    assert_eq!(normalize_url(""), "");
    assert_eq!(normalize_url("not a url"), "not a url");
}

#[test]
fn normalize_browser_key_strips_non_alphanumeric() {
    assert_eq!(normalize_browser_key("Google Chrome"), "googlechrome");
    assert_eq!(normalize_browser_key(" Edge "), "edge");
    assert_eq!(normalize_browser_key("FIRE-FOX"), "firefox");
}

#[test]
fn add_profile_args_adds_expected_switches() {
    let args = add_profile_args("Chrome", "Work Profile");
    assert!(args.contains(&"--profile-directory=Work Profile".to_string()));

    let args = add_profile_args("Firefox", "Develop");
    assert_eq!(args, vec!["-P", "Develop"]);

    let args = add_profile_args("Chrome", "   ");
    assert!(args.is_empty());
}

#[test]
fn add_profile_args_skips_unknown_families() {
    assert!(add_profile_args("Netscape", "Work").is_empty());
}

#[test]
fn browser_user_data_dir_knows_the_per_os_layout() {
    assert_eq!(
        browser_user_data_dir("Chrome", OsKind::Linux, "/home/u/.config"),
        Some("/home/u/.config/google-chrome".to_string())
    );
    // The lookup is keyed by the exact normalized name; "Google Chrome"
    // normalizes to "googlechrome", which names no user-data directory.
    assert_eq!(browser_user_data_dir("Google Chrome", OsKind::Linux, "/home/u/.config"), None);
    assert_eq!(
        browser_user_data_dir("Brave", OsKind::Windows, "C:\\Users\\u\\AppData\\Local"),
        Some("C:\\Users\\u\\AppData\\Local\\BraveSoftware\\Brave-Browser\\User Data".to_string())
    );
    assert_eq!(
        browser_user_data_dir("Edge", OsKind::Macos, "/Users/u"),
        Some("/Users/u/Library/Application Support/Microsoft Edge".to_string())
    );
    assert_eq!(browser_user_data_dir("Netscape", OsKind::Linux, "/home/u/.config"), None);
}

#[test]
fn build_launch_args_orders_profile_dir_and_url() {
    let args = build_launch_args(
        "Chrome",
        "https://example.com/",
        &Some("Work".to_string()),
        &Some("/home/u/.config/google-chrome".to_string()),
    );
    assert_eq!(
        args,
        vec![
            "--profile-directory=Work".to_string(),
            "--user-data-dir=/home/u/.config/google-chrome".to_string(),
            "https://example.com/".to_string(),
        ]
    );

    let bare = build_launch_args("Netscape", "https://example.com/", &None, &None);
    assert_eq!(bare, vec!["https://example.com/".to_string()]);
}

#[test]
fn no_executable_message_names_browser_and_id() {
    assert_eq!(
        no_executable_message("Arc", "link-1"),
        "No executable found for browser 'Arc' while handling id=link-1."
    );
}

#[test]
fn it_works() {
    assert_eq!(2 + 2, 4);
}

#[test]
fn pick_browser_path_selects_the_first_matching_row_with_a_path() {
    let names = vec![
        "Google Chrome".to_string(),
        "firefox".to_string(),
        "FIRE-FOX".to_string(),
    ];
    let paths = vec![
        None,
        Some("/usr/bin/firefox".to_string()),
        Some("/opt/firefox/firefox".to_string()),
    ];

    // Key-insensitive match: "FireFox" compares equal to both firefox rows;
    // the first one with a path wins.
    assert_eq!(
        pick_browser_path(&names, &paths, "FireFox"),
        Some("/usr/bin/firefox".to_string())
    );
    // A matching name without a path is skipped, and with no later match
    // nothing is found.
    assert_eq!(pick_browser_path(&names, &paths, "Google Chrome"), None);
    // No row at all for this needle.
    assert_eq!(pick_browser_path(&names, &paths, "Netscape"), None);
}
