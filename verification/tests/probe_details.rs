use open_with_browser::browser_probe::{
    get_chrome_profiles, get_firefox_profiles, parse_browser_kind, BrowserKind,
};

// Test parse_browser_kind normalization logic
#[test]
fn test_parse_browser_kind_chrome_aliases() {
    assert_eq!(parse_browser_kind("Google Chrome"), BrowserKind::Chrome);
    assert_eq!(parse_browser_kind("google-chrome"), BrowserKind::Chrome);
    assert_eq!(parse_browser_kind("chrome"), BrowserKind::Chrome);
    assert_eq!(parse_browser_kind("Chrome"), BrowserKind::Chrome);
    assert_eq!(parse_browser_kind("GOOGLE CHROME"), BrowserKind::Chrome);
}

#[test]
fn test_parse_browser_kind_firefox_aliases() {
    assert_eq!(parse_browser_kind("Firefox"), BrowserKind::Firefox);
    assert_eq!(parse_browser_kind("firefox"), BrowserKind::Firefox);
    assert_eq!(parse_browser_kind("Mozilla Firefox"), BrowserKind::Firefox);
    assert_eq!(parse_browser_kind("FIREFOX"), BrowserKind::Firefox);
}

#[test]
fn test_parse_browser_kind_edge_aliases() {
    assert_eq!(parse_browser_kind("Microsoft Edge"), BrowserKind::Edge);
    assert_eq!(parse_browser_kind("Edge"), BrowserKind::Edge);
    assert_eq!(parse_browser_kind("edge"), BrowserKind::Edge);
    assert_eq!(parse_browser_kind("msedge"), BrowserKind::Edge);
}

#[test]
fn test_parse_browser_kind_brave_aliases() {
    assert_eq!(parse_browser_kind("Brave"), BrowserKind::Brave);
    assert_eq!(parse_browser_kind("brave"), BrowserKind::Brave);
}

#[test]
fn test_parse_browser_kind_unknown() {
    assert_eq!(parse_browser_kind("Unknown Browser"), BrowserKind::Unknown);
    assert_eq!(parse_browser_kind(""), BrowserKind::Unknown);
}

// Chrome profile tests - gaia_name
#[test]
fn test_chrome_profiles_with_gaia_name() {
    let local_state = r#"{
        "profile": {
            "info_cache": {
                "Default": {
                    "gaia_name": "John Doe",
                    "name": "Person 1"
                }
            }
        }
    }"#;
    let existing = vec!["Default".to_string()];

    let profiles = get_chrome_profiles("/data", Some(local_state), &existing).unwrap();

    assert_eq!(profiles.len(), 1);
    assert_eq!(profiles[0].name, "John Doe");
    assert_eq!(profiles[0].profile_dir, "Default");
}

// Chrome profile tests - name fallback
#[test]
fn test_chrome_profiles_with_name_fallback() {
    let local_state = r#"{
        "profile": {
            "info_cache": {
                "Default": {
                    "name": "Person 1"
                }
            }
        }
    }"#;
    let existing = vec!["Default".to_string()];

    let profiles = get_chrome_profiles("/data", Some(local_state), &existing).unwrap();

    assert_eq!(profiles.len(), 1);
    assert_eq!(profiles[0].name, "Person 1");
}

// Chrome profile tests - missing profile case
#[test]
fn test_chrome_profiles_missing_profile_directory() {
    let local_state = r#"{
        "profile": {
            "info_cache": {
                "Default": {
                    "gaia_name": "John Doe"
                },
                "Profile 1": {
                    "name": "Jane Doe"
                }
            }
        }
    }"#;

    // No profile directories exist on disk.
    let existing: Vec<String> = Vec::new();
    let profiles = get_chrome_profiles("/data", Some(local_state), &existing).unwrap();

    assert_eq!(profiles.len(), 0);
}

#[test]
fn test_chrome_profiles_non_existing_path() {
    // "/non/existing/path/to/chrome" holds no Local State file at all.
    let existing: Vec<String> = Vec::new();
    let profiles = get_chrome_profiles("/non/existing/path/to/chrome", None, &existing).unwrap();

    assert_eq!(profiles.len(), 0);
}

#[test]
fn test_chrome_profiles_missing_local_state() {
    let existing = vec!["Default".to_string()];

    let profiles = get_chrome_profiles("/data", None, &existing).unwrap();

    assert_eq!(profiles.len(), 0);
}

#[test]
fn test_chrome_profiles_invalid_json() {
    let existing = vec!["Default".to_string()];

    let profiles = get_chrome_profiles("/data", Some("{ invalid json }"), &existing).unwrap();

    assert_eq!(profiles.len(), 0);
}

// Firefox profile tests
#[test]
fn test_firefox_profiles_valid_ini() {
    let profiles_ini =
        "[Profile0]\nName=default\nPath=Profiles/abc.default\n\n[Profile1]\nName=work\nPath=Profiles/xyz.work\n";
    let existing = vec!["Profiles/abc.default".to_string(), "Profiles/xyz.work".to_string()];

    let profiles = get_firefox_profiles("/moz", Some(profiles_ini), &existing).unwrap();

    assert_eq!(profiles.len(), 2);
}

#[test]
fn test_firefox_profiles_missing_ini() {
    let existing: Vec<String> = Vec::new();

    let profiles = get_firefox_profiles("/moz", None, &existing).unwrap();

    assert_eq!(profiles.len(), 0);
}

#[test]
fn test_firefox_profiles_non_existing_path() {
    let existing: Vec<String> = Vec::new();

    let profiles = get_firefox_profiles("/non/existing/firefox", None, &existing).unwrap();

    assert_eq!(profiles.len(), 0);
}

#[test]
fn test_firefox_profiles_skip_missing_directories() {
    let profiles_ini = "[Profile0]\nName=default\nPath=Profiles/abc.default\n";
    let existing: Vec<String> = Vec::new();

    let profiles = get_firefox_profiles("/moz", Some(profiles_ini), &existing).unwrap();

    assert_eq!(profiles.len(), 0);
}

#[test]
fn test_windows_path_handling() {
    let local_state = r#"{
        "profile": {
            "info_cache": {
                "Default": {
                    "gaia_name": "Windows User"
                }
            }
        }
    }"#;
    let existing = vec!["Default".to_string()];

    let profiles =
        get_chrome_profiles("C:\\Users\\u\\AppData\\Local\\Google\\Chrome\\User Data", Some(local_state), &existing)
            .unwrap();

    assert_eq!(profiles.len(), 1);
    assert_eq!(profiles[0].name, "Windows User");
}
