use open_with_browser::browser_details::{get_chrome_profiles, Browsers, DiscoveryError};

#[test]
fn reads_profiles_and_adds_default_when_missing() {
    let local_state = r#"{
        "profile": {
            "info_cache": {
                "Profile 1": {
                    "profile_dir": "Profile 1",
                    "name": "Personal"
                },
                "Profile 2": {
                    "gaia_name": "Work"
                }
            }
        }
    }"#;

    let profiles = get_chrome_profiles(Browsers::Chrome, Some(local_state)).expect("profiles");
    let labels: Vec<_> = profiles.iter().map(|p| &p.display_name).collect();
    assert!(labels.contains(&&"Personal".to_string()));
    assert!(labels.contains(&&"Work".to_string()));
    assert!(labels.contains(&&"Default".to_string()));
}

#[test]
fn deduplicates_profile_directories() {
    let local_state = r#"{
        "profile": {
            "info_cache": {
                "Profile 1": {
                    "profile_dir": "Profile 1",
                    "name": "Personal"
                },
                "Duplicate": {
                    "profile_dir": "Profile 1",
                    "name": "Duplicate"
                }
            }
        }
    }"#;

    let profiles = get_chrome_profiles(Browsers::Chrome, Some(local_state)).expect("profiles");
    let dirs: Vec<_> = profiles.iter().map(|p| &p.directory).collect();
    assert_eq!(dirs.iter().filter(|d| d.as_str() == "Profile 1").count(), 1);
}

#[test]
fn results_are_sorted_by_display_name() {
    let local_state = r#"{
        "profile": {
            "info_cache": {
                "Default": {
                    "name": "Zed"
                },
                "Profile 9": {
                    "name": "Anna"
                },
                "Profile 2": {
                    "name": "Mila"
                }
            }
        }
    }"#;

    let profiles = get_chrome_profiles(Browsers::Chrome, Some(local_state)).expect("profiles");
    let labels: Vec<_> = profiles.iter().map(|p| p.display_name.clone()).collect();
    assert_eq!(labels, vec!["Anna".to_string(), "Mila".to_string(), "Zed".to_string()]);
}

#[test]
fn default_display_name_comes_from_the_key() {
    let local_state = r#"{
        "profile": {
            "info_cache": {
                "default": {}
            }
        }
    }"#;

    let profiles = get_chrome_profiles(Browsers::Chrome, Some(local_state)).expect("profiles");
    // The lower-case key resolves to the display name "Default", and a
    // synthesized entry for the "Default" directory joins it.
    assert_eq!(profiles.len(), 2);
    assert!(profiles.iter().any(|p| p.display_name == "Default" && p.directory == "default"));
    assert!(profiles.iter().any(|p| p.display_name == "Default" && p.directory == "Default"));
}

#[test]
fn absent_state_yields_empty_and_malformed_state_errs() {
    let absent = get_chrome_profiles(Browsers::Chrome, None).expect("profiles");
    assert!(absent.is_empty());

    let err = get_chrome_profiles(Browsers::Chrome, Some("{ not json"));
    assert_eq!(err.unwrap_err(), DiscoveryError::MalformedLocalState);

    let wrong_shape = get_chrome_profiles(Browsers::Chrome, Some("{\"profile\": 3}"));
    assert!(wrong_shape.is_err());

    let safari = get_chrome_profiles(Browsers::Safari, Some("{ not json")).expect("profiles");
    assert!(safari.is_empty());
}
