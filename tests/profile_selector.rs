use profile_switcher::browser::{
    choose_chrome_executable, determine_chrome_executable, known_chrome_paths,
};
use profile_switcher::config::{Config, ProfileMapping};
use profile_switcher::selector::{
    contains_bytes, find_profile_directory, select_profile, ProfileError,
};

fn create_test_config() -> Config {
    Config {
        default_profile: Some("DefaultProfile".to_string()),
        profiles: vec![
            ProfileMapping {
                name: "Work".to_string(),
                profile_directory: "Profile 1".to_string(),
                url_patterns: vec!["github.com".to_string(), "work.example.com".to_string()],
            },
            ProfileMapping {
                name: "Personal".to_string(),
                profile_directory: "Profile 2".to_string(),
                url_patterns: vec!["youtube.com".to_string(), "personal.blog".to_string()],
            },
            ProfileMapping {
                name: "Shopping".to_string(),
                profile_directory: "Profile 3".to_string(),
                url_patterns: vec!["amazon.com".to_string()],
            },
        ],
        chrome_path: None,
    }
}

fn mapping(dir: &str, patterns: &[&str]) -> ProfileMapping {
    ProfileMapping {
        name: format!("{} mapping", dir),
        profile_directory: dir.to_string(),
        url_patterns: patterns.iter().map(|p| p.to_string()).collect(),
    }
}

#[test]
fn test_find_profile_work() {
    let config = create_test_config();
    let profile = find_profile_directory(&config, "https://github.com/user/repo").unwrap();
    assert_eq!(profile, "Profile 1");

    let profile_direct_match =
        find_profile_directory(&config, "https://work.example.com/dashboard").unwrap();
    assert_eq!(profile_direct_match, "Profile 1");
}

#[test]
fn test_find_profile_personal() {
    let config = create_test_config();
    let profile = find_profile_directory(&config, "https://www.youtube.com/watch?v=video").unwrap();
    assert_eq!(profile, "Profile 2");
}

#[test]
fn test_find_profile_shopping_direct_url_match() {
    let mut test_config_specific_url = create_test_config();
    test_config_specific_url.profiles.insert(
        0,
        ProfileMapping {
            name: "SpecificDeal".to_string(),
            profile_directory: "DealProfile".to_string(),
            url_patterns: vec!["amazon.com/deals/today".to_string()],
        },
    );

    let profile = find_profile_directory(
        &test_config_specific_url,
        "https://www.amazon.com/deals/today?ref=nav",
    )
    .unwrap();
    assert_eq!(profile, "DealProfile");

    let general_amazon_config = create_test_config();
    let general_amazon_profile = find_profile_directory(
        &general_amazon_config,
        "https://www.amazon.com/gp/cart/view.html",
    )
    .unwrap();
    assert_eq!(general_amazon_profile, "Profile 3");
}

#[test]
fn test_find_profile_default() {
    let config = create_test_config();
    let profile = find_profile_directory(&config, "https://unknownsite.com").unwrap();
    assert_eq!(profile, "DefaultProfile");
}

#[test]
fn test_find_profile_no_default_in_config() {
    let mut config = create_test_config();
    config.default_profile = None;
    let profile = find_profile_directory(&config, "https://anotherunknown.org").unwrap();
    assert_eq!(profile, "Default");
}

#[test]
fn test_determine_chrome_executable_from_config() {
    let mut config = create_test_config();
    config.chrome_path = Some("/custom/path/to/chrome".to_string());
    assert_eq!(determine_chrome_executable(&config), "/custom/path/to/chrome");
}

#[test]
fn longer_pattern_wins_over_earlier_shorter_one() {
    let config = Config {
        default_profile: None,
        profiles: vec![mapping("Profile X", &["com"]), mapping("Profile 1", &["github.com"])],
        chrome_path: None,
    };
    assert_eq!(find_profile_directory(&config, "https://github.com/x").unwrap(), "Profile 1");
}

#[test]
fn longer_pattern_wins_over_later_shorter_one() {
    let config = Config {
        default_profile: None,
        profiles: vec![mapping("Profile 1", &["github.com"]), mapping("Profile X", &["com"])],
        chrome_path: None,
    };
    assert_eq!(find_profile_directory(&config, "https://github.com/x").unwrap(), "Profile 1");
}

#[test]
fn equal_length_patterns_keep_the_earliest() {
    let config = Config {
        default_profile: None,
        profiles: vec![
            mapping("First", &["abc", "xyz"]),
            mapping("Second", &["xyz", "abc"]),
        ],
        chrome_path: None,
    };
    assert_eq!(find_profile_directory(&config, "https://xyz.abc.org/").unwrap(), "First");
    let within = Config {
        default_profile: None,
        profiles: vec![mapping("Only", &["zz"]), mapping("Later", &["ab", "cd"])],
        chrome_path: None,
    };
    assert_eq!(find_profile_directory(&within, "https://cd.ab.net/").unwrap(), "Later");
}

#[test]
fn unmatched_url_uses_configured_default() {
    let config = Config {
        default_profile: Some("Work".to_string()),
        profiles: vec![mapping("Profile 1", &["github.com"])],
        chrome_path: None,
    };
    assert_eq!(find_profile_directory(&config, "https://unknown.example").unwrap(), "Work");
}

#[test]
fn empty_patterns_and_no_default_give_default() {
    let config = Config {
        default_profile: None,
        profiles: vec![mapping("Profile 1", &[]), mapping("Profile 2", &[])],
        chrome_path: None,
    };
    assert_eq!(find_profile_directory(&config, "https://github.com/").unwrap(), "Default");
    let empty = Config { default_profile: None, profiles: vec![], chrome_path: None };
    assert_eq!(find_profile_directory(&empty, "https://github.com/").unwrap(), "Default");
}

#[test]
fn empty_pattern_never_selects() {
    let config = Config {
        default_profile: Some("Home".to_string()),
        profiles: vec![mapping("Profile 1", &[""])],
        chrome_path: None,
    };
    assert_eq!(find_profile_directory(&config, "https://github.com/").unwrap(), "Home");
}

#[test]
fn pattern_in_path_or_query_matches() {
    let config = Config {
        default_profile: None,
        profiles: vec![mapping("Docs", &["ref=docs"])],
        chrome_path: None,
    };
    assert_eq!(find_profile_directory(&config, "https://a.example/p?ref=docs").unwrap(), "Docs");
}

#[test]
fn host_is_matched_as_the_url_parser_normalises_it() {
    // The raw text holds the host in capitals; the parsed host is lower case.
    let config = Config {
        default_profile: None,
        profiles: vec![mapping("Normalised", &["www.example.com"])],
        chrome_path: None,
    };
    assert_eq!(
        find_profile_directory(&config, "https://WWW.EXAMPLE.COM/page").unwrap(),
        "Normalised"
    );
}

#[test]
fn malformed_url_is_refused() {
    let config = create_test_config();
    match find_profile_directory(&config, "not a url") {
        Err(ProfileError::MalformedUrl(u)) => assert_eq!(u, "not a url"),
        Ok(p) => panic!("expected an error, got {}", p),
    }
    assert!(find_profile_directory(&config, "github.com/user").is_err());
}

#[test]
fn select_profile_reads_host_and_text() {
    let config = create_test_config();
    assert_eq!(select_profile(&config, "https://x.org/", "youtube.com"), "Profile 2");
    assert_eq!(select_profile(&config, "https://x.org/personal.blog", ""), "Profile 2");
    assert_eq!(select_profile(&config, "https://x.org/", "x.org"), "DefaultProfile");
}

#[test]
fn pattern_length_counts_bytes() {
    // "é" is two bytes: "éé" (4 bytes) outgrows "abc" (3 bytes).
    let config = Config {
        default_profile: None,
        profiles: vec![mapping("Ascii", &["abc"]), mapping("Accented", &["éé"])],
        chrome_path: None,
    };
    assert_eq!(select_profile(&config, "https://abc.org/éé", "abc.org"), "Accented");
}

#[test]
fn contains_bytes_cases() {
    assert!(contains_bytes(b"github.com", b"hub.c"));
    assert!(contains_bytes(b"github.com", b""));
    assert!(contains_bytes(b"", b""));
    assert!(contains_bytes(b"abc", b"abc"));
    assert!(!contains_bytes(b"ab", b"abc"));
    assert!(!contains_bytes(b"github.com", b"gitlab"));
    assert!(contains_bytes(b"aaab", b"aab"));
}

#[test]
fn chrome_executable_from_probe_results() {
    let config = Config { default_profile: None, profiles: vec![], chrome_path: None };
    assert_eq!(choose_chrome_executable(&config, &vec![]), "google-chrome");
    assert_eq!(
        choose_chrome_executable(&config, &vec![true]),
        "/usr/bin/google-chrome-stable"
    );
    assert_eq!(
        choose_chrome_executable(&config, &vec![false, false, true]),
        "/usr/bin/chromium-browser"
    );
    assert_eq!(
        choose_chrome_executable(&config, &vec![false, false, false, false, true]),
        "/Applications/Google Chrome.app/Contents/MacOS/Google Chrome"
    );
    assert_eq!(
        choose_chrome_executable(&config, &vec![false, false, false, false, false, true]),
        "google-chrome"
    );
    let configured = Config {
        default_profile: None,
        profiles: vec![],
        chrome_path: Some("/opt/chrome".to_string()),
    };
    assert_eq!(choose_chrome_executable(&configured, &vec![true]), "/opt/chrome");
}

#[test]
fn probed_chrome_executable_is_known_or_fallback() {
    let config = Config { default_profile: None, profiles: vec![], chrome_path: None };
    let exe = determine_chrome_executable(&config);
    assert!(exe == "google-chrome" || known_chrome_paths().contains(&exe));
    assert_eq!(known_chrome_paths().len(), 5);
}
