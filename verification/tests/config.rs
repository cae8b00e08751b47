use medusa::config::{Arguments, Config, ConfigFile};

fn options(url: Option<&str>, threads: Option<&str>, limit: Option<&str>) -> Arguments {
    Arguments {
        config: None,
        url: url.map(|s| s.to_owned()),
        threads: threads.map(|s| s.to_owned()),
        max_concurrent_requests: limit.map(|s| s.to_owned()),
    }
}

#[test]
fn new_stores_what_it_is_given() {
    let config = Config::new("http://localhost:8080/", 12, Some(3));
    assert_eq!(config.url, "http://localhost:8080/");
    assert_eq!(config.num_threads, 12);
    assert_eq!(config.max_concurrent_requests, Some(3));
    let unchecked = Config::new("", 0, None);
    assert_eq!(unchecked.num_threads, 0);
    assert_eq!(unchecked.max_concurrent_requests, None);
}

#[test]
fn options_resolve_to_a_config() {
    let config = Config::try_parse(options(Some("http://a/"), Some("8"), None)).unwrap();
    assert_eq!(config.url, "http://a/");
    assert_eq!(config.num_threads, 8);
    assert_eq!(config.max_concurrent_requests, None);

    let capped = Config::try_parse(options(Some("http://a/"), Some("8"), Some("2"))).unwrap();
    assert_eq!(capped.num_threads, 8);
    assert_eq!(capped.max_concurrent_requests, Some(2));
}

#[test]
fn missing_options_are_named() {
    assert_eq!(
        Config::try_parse(options(None, Some("8"), None)).unwrap_err(),
        "Missing required argument `url`"
    );
    assert_eq!(
        Config::try_parse(options(Some("http://a/"), None, None)).unwrap_err(),
        "Missing required argument `threads`"
    );
    assert_eq!(
        Config::try_parse(options(None, None, Some("3"))).unwrap_err(),
        "Missing required arguments `url` and `threads`"
    );
}

#[test]
fn threads_must_be_a_positive_number() {
    for threads in ["0", "-4", "many", "", "1.5", "4294967296"] {
        assert_eq!(
            Config::try_parse(options(Some("http://a/"), Some(threads), None)).unwrap_err(),
            "`threads` should be a positive integer"
        );
    }
}

#[test]
fn a_cap_of_zero_is_rejected() {
    assert_eq!(
        Config::try_parse(options(Some("http://a/"), Some("4"), Some("0"))).unwrap_err(),
        "`max_concurrent_requests` should be a positive integer"
    );
    assert_eq!(
        Config::new("http://a/", 4, Some(0)).validate().unwrap_err(),
        "`max_concurrent_requests` should be a positive integer"
    );
}

#[test]
fn a_cap_that_is_no_number_sets_no_cap() {
    let config = Config::try_parse(options(Some("http://a/"), Some("4"), Some("lots"))).unwrap();
    assert_eq!(config.max_concurrent_requests, None);
}

#[test]
fn validate_hands_a_valid_config_back() {
    let config = Config::new("http://a/", 4, Some(4)).validate().unwrap();
    assert_eq!(config.url, "http://a/");
    assert_eq!(config.num_threads, 4);
    assert_eq!(config.max_concurrent_requests, Some(4));
    assert_eq!(
        Config::new("http://a/", 0, Some(0)).validate().unwrap_err(),
        "`threads` should be a positive integer"
    );
}

#[test]
fn a_config_file_overrides_the_options() {
    let args = Arguments {
        config: Some(ConfigFile::Loaded(Config::new("http://file/", 3, Some(1)))),
        url: Some("http://option/".to_owned()),
        threads: Some("nonsense".to_owned()),
        max_concurrent_requests: Some("0".to_owned()),
    };
    let config = Config::try_parse(args).unwrap();
    assert_eq!(config.url, "http://file/");
    assert_eq!(config.num_threads, 3);
    assert_eq!(config.max_concurrent_requests, Some(1));
}

#[test]
fn a_config_file_is_checked_too() {
    let no_workers = ConfigFile::Loaded(Config::new("http://file/", 0, None));
    assert_eq!(
        Config::try_parse_file(no_workers).unwrap_err(),
        "`threads` should be a positive integer"
    );
    let no_room = ConfigFile::Loaded(Config::new("http://file/", 2, Some(0)));
    assert_eq!(
        Config::try_parse_file(no_room).unwrap_err(),
        "`max_concurrent_requests` should be a positive integer"
    );
}

#[test]
fn a_config_file_that_cannot_be_used_says_why() {
    let unreadable = Arguments {
        config: Some(ConfigFile::Unreadable("entity not found".to_owned())),
        url: Some("http://option/".to_owned()),
        threads: Some("4".to_owned()),
        max_concurrent_requests: None,
    };
    assert_eq!(
        Config::try_parse(unreadable).unwrap_err(),
        "Unable to open file: entity not found"
    );
    let malformed = ConfigFile::Malformed("expected value at line 1 column 1".to_owned());
    assert_eq!(
        Config::try_parse_file(malformed).unwrap_err(),
        "Invalid json in configuration file expected value at line 1 column 1"
    );
}

#[test]
fn options_are_resolved_directly() {
    let config = Config::try_parse_args(
        Some("http://a/".to_owned()),
        Some("+16".to_owned()),
        Some("16".to_owned()),
    )
    .unwrap();
    assert_eq!(config.num_threads, 16);
    assert_eq!(config.max_concurrent_requests, Some(16));
}
