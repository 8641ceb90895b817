use rayforge::{Config, ConfigError};

fn config_of(lines: &[&str]) -> Config {
    let lines: Vec<String> = lines.iter().map(|l| l.to_string()).collect();
    Config::from_lines(&lines)
}

#[test]
fn reads_trimmed_keys_and_values() {
    let config = config_of(&["  image_width_pixels =  640 ", "output_name=out.ppm"]);
    assert_eq!(config.get_string("image_width_pixels").unwrap(), "640");
    assert_eq!(config.get_string("output_name").unwrap(), "out.ppm");
    assert_eq!(config.get_usize("image_width_pixels").unwrap(), 640);
}

#[test]
fn skips_blank_lines_comments_and_lines_without_equals() {
    let config = config_of(&["", "   ", "# width = 3", "  #height=4", "no equals here", "a=1"]);
    assert!(matches!(config.get_string("# width"), Err(ConfigError::KeyNotFound(_))));
    assert!(matches!(config.get_string("width"), Err(ConfigError::KeyNotFound(_))));
    assert!(matches!(config.get_string("no equals here"), Err(ConfigError::KeyNotFound(_))));
    assert_eq!(config.get_u32("a").unwrap(), 1);
}

#[test]
fn later_setting_wins() {
    let config = config_of(&["depth = 5", "other = x", "depth = 9"]);
    assert_eq!(config.get_usize("depth").unwrap(), 9);
    assert_eq!(config.get_string("other").unwrap(), "x");
}

#[test]
fn splits_at_first_equals_only() {
    let config = config_of(&["expr = a=b = c", "=empty key", "empty value ="]);
    assert_eq!(config.get_string("expr").unwrap(), "a=b = c");
    assert_eq!(config.get_string("").unwrap(), "empty key");
    assert_eq!(config.get_string("empty value").unwrap(), "");
}

#[test]
fn trims_unicode_whitespace() {
    let config = config_of(&["\u{3000}key\u{a0}=\tvalue\u{2003}\r"]);
    assert_eq!(config.get_string("key").unwrap(), "value");
}

#[test]
fn missing_key_names_the_key() {
    let config = config_of(&["a = 1"]);
    match config.get_usize("missing") {
        Err(ConfigError::KeyNotFound(key)) => assert_eq!(key, "missing"),
        _ => panic!("expected KeyNotFound"),
    }
    match config.get_string("b") {
        Err(ConfigError::KeyNotFound(key)) => assert_eq!(key, "b"),
        _ => panic!("expected KeyNotFound"),
    }
}

#[test]
fn integer_getters_parse_decimal_with_optional_plus() {
    let config = config_of(&["a = +42", "b = 007", "c = 4294967295", "d = 4294967296"]);
    assert_eq!(config.get_usize("a").unwrap(), 42);
    assert_eq!(config.get_u64("b").unwrap(), 7);
    assert_eq!(config.get_u32("c").unwrap(), u32::MAX);
    assert!(matches!(config.get_u32("d"), Err(ConfigError::ParseU32(_))));
    assert_eq!(config.get_u64("d").unwrap(), 4294967296);
}

#[test]
fn integer_getters_reject_malformed_text() {
    let config = config_of(&["neg = -1", "sign = +", "empty =", "space = 1 2", "big = 18446744073709551616", "word = ten"]);
    for key in ["neg", "sign", "empty", "space", "big", "word"] {
        assert!(matches!(config.get_u64(key), Err(ConfigError::ParseU32(_))), "{key}");
        assert!(matches!(config.get_usize(key), Err(ConfigError::ParseU32(_))), "{key}");
    }
}

#[test]
fn bool_getter_accepts_only_true_and_false() {
    let lines = ["t = true", "f = false", "x = True", "y = 1"];
    assert_eq!(config_of(&lines).get_bool("t").unwrap(), true);
    assert_eq!(config_of(&lines).get_bool("f").unwrap(), false);
    assert!(matches!(config_of(&lines).get_bool("x"), Err(ConfigError::ParseBool(_))));
    assert!(matches!(config_of(&lines).get_bool("y"), Err(ConfigError::ParseBool(_))));
    assert!(matches!(config_of(&lines).get_bool("z"), Err(ConfigError::KeyNotFound(_))));
}

#[test]
fn empty_file_has_no_settings() {
    let config = config_of(&[]);
    assert!(matches!(config.get_string("anything"), Err(ConfigError::KeyNotFound(_))));
}

#[test]
fn printed_numbers_read_back() {
    for n in [0usize, 7, 10, 99, 1080, 4294967296, usize::MAX] {
        let line = format!("n = {}", n);
        let config = config_of(&[line.as_str()]);
        assert_eq!(config.get_usize("n").unwrap(), n);
    }
}
