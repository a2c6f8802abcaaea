use wcr::config::new_config;
use wcr::config::ConfigError;

#[test]
fn no_flags_enables_default_metrics() {
    let cfg = new_config(vec!["a".to_string()], false, false, false, false).unwrap();
    assert!(cfg.lines);
    assert!(cfg.words);
    assert!(cfg.bytes);
    assert!(!cfg.chars);
    assert_eq!(cfg.files, vec!["a".to_string()]);
}

#[test]
fn explicit_flags_are_kept_as_given() {
    let cfg = new_config(vec!["a".to_string()], false, true, false, false).unwrap();
    assert!(!cfg.lines);
    assert!(cfg.words);
    assert!(!cfg.bytes);
    assert!(!cfg.chars);

    let cfg = new_config(vec!["a".to_string()], true, false, false, true).unwrap();
    assert!(cfg.lines);
    assert!(!cfg.words);
    assert!(!cfg.bytes);
    assert!(cfg.chars);
}

#[test]
fn bytes_with_chars_is_a_usage_error() {
    let r = new_config(vec!["a".to_string()], false, false, true, true);
    assert_eq!(r.unwrap_err(), ConfigError::BytesWithChars);

    let r = new_config(vec!["a".to_string()], true, true, true, true);
    assert!(r.is_err());
}

#[test]
fn file_order_is_preserved() {
    let files = vec!["b".to_string(), "a".to_string(), "c".to_string()];
    let cfg = new_config(files.clone(), true, false, false, false).unwrap();
    assert_eq!(cfg.files, files);
}
