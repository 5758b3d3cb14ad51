use kehikko_desktop::json::{json_number, json_string, parse_u16_chars};

const CONFIG: &str = r#"{"hostDir": "/home/u/kehikko", "apiPort": 4190}"#;

#[test]
fn reads_both_keys() {
    assert_eq!(json_string(CONFIG, "hostDir"), Some("/home/u/kehikko".to_string()));
    assert_eq!(json_number(CONFIG, "apiPort"), Some(4190));
}

#[test]
fn missing_key_is_none() {
    assert_eq!(json_string(CONFIG, "other"), None);
    assert_eq!(json_number(CONFIG, "other"), None);
    assert_eq!(json_string("", "hostDir"), None);
}

#[test]
fn reader_tolerates_layout() {
    let text = "{\n  \"apiPort\" :\n\t  5123 ,\n  \"hostDir\"\n:\"~/k\"\n}";
    assert_eq!(json_string(text, "hostDir"), Some("~/k".to_string()));
    assert_eq!(json_number(text, "apiPort"), Some(5123));
}

#[test]
fn number_needs_digits_that_fit() {
    assert_eq!(json_number(r#"{"apiPort": "4180"}"#, "apiPort"), None);
    assert_eq!(json_number(r#"{"apiPort": 70000}"#, "apiPort"), None);
    assert_eq!(json_number(r#"{"apiPort": 65535}"#, "apiPort"), Some(65535));
    assert_eq!(json_number(r#"{"apiPort": -3}"#, "apiPort"), None);
    assert_eq!(json_number(r#"{"apiPort": 12abc}"#, "apiPort"), Some(12));
    assert_eq!(json_number(r#"{"apiPort"}"#, "apiPort"), None);
}

#[test]
fn string_needs_both_quotes() {
    assert_eq!(json_string(r#"{"hostDir": "/unterminated"#, "hostDir"), None);
    assert_eq!(json_string(r#"{"hostDir": 12}"#, "hostDir"), None);
    assert_eq!(json_string(r#"{"hostDir"}"#, "hostDir"), None);
    assert_eq!(json_string(r#"{"hostDir": ""}"#, "hostDir"), Some(String::new()));
    assert_eq!(json_string(r#"{"hostDir": "ä/ö"}"#, "hostDir"), Some("ä/ö".to_string()));
}

#[test]
fn first_occurrence_of_the_key_wins() {
    let text = r#"{"hostDir": "/one", "hostDir": "/two"}"#;
    assert_eq!(json_string(text, "hostDir"), Some("/one".to_string()));
}

#[test]
fn parse_matches_std() {
    for s in ["0", "+0", "65535", "65536", "", "+", "-0", " 1", "00012", "１"] {
        let chars: Vec<char> = s.chars().collect();
        assert_eq!(parse_u16_chars(&chars), s.parse::<u16>().ok(), "{s:?}");
    }
}

#[test]
fn documented_config_shape() {
    let text = "{\"hostDir\": \"…\", \"apiPort\": 4180}";
    assert_eq!(json_string(text, "hostDir"), Some("…".to_string()));
    assert_eq!(json_number(text, "apiPort"), Some(4180));
}
