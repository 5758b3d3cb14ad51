use kehikko_desktop::status::{
    adopted_message, header_missing, page_url, quote, refused_message, spawn_failed_message,
    starting_message, status_script, timeout_message, Phase,
};
use kehikko_desktop::host::Refusal;

#[test]
fn quote_escapes_what_it_must() {
    assert_eq!(quote("plain"), "\"plain\"");
    assert_eq!(quote(""), "\"\"");
    assert_eq!(quote("a\"b\\c"), "\"a\\\"b\\\\c\"");
    assert_eq!(quote("l1\nl2\r\t"), "\"l1\\nl2\\r\\t\"");
    assert_eq!(quote("<script>"), "\"\\u003cscript>\"");
    assert_eq!(quote("\u{1}\u{1f}\u{0}"), "\"\\u0001\\u001f\\u0000\"");
    assert_eq!(quote("ä — \u{7f}"), "\"ä — \u{7f}\"");
}

#[test]
fn quoted_messages_hold_no_markup_and_no_controls() {
    for s in ["/tmp/<dir>", "a\u{1}b", "x\ny", "\"quoted\""] {
        let q = quote(s);
        assert!(!q.contains('<'));
        assert!(q.chars().all(|c| (c as u32) >= 0x20));
        assert!(q.starts_with('"') && q.ends_with('"'));
    }
}

#[test]
fn status_is_a_guarded_call() {
    assert_eq!(
        status_script(Phase::Failed, "no <dir>"),
        "window.kehikkoStatus && window.kehikkoStatus(\"failed\", \"no \\u003cdir>\")"
    );
    assert_eq!(
        status_script(Phase::Starting, "x"),
        "window.kehikkoStatus && window.kehikkoStatus(\"starting\", \"x\")"
    );
    assert_eq!(
        status_script(Phase::Adopted, ""),
        "window.kehikkoStatus && window.kehikkoStatus(\"adopted\", \"\")"
    );
}

#[test]
fn messages_read_as_written() {
    assert_eq!(page_url(4181), "http://127.0.0.1:4181");
    assert_eq!(
        adopted_message("http://127.0.0.1:4181"),
        "Found a host already answering on http://127.0.0.1:4181. Using it — this window will not stop it when you quit, because it did not start it."
    );
    assert_eq!(
        refused_message(&Refusal::NoDirectory("/k".to_string()), "$KEHIKKO_HOST_DIR", "/h/.config/kehikko-desktop/config.json"),
        "There is no directory at /k.\n\nThat path came from $KEHIKKO_HOST_DIR.\n\nSet the right one in /h/.config/kehikko-desktop/config.json as {\"hostDir\": \"/path/to/kehikko\"}, or run this with KEHIKKO_HOST_DIR set, and reopen the window."
    );
    assert_eq!(starting_message("/k"), "Starting the host in /k…");
    assert_eq!(
        spawn_failed_message("/k/run.sh", "Permission denied (os error 13)"),
        "Could not run /k/run.sh: Permission denied (os error 13)"
    );
    assert_eq!(
        timeout_message("/k", "http://127.0.0.1:4181"),
        "The host was started in /k but nothing answered on http://127.0.0.1:4181 within two minutes. Look at the terminal this was launched from: run.sh prints why it failed there, and it is usually a port already held or a failed `bun install`."
    );
}

#[test]
fn missing_header_is_read_from_the_title() {
    assert!(header_missing("Kehikot [no header matched]"));
    assert!(header_missing("[no header matched]"));
    assert!(!header_missing("Kehikot"));
    assert!(!header_missing("[no header"));
}
