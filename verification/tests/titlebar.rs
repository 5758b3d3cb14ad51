use kehikko_desktop::titlebar::{script, INSET, SCRIPT};
use kehikko_desktop::{fullscreen_script, titlebar_script};

#[test]
fn inset_is_written_in() {
    let s = script();
    assert_eq!(s, SCRIPT.replace("__INSET__", "82"));
    assert!(s.contains("const INSET = 82;"));
    assert!(!s.contains("__INSET__"));
    assert_eq!(INSET, 82);
    assert_eq!(titlebar_script(), s);
}

#[test]
fn script_guards_the_main_frame() {
    assert!(script().contains("if (window.top !== window.self) return;"));
    assert!(script().contains("' [no header matched]'"));
}

#[test]
fn fullscreen_is_said_as_yes_or_no() {
    assert_eq!(fullscreen_script(true), "document.documentElement.dataset.kehikkoFullscreen = \"yes\"");
    assert_eq!(fullscreen_script(false), "document.documentElement.dataset.kehikkoFullscreen = \"no\"");
}
