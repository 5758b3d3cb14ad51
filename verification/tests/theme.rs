use kehikko_desktop::theme::{from_page, path, remembered, script, Color, Theme};

#[test]
fn words_and_colours() {
    assert_eq!(Theme::Dark.word(), "dark");
    assert_eq!(Theme::Light.word(), "light");
    assert_eq!(Theme::Dark.color(), Color(0, 0, 0, 255));
    assert_eq!(Theme::Light.color(), Color(255, 255, 255, 255));
}

#[test]
fn only_the_two_words_are_themes() {
    assert_eq!(from_page("dark"), Some(Theme::Dark));
    assert_eq!(from_page(" light\n"), Some(Theme::Light));
    assert_eq!(from_page("Dark"), None);
    assert_eq!(from_page("dar"), None);
    assert_eq!(from_page(""), None);
    assert_eq!(from_page("dark light"), None);
}

#[test]
fn dark_until_told_otherwise() {
    assert_eq!(remembered(None), Theme::Dark);
    assert_eq!(remembered(Some("")), Theme::Dark);
    assert_eq!(remembered(Some("lig")), Theme::Dark);
    assert_eq!(remembered(Some("light\n")), Theme::Light);
    assert_eq!(remembered(Some("dark")), Theme::Dark);
}

#[test]
fn what_is_written_is_read_back() {
    for t in [Theme::Dark, Theme::Light] {
        assert_eq!(remembered(Some(t.word())), t);
        assert_eq!(from_page(t.word()), Some(t));
    }
}

#[test]
fn echo_lives_beside_the_config() {
    assert_eq!(path("/home/u"), "/home/u/.config/kehikko-desktop/theme");
    assert_ne!(path("/home/u"), kehikko_desktop::host::config_path("/home/u"));
}

#[test]
fn script_sets_a_main_frame_global() {
    assert_eq!(
        script(Theme::Dark),
        "if (window.top === window.self) window.__kehikkoDesktopTheme = \"dark\";"
    );
    assert_eq!(
        script(Theme::Light),
        "if (window.top === window.self) window.__kehikkoDesktopTheme = \"light\";"
    );
}
