use kehikko_desktop::path::join_path;
use kehikko_desktop::text::{chars_of, contains_chars, find_chars, replace_chars, string_of, trim_str};

fn v(s: &str) -> Vec<char> {
    s.chars().collect()
}

#[test]
fn trim_matches_std() {
    for s in ["", "  ", " a ", "\u{3000}x\u{85}", "\tdark\n", "a b", "\u{200b}z"] {
        assert_eq!(string_of(&trim_str(s)), s.trim(), "{s:?}");
    }
}

#[test]
fn find_gives_the_first_match() {
    assert_eq!(find_chars(&v("abcabc"), &v("bc"), 0), Some(1));
    assert_eq!(find_chars(&v("abcabc"), &v("bc"), 2), Some(4));
    assert_eq!(find_chars(&v("abcabc"), &v("bd"), 0), None);
    assert_eq!(find_chars(&v("ab"), &v("abc"), 0), None);
    assert_eq!(find_chars(&v("ab"), &v(""), 1), Some(1));
    assert!(contains_chars(&v("title [no header matched]"), &v("[no header matched]")));
    assert!(!contains_chars(&v("title"), &v("[no header matched]")));
}

#[test]
fn replace_matches_std() {
    for (s, p, w) in [
        ("x __INSET__ y __INSET__", "__INSET__", "82"),
        ("aaa", "aa", "b"),
        ("", "x", "y"),
        ("__INSET__INSET__", "__INSET__", "82"),
        ("no match", "zz", "y"),
    ] {
        assert_eq!(string_of(&replace_chars(&v(s), &v(p), &v(w))), s.replace(p, w));
    }
}

#[test]
fn join_follows_path_join() {
    for (base, part) in [
        ("/home/u", ".config"),
        ("/home/u/", ".config"),
        ("", ".config"),
        ("/home/u", "/abs"),
        ("/", "x"),
        ("rel", ""),
    ] {
        let expected = std::path::Path::new(base).join(part).display().to_string();
        assert_eq!(join_path(base, part), expected, "{base:?} {part:?}");
    }
}

#[test]
fn chars_round_trip() {
    assert_eq!(string_of(&chars_of("ä—x")), "ä—x");
}
