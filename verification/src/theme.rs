//! Light or dark, as the host's page last reported it.
//!
//! The host's own cookie is the truth; the shell keeps an echo of its last
//! word in a one-word file beside the configuration file, and paints the
//! window's first frame from it. Anything in that file that is not one of the
//! two words is not a theme, and the answer to it is the answer to an empty
//! file: dark.

use vstd::prelude::*;

use crate::host::{config_dir, config_dir_chars, config_file};
use crate::path::{join, join_str};
use crate::text::{chars_eq, chars_of, string_of, trim, trim_chars, trim_end, trim_start};

verus! {

/// The theme, as the shell knows it.
#[derive(Clone, Copy, PartialEq, Eq, Debug, Structural)]
pub enum Theme {
    Dark,
    Light,
}

/// The word the host uses for a theme, which is also the whole content of the file.
pub open spec fn theme_word(t: Theme) -> Seq<char> {
    match t {
        Theme::Dark => "dark"@,
        Theme::Light => "light"@,
    }
}

/// A colour as red, green, blue and alpha.
#[derive(Clone, Copy, PartialEq, Eq, Debug, Structural)]
pub struct Color(pub u8, pub u8, pub u8, pub u8);

/// The window's first frame: exactly black or exactly white, opaque.
pub open spec fn theme_color(t: Theme) -> Color {
    match t {
        Theme::Dark => Color(0, 0, 0, 255),
        Theme::Light => Color(255, 255, 255, 255),
    }
}

impl Theme {
    /// The word the host uses.
    pub fn word(self) -> (w: &'static str)
        ensures
            w@ == theme_word(self),
    {
        match self {
            Theme::Dark => "dark",
            Theme::Light => "light",
        }
    }

    /// The colour of the window's first frame.
    pub fn color(self) -> (c: Color)
        ensures
            c == theme_color(self),
    {
        match self {
            Theme::Dark => Color(0, 0, 0, 255),
            Theme::Light => Color(255, 255, 255, 255),
        }
    }
}

/// The theme a word names, once trimmed; no other word names one.
pub open spec fn theme_named(word: Seq<char>) -> Option<Theme> {
    if trim(word) == "dark"@ {
        Some(Theme::Dark)
    } else if trim(word) == "light"@ {
        Some(Theme::Light)
    } else {
        None
    }
}

fn parse(word: &str) -> (r: Option<Theme>)
    ensures
        r == theme_named(word@),
{
    let w = trim_chars(&chars_of(word));
    if chars_eq(&w, &chars_of("dark")) {
        Some(Theme::Dark)
    } else if chars_eq(&w, &chars_of("light")) {
        Some(Theme::Light)
    } else {
        None
    }
}

/// The word the page sent, if it was one of the two.
pub fn from_page(word: &str) -> (r: Option<Theme>)
    ensures
        r == theme_named(word@),
{
    parse(word)
}

/// The file the echo lives in.
pub open spec fn theme_file(home: Seq<char>) -> Seq<char> {
    join(config_dir(home), "theme"@)
}

/// Where the echo lives, under the home directory `home`: beside the
/// configuration file, never in it.
pub fn path(home: &str) -> (r: String)
    ensures
        r@ == theme_file(home@),
{
    string_of(&join_str(&config_dir_chars(home), "theme"))
}

/// What the file says, or dark when it says nothing that is a theme.
pub open spec fn remembered_theme(contents: Option<Seq<char>>) -> Theme {
    match contents {
        Some(c) => match theme_named(c) {
            Some(t) => t,
            None => Theme::Dark,
        },
        None => Theme::Dark,
    }
}

/// What the host's page last said it was showing, from the contents of the
/// file (`None` where it could not be read) — dark until it says otherwise.
pub fn remembered(contents: Option<&str>) -> (t: Theme)
    ensures
        t == remembered_theme(
            match contents {
                Some(c) => Some(c@),
                None => None,
            },
        ),
{
    match contents {
        Some(c) => match parse(c) {
            Some(t) => t,
            None => Theme::Dark,
        },
        None => Theme::Dark,
    }
}

/// The initialization script that hands the theme to the page, main frame only.
pub open spec fn theme_script(t: Theme) -> Seq<char> {
    "if (window.top === window.self) window.__kehikkoDesktopTheme = "@ + seq!['"'] + theme_word(t)
        + seq!['"'] + seq![';']
}

/// Hand the theme to the page before the page is parsed.
pub fn script(theme: Theme) -> (s: String)
    ensures
        s@ == theme_script(theme),
{
    let mut s = String::new();
    s.append("if (window.top === window.self) window.__kehikkoDesktopTheme = ");
    crate::text::push_char(&mut s, '"');
    s.append(theme.word());
    crate::text::push_char(&mut s, '"');
    crate::text::push_char(&mut s, ';');
    s
}

/// What is written down is what is read back: the word of a theme names
/// that theme, and a file holding it remembers it.
pub proof fn lemma_word_round_trip(t: Theme)
    ensures
        theme_named(theme_word(t)) == Some(t),
        remembered_theme(Some(theme_word(t))) == t,
{
    reveal_strlit("dark");
    reveal_strlit("light");
    let w = theme_word(t);
    assert(trim_start(w) == w);
    assert(trim_end(w) == w);
    assert(trim(w) == w);
    if t == Theme::Light {
        assert("light"@ != "dark"@) by {
            assert("light"@.len() != "dark"@.len());
        }
    }
}

/// The echo lives in the same directory as the configuration file and is
/// never that file.
pub proof fn lemma_beside_config(home: Seq<char>)
    ensures
        theme_file(home) == join(config_dir(home), "theme"@),
        config_file(home) == join(config_dir(home), "config.json"@),
        theme_file(home) != config_file(home),
{
    reveal_strlit("theme");
    reveal_strlit("config.json");
    let d = config_dir(home);
    assert(theme_file(home).len() != config_file(home).len());
}

/// Only a theme's own word names it: a word that reads as a theme is, once
/// trimmed, exactly that theme's word.
pub proof fn lemma_only_its_word_names_it(word: Seq<char>, t: Theme)
    ensures
        theme_named(word) == Some(t) ==> trim(word) == theme_word(t),
{
}

} // verus!
