//! What the shell says on its waiting-room page, and how it says it: one
//! sentence at a time, passed to a function the page defines, as a JSON
//! string literal so that a directory name with a `<` in it stays a name.

use vstd::prelude::*;

use crate::host::{refusal_sentence, Refusal};
use crate::json::{all_digits, digits_value, lemma_decimal_reads_back};
use crate::text::{chars_of, contains, contains_chars, decimal, push_char, push_decimal};

verus! {

/// A lowercase hexadecimal digit.
pub open spec fn hex_digit(d: nat) -> char {
    if d < 10 {
        (48 + d) as char
    } else {
        (87 + d) as char
    }
}

/// How one character is written inside a JSON string literal: quotes,
/// backslashes and the common control characters get their short escapes,
/// `<` and the other control characters a `\u` escape, and everything else
/// stands for itself.
pub open spec fn escaped(c: char) -> Seq<char> {
    if c == '"' {
        seq!['\\', '"']
    } else if c == '\\' {
        seq!['\\', '\\']
    } else if c == '\n' {
        seq!['\\', 'n']
    } else if c == '\r' {
        seq!['\\', 'r']
    } else if c == '\t' {
        seq!['\\', 't']
    } else if c == '<' {
        seq!['\\', 'u', '0', '0', '3', 'c']
    } else if (c as u32) < 0x20 {
        seq!['\\', 'u', '0', '0', hex_digit((c as u32 / 16) as nat), hex_digit((c as u32 % 16) as nat)]
    } else {
        seq![c]
    }
}

/// Every character of `s`, escaped, in order.
pub open spec fn escaped_all(s: Seq<char>) -> Seq<char>
    decreases s.len(),
{
    if s.len() == 0 {
        seq![]
    } else {
        escaped_all(s.drop_last()) + escaped(s.last())
    }
}

/// `s` as a JSON string literal.
pub open spec fn json_quoted(s: Seq<char>) -> Seq<char> {
    seq!['"'] + escaped_all(s) + seq!['"']
}

fn hex_char(d: u32) -> (c: char)
    requires
        d < 16,
    ensures
        c == hex_digit(d as nat),
{
    if d < 10 {
        let b: u8 = 48 + d as u8;
        b as char
    } else {
        let b: u8 = 87 + d as u8;
        b as char
    }
}

fn push_escaped(out: &mut String, c: char)
    ensures
        final(out)@ == old(out)@ + escaped(c),
{
    let ghost start = out@;
    if c == '"' {
        push_char(out, '\\');
        push_char(out, '"');
    } else if c == '\\' {
        push_char(out, '\\');
        push_char(out, '\\');
    } else if c == '\n' {
        push_char(out, '\\');
        push_char(out, 'n');
    } else if c == '\r' {
        push_char(out, '\\');
        push_char(out, 'r');
    } else if c == '\t' {
        push_char(out, '\\');
        push_char(out, 't');
    } else if c == '<' {
        push_char(out, '\\');
        push_char(out, 'u');
        push_char(out, '0');
        push_char(out, '0');
        push_char(out, '3');
        push_char(out, 'c');
    } else if (c as u32) < 0x20 {
        let u = c as u32;
        push_char(out, '\\');
        push_char(out, 'u');
        push_char(out, '0');
        push_char(out, '0');
        push_char(out, hex_char(u / 16));
        push_char(out, hex_char(u % 16));
    } else {
        push_char(out, c);
    }
    assert(out@ =~= start + escaped(c));
}

/// A JSON string literal holding `s`.
pub fn quote(s: &str) -> (r: String)
    ensures
        r@ == json_quoted(s@),
{
    let v = chars_of(s);
    let mut out = String::new();
    push_char(&mut out, '"');
    let mut i: usize = 0;
    while i < v.len()
        invariant
            i <= v.len(),
            out@ == seq!['"'] + escaped_all(v@.take(i as int)),
        decreases v.len() - i,
    {
        let ghost before = out@;
        push_escaped(&mut out, v[i]);
        assert(v@.take(i + 1).drop_last() =~= v@.take(i as int));
        i = i + 1;
        assert(out@ =~= seq!['"'] + escaped_all(v@.take(i as int)));
    }
    assert(v@.take(v.len() as int) =~= v@);
    push_char(&mut out, '"');
    out
}

/// A character that may stand as it is in the literal: neither `<` nor a
/// control character.
pub open spec fn plain(c: char) -> bool {
    c != '<' && (c as u32) >= 0x20
}

proof fn lemma_escaped_plain(c: char)
    ensures
        forall|i: int| 0 <= i < escaped(c).len() ==> plain(#[trigger] escaped(c)[i]),
{
}

proof fn lemma_escaped_all_plain(s: Seq<char>)
    ensures
        forall|i: int| 0 <= i < escaped_all(s).len() ==> plain(#[trigger] escaped_all(s)[i]),
    decreases s.len(),
{
    if s.len() > 0 {
        lemma_escaped_all_plain(s.drop_last());
        lemma_escaped_plain(s.last());
        let a = escaped_all(s.drop_last());
        let b = escaped(s.last());
        assert forall|i: int| 0 <= i < escaped_all(s).len() implies plain(
            #[trigger] escaped_all(s)[i],
        ) by {
            if i < a.len() {
                assert(escaped_all(s)[i] == a[i]);
            } else {
                assert(escaped_all(s)[i] == b[i - a.len()]);
            }
        }
    }
}

/// A quoted message holds no `<` and no control character anywhere: nothing
/// in it can end a script or start markup, whatever the message held.
pub proof fn lemma_quoted_is_plain(s: Seq<char>)
    ensures
        forall|i: int| 0 <= i < json_quoted(s).len() ==> plain(#[trigger] json_quoted(s)[i]),
{
    lemma_escaped_all_plain(s);
    let q = json_quoted(s);
    let e = escaped_all(s);
    assert forall|i: int| 0 <= i < q.len() implies plain(#[trigger] q[i]) by {
        if i > 0 && i <= e.len() {
            assert(q[i] == e[i - 1]);
        }
    }
}

/// The value of a hexadecimal digit.
pub open spec fn hex_value(c: char) -> nat {
    if (c as u32) <= 57 {
        ((c as u32) - 48) as nat
    } else if (c as u32) <= 70 {
        ((c as u32) - 55) as nat
    } else {
        ((c as u32) - 87) as nat
    }
}

/// The character a backslash and `e` stand for in a JavaScript string
/// literal: the named control characters for `n`, `r`, `t`, `b`, `f`, `v`;
/// the character with that code for an octal digit (`\0` is NUL; an octal
/// escape is read as its one digit); and `e` itself for anything else.
pub open spec fn short_escape(e: char) -> char {
    if e == 'n' {
        '\n'
    } else if e == 'r' {
        '\r'
    } else if e == 't' {
        '\t'
    } else if e == 'b' {
        '\u{8}'
    } else if e == 'f' {
        '\u{c}'
    } else if e == 'v' {
        '\u{b}'
    } else if 48 <= (e as u32) <= 55 {
        ((e as u32) - 48) as char
    } else {
        e
    }
}

/// What a JavaScript string literal's body stands for: a backslash and `u`
/// with four hexadecimal digits, a backslash and `x` with two, a backslash
/// and one other character, or a character standing for itself.
pub open spec fn unescaped(s: Seq<char>) -> Seq<char>
    decreases s.len(),
{
    if s.len() == 0 {
        seq![]
    } else if s[0] == '\\' && s.len() >= 2 {
        if s[1] == 'u' && s.len() >= 6 {
            seq![
                ((hex_value(s[2]) * 4096 + hex_value(s[3]) * 256 + hex_value(s[4]) * 16
                    + hex_value(s[5])) as u32) as char,
            ] + unescaped(s.subrange(6, s.len() as int))
        } else if s[1] == 'x' && s.len() >= 4 {
            seq![((hex_value(s[2]) * 16 + hex_value(s[3])) as u32) as char] + unescaped(
                s.subrange(4, s.len() as int),
            )
        } else {
            seq![short_escape(s[1])] + unescaped(s.subrange(2, s.len() as int))
        }
    } else {
        seq![s[0]] + unescaped(s.drop_first())
    }
}

proof fn lemma_unescape_one(c: char, rest: Seq<char>)
    ensures
        unescaped(escaped(c) + rest) == seq![c] + unescaped(rest),
{
    let s = escaped(c) + rest;
    if c == '"' || c == '\\' || c == '\n' || c == '\r' || c == '\t' {
        assert(s.subrange(2, s.len() as int) =~= rest);
    } else if c == '<' || (c as u32) < 0x20 {
        assert(s.subrange(6, s.len() as int) =~= rest);
        let u = c as u32;
        assert(hex_value(s[2]) == 0);
        assert(hex_value(s[3]) == 0);
        assert(hex_value(s[4]) * 16 + hex_value(s[5]) == u);
        assert(((u as nat) as u32) as char == c);
    } else {
        assert(s.drop_first() =~= rest);
    }
}

proof fn lemma_unescape_all(s: Seq<char>, rest: Seq<char>)
    ensures
        unescaped(escaped_all(s) + rest) == s + unescaped(rest),
    decreases s.len(),
{
    if s.len() == 0 {
        assert(escaped_all(s) + rest =~= rest);
        assert(s + unescaped(rest) =~= unescaped(rest));
    } else {
        let init = s.drop_last();
        let c = s.last();
        assert(escaped_all(s) + rest =~= escaped_all(init) + (escaped(c) + rest));
        lemma_unescape_all(init, escaped(c) + rest);
        lemma_unescape_one(c, rest);
        assert(init + (seq![c] + unescaped(rest)) =~= s + unescaped(rest));
    }
}

/// A quoted message is a string literal whose value is the message: between
/// the two quotes, the escapes stand for exactly the characters given.
pub proof fn lemma_quoted_round_trip(s: Seq<char>)
    ensures
        json_quoted(s).len() >= 2,
        json_quoted(s)[0] == '"',
        json_quoted(s).last() == '"',
        unescaped(json_quoted(s).subrange(1, json_quoted(s).len() - 1)) == s,
{
    let q = json_quoted(s);
    assert(q.subrange(1, q.len() - 1) =~= escaped_all(s));
    lemma_unescape_all(s, seq![]);
    assert(escaped_all(s) + seq![] =~= escaped_all(s));
    assert(s + unescaped(seq![]) =~= s);
}

/// A character that needs no escape in a string literal.
pub open spec fn needs_no_escape(c: char) -> bool {
    c != '"' && c != '\\' && c != '<' && (c as u32) >= 0x20
}

/// Quoting leaves alone every character that needs no escape: it is written
/// as itself.
pub proof fn lemma_unescaped_chars_kept(c: char)
    requires
        needs_no_escape(c),
    ensures
        escaped(c) == seq![c],
{
}

/// A message of characters that need no escape is quoted as itself between
/// two double quotes.
pub proof fn lemma_plain_message_kept(s: Seq<char>)
    requires
        forall|i: int| 0 <= i < s.len() ==> needs_no_escape(#[trigger] s[i]),
    ensures
        json_quoted(s) == seq!['"'] + s + seq!['"'],
{
    lemma_plain_escapes_kept(s);
}

proof fn lemma_plain_escapes_kept(s: Seq<char>)
    requires
        forall|i: int| 0 <= i < s.len() ==> needs_no_escape(#[trigger] s[i]),
    ensures
        escaped_all(s) == s,
    decreases s.len(),
{
    if s.len() > 0 {
        assert forall|i: int| 0 <= i < s.drop_last().len() implies needs_no_escape(
            #[trigger] s.drop_last()[i],
        ) by {
            assert(s.drop_last()[i] == s[i]);
        }
        lemma_plain_escapes_kept(s.drop_last());
        assert(needs_no_escape(s[s.len() - 1]));
        lemma_unescaped_chars_kept(s.last());
        assert(s.drop_last() + seq![s.last()] =~= s);
    }
}

/// Which of three things the shell is reporting.
#[derive(Clone, Copy, PartialEq, Eq, Debug, Structural)]
pub enum Phase {
    Starting,
    Adopted,
    Failed,
}

/// The name the page knows each phase by.
pub open spec fn phase_name(p: Phase) -> Seq<char> {
    match p {
        Phase::Starting => "starting"@,
        Phase::Adopted => "adopted"@,
        Phase::Failed => "failed"@,
    }
}

pub fn phase_word(p: Phase) -> (w: &'static str)
    ensures
        w@ == phase_name(p),
{
    match p {
        Phase::Starting => "starting",
        Phase::Adopted => "adopted",
        Phase::Failed => "failed",
    }
}

/// The statement that puts a sentence on the waiting-room page: a call of the
/// page's own `kehikkoStatus`, if it has one, with the phase and the message
/// as string literals.
pub open spec fn status_statement(p: Phase, message: Seq<char>) -> Seq<char> {
    "window.kehikkoStatus && window.kehikkoStatus("@ + json_quoted(phase_name(p)) + ", "@
        + json_quoted(message) + ")"@
}

/// The script that says `message` on the page, in phase `p`.
pub fn status_script(p: Phase, message: &str) -> (s: String)
    ensures
        s@ == status_statement(p, message@),
{
    let mut s = String::new();
    s.append("window.kehikkoStatus && window.kehikkoStatus(");
    let name = quote(phase_word(p));
    s.append(name.as_str());
    s.append(", ");
    let text = quote(message);
    s.append(text.as_str());
    s.append(")");
    s
}

/// The address of the host's page.
pub open spec fn page_address(page_port: u16) -> Seq<char> {
    "http://127.0.0.1:"@ + decimal(page_port as nat)
}

pub fn page_url(page_port: u16) -> (s: String)
    ensures
        s@ == page_address(page_port),
{
    let mut s = String::new();
    s.append("http://127.0.0.1:");
    push_decimal(&mut s, page_port as u32);
    s
}

/// The address of the page names its port: after the fixed prefix come
/// decimal digits that read back as the port, and nothing else.
pub proof fn lemma_page_address_names_port(page_port: u16)
    ensures
        page_address(page_port).len() > 17,
        page_address(page_port).subrange(0, 17) == "http://127.0.0.1:"@,
        all_digits(page_address(page_port).subrange(17, page_address(page_port).len() as int)),
        digits_value(page_address(page_port).subrange(17, page_address(page_port).len() as int))
            == page_port,
{
    reveal_strlit("http://127.0.0.1:");
    lemma_decimal_reads_back(page_port as nat);
    let a = page_address(page_port);
    assert(a.subrange(0, 17) =~= "http://127.0.0.1:"@);
    assert(a.subrange(17, a.len() as int) =~= decimal(page_port as nat));
}

/// Different ports have different addresses.
pub proof fn lemma_page_addresses_differ(p: u16, q: u16)
    requires
        p != q,
    ensures
        page_address(p) != page_address(q),
{
    lemma_page_address_names_port(p);
    lemma_page_address_names_port(q);
    if page_address(p) == page_address(q) {
        assert(page_address(p).subrange(17, page_address(p).len() as int) == page_address(
            q,
        ).subrange(17, page_address(q).len() as int));
    }
}

/// Said when a host was already answering and is adopted rather than started.
pub open spec fn adopted_text(page: Seq<char>) -> Seq<char> {
    "Found a host already answering on "@ + page
        + ". Using it — this window will not stop it when you quit, because it did not start it."@
}

pub fn adopted_message(page: &str) -> (s: String)
    ensures
        s@ == adopted_text(page@),
{
    let mut s = String::new();
    s.append("Found a host already answering on ");
    s.append(page);
    s.append(
        ". Using it — this window will not stop it when you quit, because it did not start it.",
    );
    s
}

/// Said when the directory cannot be started: why, where the path came from,
/// and where to put the right one.
pub open spec fn refused_text(r: Refusal, source: Seq<char>, config: Seq<char>) -> Seq<char> {
    refusal_sentence(r) + "\n\nThat path came from "@ + source + ".\n\nSet the right one in "@
        + config
        + " as {\"hostDir\": \"/path/to/kehikko\"}, or run this with KEHIKKO_HOST_DIR set, and reopen the window."@
}

pub fn refused_message(r: &Refusal, source: &str, config: &str) -> (s: String)
    ensures
        s@ == refused_text(*r, source@, config@),
{
    let mut s = r.sentence();
    s.append("\n\nThat path came from ");
    s.append(source);
    s.append(".\n\nSet the right one in ");
    s.append(config);
    s.append(
        " as {\"hostDir\": \"/path/to/kehikko\"}, or run this with KEHIKKO_HOST_DIR set, and reopen the window.",
    );
    s
}

/// Said when the host is being started.
pub open spec fn starting_text(dir: Seq<char>) -> Seq<char> {
    "Starting the host in "@ + dir + "…"@
}

pub fn starting_message(dir: &str) -> (s: String)
    ensures
        s@ == starting_text(dir@),
{
    let mut s = String::new();
    s.append("Starting the host in ");
    s.append(dir);
    s.append("…");
    s
}

/// Said when the script could not be run at all.
pub open spec fn spawn_failed_text(script: Seq<char>, error: Seq<char>) -> Seq<char> {
    "Could not run "@ + script + ": "@ + error
}

pub fn spawn_failed_message(script: &str, error: &str) -> (s: String)
    ensures
        s@ == spawn_failed_text(script@, error@),
{
    let mut s = String::new();
    s.append("Could not run ");
    s.append(script);
    s.append(": ");
    s.append(error);
    s
}

/// Said when the started host did not answer in time.
pub open spec fn timeout_text(dir: Seq<char>, page: Seq<char>) -> Seq<char> {
    "The host was started in "@ + dir + " but nothing answered on "@ + page
        + " within two minutes. Look at the terminal this was launched from: run.sh prints why it failed there, and it is usually a port already held or a failed `bun install`."@
}

pub fn timeout_message(dir: &str, page: &str) -> (s: String)
    ensures
        s@ == timeout_text(dir@, page@),
{
    let mut s = String::new();
    s.append("The host was started in ");
    s.append(dir);
    s.append(" but nothing answered on ");
    s.append(page);
    s.append(
        " within two minutes. Look at the terminal this was launched from: run.sh prints why it failed there, and it is usually a port already held or a failed `bun install`.",
    );
    s
}

/// What the title-bar injection appends to the title when no header matched.
pub const NO_HEADER_MARK: &'static str = "[no header matched]";

/// The line printed when the injection found no header.
pub const NO_HEADER_WARNING: &'static str = "kehikko-desktop: the title-bar injection found no host header, so the window controls are sitting on top of the page. See src/titlebar.rs.";

/// How long after navigating the title is read, in seconds.
pub const HEADER_CHECK_DELAY_SECS: u64 = 8;

/// Whether the window title reports that the injection found no header.
pub fn header_missing(title: &str) -> (b: bool)
    ensures
        b == contains(title@, NO_HEADER_MARK@),
{
    contains_chars(&chars_of(title), &chars_of(NO_HEADER_MARK))
}

} // verus!
