//! The two-key reader for the shell's configuration file, and the reading of
//! a port number.
//!
//! The file is `{"hostDir": "…", "apiPort": 4180}`. The reader does not parse
//! JSON: it finds the quoted key, the colon after it, and then either the next
//! quoted run of characters or the run of digits after optional whitespace.

use vstd::prelude::*;

use crate::text::{
    chars_of, decimal, find, find_chars, find_from, is_white, lemma_find_from, matches_at, slice_chars,
    string_of, trim_start, trim_start_chars,
};

verus! {

/// An ASCII decimal digit.
pub open spec fn is_digit(c: char) -> bool {
    48 <= (c as u32) <= 57
}

/// Every character of `ds` is a digit.
pub open spec fn all_digits(ds: Seq<char>) -> bool {
    forall|i: int| 0 <= i < ds.len() ==> is_digit(#[trigger] ds[i])
}

/// The number that the digits `ds` spell in decimal.
pub open spec fn digits_value(ds: Seq<char>) -> nat
    decreases ds.len(),
{
    if ds.len() == 0 {
        0
    } else {
        digits_value(ds.drop_last()) * 10 + ((ds.last() as u32) - 48) as nat
    }
}

/// `t` without the one leading `+` that an unsigned number may carry.
pub open spec fn unsigned_digits(t: Seq<char>) -> Seq<char> {
    if t.len() > 0 && t[0] == '+' {
        t.drop_first()
    } else {
        t
    }
}

/// What `str::parse::<u16>` gives for `t`: an optional `+`, then at least one
/// digit and nothing else, naming a number that fits in 16 bits.
pub open spec fn parse_u16(t: Seq<char>) -> Option<u16> {
    let ds = unsigned_digits(t);
    if ds.len() > 0 && all_digits(ds) && digits_value(ds) <= 65535 {
        Some(digits_value(ds) as u16)
    } else {
        None
    }
}

/// The digits at the front of `s`, up to the first character that is not one.
pub open spec fn leading_digits(s: Seq<char>) -> Seq<char>
    decreases s.len(),
{
    if s.len() > 0 && is_digit(s[0]) {
        seq![s[0]] + leading_digits(s.drop_first())
    } else {
        seq![]
    }
}

/// A key as it is written in the file: between double quotes.
pub open spec fn quoted_key(key: Seq<char>) -> Seq<char> {
    seq!['"'] + key + seq!['"']
}

/// Everything after the first occurrence of the quoted key.
pub open spec fn after_key(text: Seq<char>, key: Seq<char>) -> Option<Seq<char>> {
    match find(text, quoted_key(key)) {
        Some(at) => Some(text.subrange(at + key.len() + 2, text.len() as int)),
        None => None,
    }
}

/// The string value of `key`: after the key, after the next colon, the
/// characters between the next two double quotes.
pub open spec fn string_value(text: Seq<char>, key: Seq<char>) -> Option<Seq<char>> {
    match after_key(text, key) {
        None => None,
        Some(rest) => match find(rest, seq![':']) {
            None => None,
            Some(colon) => match find(rest.subrange(colon, rest.len() as int), seq!['"']) {
                None => None,
                Some(o) => {
                    let open = o + colon + 1;
                    match find(rest.subrange(open, rest.len() as int), seq!['"']) {
                        None => None,
                        Some(c) => Some(rest.subrange(open, c + open)),
                    }
                },
            },
        },
    }
}

/// The number value of `key`: after the key and the next colon, skip
/// whitespace and read the digits there as a 16-bit number.
pub open spec fn number_value(text: Seq<char>, key: Seq<char>) -> Option<u16> {
    match after_key(text, key) {
        None => None,
        Some(rest) => match find(rest, seq![':']) {
            None => None,
            Some(colon) => parse_u16(
                leading_digits(trim_start(rest.subrange(colon + 1, rest.len() as int))),
            ),
        },
    }
}

fn is_ascii_digit(c: char) -> (b: bool)
    ensures
        b == is_digit(c),
{
    let u = c as u32;
    48 <= u && u <= 57
}

/// Reads `t` as a 16-bit unsigned number, as `str::parse::<u16>` does.
pub fn parse_u16_chars(t: &Vec<char>) -> (r: Option<u16>)
    ensures
        r == parse_u16(t@),
{
    let start: usize = if t.len() > 0 && t[0] == '+' {
        1
    } else {
        0
    };
    let ghost ds = t@.subrange(start as int, t.len() as int);
    assert(ds =~= unsigned_digits(t@));
    if start == t.len() {
        return None;
    }
    let mut acc: u32 = 0;
    let mut over = false;
    let mut i = start;
    assert(ds.take(0) =~= seq![]);
    while i < t.len()
        invariant
            start <= i <= t.len(),
            ds == t@.subrange(start as int, t.len() as int),
            ds == unsigned_digits(t@),
            all_digits(ds.take(i - start)),
            !over ==> acc == digits_value(ds.take(i - start)) && acc <= 65535,
            over ==> digits_value(ds.take(i - start)) > 65535,
        decreases t.len() - i,
    {
        let c = t[i];
        if !is_ascii_digit(c) {
            assert(!is_digit(ds[i - start]));
            assert(!all_digits(ds));
            return None;
        }
        let d = c as u32 - 48;
        let ghost k = i - start;
        assert(ds.take(k + 1).drop_last() =~= ds.take(k));
        assert(ds.take(k + 1).last() == c);
        if !over {
            acc = acc * 10 + d;
            if acc > 65535 {
                over = true;
            }
        }
        i = i + 1;
        assert(all_digits(ds.take(i - start))) by {
            assert forall|j: int| 0 <= j < ds.take(i - start).len() implies is_digit(
                #[trigger] ds.take(i - start)[j],
            ) by {
                if j < k {
                    assert(ds.take(i - start)[j] == ds.take(k)[j]);
                }
            }
        }
    }
    assert(ds.take(t.len() - start) =~= ds);
    if over {
        None
    } else {
        Some(acc as u16)
    }
}

/// The digits at the front of `s`.
pub fn leading_digits_chars(s: &Vec<char>) -> (r: Vec<char>)
    ensures
        r@ == leading_digits(s@),
{
    let mut i: usize = 0;
    assert(s@.subrange(0, s.len() as int) =~= s@);
    while i < s.len() && is_ascii_digit(s[i])
        invariant
            i <= s.len(),
            leading_digits(s@) == s@.take(i as int) + leading_digits(
                s@.subrange(i as int, s.len() as int),
            ),
        decreases s.len() - i,
    {
        let ghost rest = s@.subrange(i as int, s.len() as int);
        assert(rest.drop_first() =~= s@.subrange(i + 1, s.len() as int));
        assert(s@.take(i as int) + (seq![rest[0]] + leading_digits(rest.drop_first())) =~= s@.take(
            i + 1,
        ) + leading_digits(rest.drop_first()));
        i = i + 1;
    }
    assert(s@.take(i as int) + seq![] =~= s@.take(i as int));
    slice_chars(s, 0, i)
}

/// The characters after the quoted key, if the key is in the text.
fn after_key_chars(t: &Vec<char>, key: &Vec<char>) -> (r: Option<Vec<char>>)
    ensures
        r matches Some(v) ==> after_key(t@, key@) == Some(v@),
        r is None ==> after_key(t@, key@) is None,
{
    let mut qk: Vec<char> = Vec::new();
    qk.push('"');
    let mut i: usize = 0;
    while i < key.len()
        invariant
            i <= key.len(),
            qk@ == seq!['"'] + key@.take(i as int),
        decreases key.len() - i,
    {
        qk.push(key[i]);
        i = i + 1;
        assert(qk@ =~= seq!['"'] + key@.take(i as int));
    }
    qk.push('"');
    assert(key@.take(key.len() as int) =~= key@);
    assert(qk@ =~= quoted_key(key@));
    proof {
        lemma_find_from(t@, qk@, 0);
    }
    match find_chars(t, &qk, 0) {
        None => None,
        Some(at) => {
            assert(matches_at(t@, qk@, at as int));
            assert(qk.len() == key.len() + 2);
            assert(at + qk@.len() <= t@.len());
            let n = key.len();
            assert(at + n + 2 <= t.len());
            let from = at + n + 2;
            Some(slice_chars(t, from, t.len()))
        },
    }
}

/// The first index at or after `from` of the character `c` in `v`, read as
/// a match of the one-character pattern.
fn find_char(v: &Vec<char>, c: char) -> (r: Option<usize>)
    ensures
        r matches Some(k) ==> find(v@, seq![c]) == Some(k as int) && k < v.len(),
        r is None ==> find(v@, seq![c]) is None,
{
    let pat = vec![c];
    assert(pat@ =~= seq![c]);
    proof {
        lemma_find_from(v@, pat@, 0);
    }
    find_chars(v, &pat, 0)
}

/// The string value of `key` in `text` (`hostDir`, in practice).
pub fn json_string(text: &str, key: &str) -> (r: Option<String>)
    ensures
        r matches Some(v) ==> string_value(text@, key@) == Some(v@),
        r is None ==> string_value(text@, key@) is None,
{
    let t = chars_of(text);
    let k = chars_of(key);
    let rest = match after_key_chars(&t, &k) {
        None => return None,
        Some(rest) => rest,
    };
    let colon = match find_char(&rest, ':') {
        None => return None,
        Some(colon) => colon,
    };
    let from_colon = slice_chars(&rest, colon, rest.len());
    let open = match find_char(&from_colon, '"') {
        None => return None,
        Some(o) => o + colon + 1,
    };
    let from_open = slice_chars(&rest, open, rest.len());
    let close = match find_char(&from_open, '"') {
        None => return None,
        Some(c) => c + open,
    };
    Some(string_of(&slice_chars(&rest, open, close)))
}

/// The number value of `key` in `text` (`apiPort`, in practice).
pub fn json_number(text: &str, key: &str) -> (r: Option<u16>)
    ensures
        r == number_value(text@, key@),
{
    let t = chars_of(text);
    let k = chars_of(key);
    let rest = match after_key_chars(&t, &k) {
        None => return None,
        Some(rest) => rest,
    };
    let colon = match find_char(&rest, ':') {
        None => return None,
        Some(colon) => colon + 1,
    };
    let after = slice_chars(&rest, colon, rest.len());
    let digits = leading_digits_chars(&trim_start_chars(&after));
    parse_u16_chars(&digits)
}

/// The first match at or after `i` is at `k` when there is a match at `k`
/// and none between.
proof fn lemma_find_first(s: Seq<char>, pat: Seq<char>, i: int, k: int)
    requires
        0 <= i <= k,
        matches_at(s, pat, k),
        forall|j: int| i <= j < k ==> !matches_at(s, pat, j),
    ensures
        find_from(s, pat, i) == Some(k),
    decreases k - i,
{
    if i < k {
        lemma_find_first(s, pat, i + 1, k);
    }
}

/// A one-character pattern matches exactly where that character stands.
proof fn lemma_matches_char(s: Seq<char>, c: char, j: int)
    ensures
        matches_at(s, seq![c], j) <==> (0 <= j < s.len() && s[j] == c),
{
    if 0 <= j < s.len() && s[j] == c {
        assert(s.subrange(j, j + 1) =~= seq![c]);
    }
    if matches_at(s, seq![c], j) {
        assert(s.subrange(j, j + 1)[0] == s[j]);
    }
}

/// The first `c` at or after `i` is at `k` when `s[k]` is `c` and nothing
/// between is.
pub proof fn lemma_find_char(s: Seq<char>, c: char, i: int, k: int)
    requires
        0 <= i <= k < s.len(),
        s[k] == c,
        forall|j: int| i <= j < k ==> s[j] != c,
    ensures
        find_from(s, seq![c], i) == Some(k),
{
    lemma_matches_char(s, c, k);
    assert forall|j: int| i <= j < k implies !matches_at(s, seq![c], j) by {
        lemma_matches_char(s, c, j);
    }
    lemma_find_first(s, seq![c], i, k);
}

pub proof fn lemma_decimal_reads_back(n: nat)
    ensures
        decimal(n).len() > 0,
        all_digits(decimal(n)),
        digits_value(decimal(n)) == n,
    decreases n,
{
    if n >= 10 {
        lemma_decimal_reads_back(n / 10);
        let d = decimal(n);
        let init = decimal(n / 10);
        assert(d.drop_last() =~= init);
        assert forall|i: int| 0 <= i < d.len() implies is_digit(#[trigger] d[i]) by {
            if i < init.len() {
                assert(d[i] == init[i]);
            }
        }
        assert(d.last() == crate::text::digit(n % 10));
        assert((d.last() as u32) - 48 == n % 10);
        assert(digits_value(d) == digits_value(init) * 10 + n % 10);
        assert(n == (n / 10) * 10 + n % 10) by (nonlinear_arith);
        assert(digits_value(init) == n / 10);
    } else {
        assert(decimal(n).drop_last() =~= Seq::<char>::empty());
        assert((decimal(n).last() as u32) - 48 == n);
        assert(digits_value(Seq::<char>::empty()) == 0);
        assert(digits_value(decimal(n)) == digits_value(decimal(n).drop_last()) * 10 + n);
    }
}

pub proof fn lemma_leading_digits_stop(x: Seq<char>, y: Seq<char>)
    requires
        all_digits(x),
        y.len() == 0 || !is_digit(y[0]),
    ensures
        leading_digits(x + y) == x,
    decreases x.len(),
{
    if x.len() == 0 {
        assert(x + y =~= y);
    } else {
        assert((x + y).drop_first() =~= x.drop_first() + y);
        assert(all_digits(x.drop_first())) by {
            assert forall|i: int| 0 <= i < x.drop_first().len() implies is_digit(
                #[trigger] x.drop_first()[i],
            ) by {
                assert(x.drop_first()[i] == x[i + 1]);
            }
        }
        lemma_leading_digits_stop(x.drop_first(), y);
        assert(seq![x[0]] + x.drop_first() =~= x);
    }
}

/// The number after the colon in the documented file reads back as the port.
proof fn lemma_port_after_colon(port: u16)
    ensures
        parse_u16(leading_digits(trim_start(seq![' '] + decimal(port as nat) + "}"@))) == Some(
            port,
        ),
{
    reveal_strlit("}");
    let d = decimal(port as nat);
    lemma_decimal_reads_back(port as nat);
    let s = seq![' '] + d + "}"@;
    assert(s.drop_first() =~= d + "}"@);
    assert(is_digit(d[0]));
    assert((d + "}"@)[0] == d[0]);
    assert(trim_start(d + "}"@) == d + "}"@);
    assert(trim_start(s) == d + "}"@);
    lemma_leading_digits_stop(d, "}"@);
    assert(unsigned_digits(d) == d);
}

proof fn lemma_mismatch(s: Seq<char>, pat: Seq<char>, j: int, m: int)
    requires
        0 <= m < pat.len(),
        0 <= j + m < s.len(),
        s[j + m] != pat[m],
    ensures
        !matches_at(s, pat, j),
{
    if matches_at(s, pat, j) {
        assert(s.subrange(j, j + pat.len())[m] == pat[m]);
    }
}

/// The only double quotes before the directory are the key's opening quote
/// and the value's.
proof fn lemma_prefix_quotes(j: int)
    requires
        0 <= j < 13,
        j != 1,
        j != 9,
        j != 12,
    ensures
        "{\"hostDir\": \""@[j] != '"',
{
    reveal_strlit("{\"hostDir\": \"");
    if j == 0 {
    } else if j == 2 {
    } else if j == 3 {
    } else if j == 4 {
    } else if j == 5 {
    } else if j == 6 {
    } else if j == 7 {
    } else if j == 8 {
    } else if j == 10 {
    } else {
        assert(j == 11);
    }
}

/// The configuration file in the shape its documentation gives it.
pub open spec fn config_text(dir: Seq<char>, port: u16) -> Seq<char> {
    "{\"hostDir\": \""@ + dir + "\", \"apiPort\": "@ + decimal(port as nat) + "}"@
}

/// A file in the documented shape, `{"hostDir": "…", "apiPort": …}`, reads
/// back the directory and the port it was written with, for any directory
/// that holds no double quote.
pub proof fn lemma_reads_documented_config(dir: Seq<char>, port: u16)
    requires
        forall|i: int| 0 <= i < dir.len() ==> dir[i] != '"',
    ensures
        string_value(config_text(dir, port), "hostDir"@) == Some(dir),
        number_value(config_text(dir, port), "apiPort"@) == Some(port),
{
    reveal_strlit("{\"hostDir\": \"");
    reveal_strlit("\", \"apiPort\": ");
    reveal_strlit("}");
    reveal_strlit("hostDir");
    reveal_strlit("apiPort");
    let t = config_text(dir, port);
    let l = dir.len() as int;
    let d = decimal(port as nat);
    lemma_decimal_reads_back(port as nat);
    assert(t.len() == 13 + l + 14 + d.len() + 1);
    assert(forall|j: int| 0 <= j < 13 ==> t[j] == "{\"hostDir\": \""@[j]);
    assert(forall|j: int| 0 <= j < l ==> #[trigger] t[13 + j] == dir[j]);
    assert(forall|j: int| 0 <= j < 14 ==> #[trigger] t[13 + l + j] == "\", \"apiPort\": "@[j]);
    assert(forall|j: int| 0 <= j < d.len() ==> #[trigger] t[27 + l + j] == d[j]);

    // The directory.
    let qh = quoted_key("hostDir"@);
    lemma_mismatch(t, qh, 0, 0);
    assert(t.subrange(1, 10) =~= qh);
    lemma_find_first(t, qh, 0, 1);
    let rest = t.subrange(10, t.len() as int);
    assert(rest[0] == ':' && rest[1] == ' ' && rest[2] == '"');
    lemma_find_char(rest, ':', 0, 0);
    assert(rest.subrange(0, rest.len() as int) =~= rest);
    lemma_find_char(rest, '"', 0, 2);
    let tail = rest.subrange(3, rest.len() as int);
    assert(forall|j: int| 0 <= j < l ==> #[trigger] tail[j] == dir[j]);
    assert(tail[l] == '"');
    lemma_find_char(tail, '"', 0, l);
    assert(rest.subrange(3, l + 3) =~= dir);

    // The port.
    let qa = quoted_key("apiPort"@);
    assert(t.subrange(16 + l, 25 + l) =~= qa);
    let after = seq![' '] + d + "}"@;
    if dir == "apiPort"@ {
        assert(t.subrange(12, 21) =~= qa);
        assert forall|j: int| 0 <= j < 12 implies !matches_at(t, qa, j) by {
            if j == 1 || j == 9 {
                lemma_mismatch(t, qa, j, 1);
            } else {
                assert(t[j] == "{\"hostDir\": \""@[j]);
                lemma_prefix_quotes(j);
                lemma_mismatch(t, qa, j, 0);
            }
        }
        lemma_find_first(t, qa, 0, 12);
        let rest = t.subrange(21, t.len() as int);
        assert(forall|j: int| 0 <= j < 11 ==> #[trigger] rest[j] == "\", \"apiPort\": "@[j + 1]);
        assert(rest[11] == ':');
        lemma_find_char(rest, ':', 0, 11);
        assert(rest.subrange(12, rest.len() as int) =~= after);
    } else {
        assert forall|j: int| 0 <= j < 16 + l implies !matches_at(t, qa, j) by {
            if j == 1 || j == 9 {
                lemma_mismatch(t, qa, j, 1);
            } else if j == 12 {
                if l >= 8 {
                    assert(t[20int] == dir[7int]);
                    lemma_mismatch(t, qa, j, 8);
                } else if l == 7 {
                    assert(!(dir =~= "apiPort"@));
                    let m = choose|m: int| 0 <= m < 7 && dir[m] != "apiPort"@[m];
                    assert(t[13 + m] == dir[m]);
                    lemma_mismatch(t, qa, j, m + 1);
                } else {
                    assert(t[13 + l + 0] == '"');
                    lemma_mismatch(t, qa, j, l + 1);
                }
            } else if j == 13 + l {
                assert(t[13 + l + 1] == ',');
                lemma_mismatch(t, qa, j, 1);
            } else if 13 <= j < 13 + l {
                assert(t[13 + (j - 13)] == dir[j - 13]);
                lemma_mismatch(t, qa, j, 0);
            } else if j > 13 + l {
                assert(t[13 + l + (j - 13 - l)] == "\", \"apiPort\": "@[j - 13 - l]);
                lemma_mismatch(t, qa, j, 0);
            } else {
                assert(t[j] == "{\"hostDir\": \""@[j]);
                lemma_prefix_quotes(j);
                lemma_mismatch(t, qa, j, 0);
            }
        }
        lemma_find_first(t, qa, 0, 16 + l);
        let rest = t.subrange(25 + l, t.len() as int);
        assert(rest[0] == ':');
        lemma_find_char(rest, ':', 0, 0);
        assert(rest.subrange(1, rest.len() as int) =~= after);
    }
    lemma_port_after_colon(port);
}

proof fn lemma_trim_start_white(w: Seq<char>, x: Seq<char>)
    requires
        forall|i: int| 0 <= i < w.len() ==> is_white(#[trigger] w[i]),
        x.len() > 0,
        !is_white(x[0]),
    ensures
        trim_start(w + x) == x,
    decreases w.len(),
{
    if w.len() == 0 {
        assert(w + x =~= x);
    } else {
        assert((w + x).drop_first() =~= w.drop_first() + x);
        assert(is_white(w[0]));
        assert forall|i: int| 0 <= i < w.drop_first().len() implies is_white(
            #[trigger] w.drop_first()[i],
        ) by {
            assert(w.drop_first()[i] == w[i + 1]);
        }
        lemma_trim_start_white(w.drop_first(), x);
    }
}

/// The number of a key is the run of digits after its colon: whatever
/// whitespace stands between (none included), the digits are read up to the
/// first character that is not one, and name the port when they fit in 16
/// bits.
pub proof fn lemma_number_after_colon(
    text: Seq<char>,
    key: Seq<char>,
    pre: Seq<char>,
    w: Seq<char>,
    ds: Seq<char>,
    post: Seq<char>,
)
    requires
        text == pre + quoted_key(key) + seq![':'] + w + ds + post,
        forall|j: int| 0 <= j < pre.len() ==> !matches_at(text, quoted_key(key), j),
        forall|i: int| 0 <= i < w.len() ==> is_white(#[trigger] w[i]),
        ds.len() > 0,
        all_digits(ds),
        post.len() == 0 || !is_digit(post[0]),
    ensures
        number_value(text, key) == if digits_value(ds) <= 65535 {
            Some(digits_value(ds) as u16)
        } else {
            None::<u16>
        },
{
    let qk = quoted_key(key);
    let p = pre.len() as int;
    assert(text.subrange(p, p + qk.len()) =~= qk);
    lemma_find_first(text, qk, 0, p);
    let rest = text.subrange(p + key.len() + 2, text.len() as int);
    assert(rest =~= seq![':'] + w + ds + post);
    lemma_find_char(rest, ':', 0, 0);
    let after = rest.subrange(1, rest.len() as int);
    assert(after =~= w + (ds + post));
    assert(is_digit(ds[0]));
    assert((ds + post)[0] == ds[0]);
    lemma_trim_start_white(w, ds + post);
    lemma_leading_digits_stop(ds, post);
    assert(unsigned_digits(ds) == ds);
}

/// The string of a key is what stands between the first two double quotes
/// after its colon, whatever else stands between the colon and the first
/// quote.
pub proof fn lemma_string_after_colon(
    text: Seq<char>,
    key: Seq<char>,
    pre: Seq<char>,
    gap: Seq<char>,
    value: Seq<char>,
    post: Seq<char>,
)
    requires
        text == pre + quoted_key(key) + seq![':'] + gap + seq!['"'] + value + seq!['"'] + post,
        forall|j: int| 0 <= j < pre.len() ==> !matches_at(text, quoted_key(key), j),
        forall|i: int| 0 <= i < gap.len() ==> #[trigger] gap[i] != '"',
        forall|i: int| 0 <= i < value.len() ==> #[trigger] value[i] != '"',
    ensures
        string_value(text, key) == Some(value),
{
    let qk = quoted_key(key);
    let p = pre.len() as int;
    assert(text.subrange(p, p + qk.len()) =~= qk);
    lemma_find_first(text, qk, 0, p);
    let rest = text.subrange(p + key.len() + 2, text.len() as int);
    assert(rest =~= seq![':'] + gap + seq!['"'] + value + seq!['"'] + post);
    lemma_find_char(rest, ':', 0, 0);
    assert(rest.subrange(0, rest.len() as int) =~= rest);
    let g = gap.len() as int;
    assert forall|j: int| 0 <= j < 1 + g implies #[trigger] rest[j] != '"' by {
        if j > 0 {
            assert(rest[j] == gap[j - 1]);
        }
    }
    lemma_find_char(rest, '"', 0, 1 + g);
    let open = g + 2;
    let tail = rest.subrange(open, rest.len() as int);
    assert(tail =~= value + seq!['"'] + post);
    assert forall|j: int| 0 <= j < value.len() implies #[trigger] tail[j] != '"' by {
        assert(tail[j] == value[j]);
    }
    lemma_find_char(tail, '"', 0, value.len() as int);
    assert(rest.subrange(open, value.len() + open) =~= value);
}

} // verus!
