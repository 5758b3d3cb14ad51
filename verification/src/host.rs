//! Where the host is, whether a directory can be started, whether a port is
//! answered, and what the started host is told.
//!
//! Everything here decides from values; reading the environment, the file
//! system and the network is left to the caller, which hands the answers in.

use vstd::prelude::*;

use crate::json::{json_number, json_string, number_value, parse_u16, parse_u16_chars, string_value};
use crate::path::{join, join_chars, join_str};
use crate::text::{chars_of, decimal, push_decimal, string_of, trim, trim_chars};

verus! {

/// The API port. The page is always this plus one.
pub const DEFAULT_API_PORT: u16 = 4180;

/// The environment variable every module reads to decide who may frame it.
pub const ORIGIN_VAR: &'static str = "ROADMAP_ORIGIN";

/// The port the host's page is served on: the API port plus one.
pub fn page_port(api_port: u16) -> (p: u16)
    requires
        api_port < u16::MAX,
    ensures
        p == api_port + 1,
{
    api_port + 1
}

/// The directory that holds the shell's configuration.
pub open spec fn config_dir(home: Seq<char>) -> Seq<char> {
    join(join(home, ".config"@), "kehikko-desktop"@)
}

/// The configuration file: `~/.config/kehikko-desktop/config.json`.
pub open spec fn config_file(home: Seq<char>) -> Seq<char> {
    join(config_dir(home), "config.json"@)
}

pub(crate) fn config_dir_chars(home: &str) -> (r: Vec<char>)
    ensures
        r@ == config_dir(home@),
{
    join_str(&join_str(&chars_of(home), ".config"), "kehikko-desktop")
}

/// The configuration file, under the home directory `home`.
pub fn config_path(home: &str) -> (r: String)
    ensures
        r@ == config_file(home@),
{
    string_of(&join_str(&config_dir_chars(home), "config.json"))
}

/// A path with a leading `~/` read as the home directory.
pub open spec fn tilde_expanded(p: Seq<char>, home: Seq<char>) -> Seq<char> {
    if p.len() >= 2 && p[0] == '~' && p[1] == '/' {
        join(home, p.subrange(2, p.len() as int))
    } else {
        p
    }
}

/// `p` with a leading `~/` replaced by the home directory `home`.
pub fn expand_tilde(p: &str, home: &str) -> (r: String)
    ensures
        r@ == tilde_expanded(p@, home@),
{
    let v = chars_of(p);
    if v.len() >= 2 && v[0] == '~' && v[1] == '/' {
        let mut rest: Vec<char> = Vec::new();
        let mut i: usize = 2;
        while i < v.len()
            invariant
                2 <= i <= v.len(),
                rest@ == v@.subrange(2, i as int),
            decreases v.len() - i,
        {
            rest.push(v[i]);
            i = i + 1;
            assert(rest@ =~= v@.subrange(2, i as int));
        }
        string_of(&join_chars(&chars_of(home), &rest))
    } else {
        string_of(&v)
    }
}

/// What the port variable says, if it names a port.
pub open spec fn port_of_var(var: Option<Seq<char>>) -> Option<u16> {
    match var {
        Some(s) => parse_u16(trim(s)),
        None => None,
    }
}

/// A port, or the default one.
pub open spec fn or_default_port(p: Option<u16>) -> u16 {
    match p {
        Some(p) => p,
        None => DEFAULT_API_PORT,
    }
}

/// Reads the value of `KEHIKKO_API_PORT`: trimmed, then read as a port.
pub fn port_from_var(var: Option<&str>) -> (r: Option<u16>)
    ensures
        r == port_of_var(
            match var {
                Some(s) => Some(s@),
                None => None,
            },
        ),
{
    match var {
        Some(s) => parse_u16_chars(&trim_chars(&chars_of(s))),
        None => None,
    }
}

/// What is known about where to start the host, and how it came to be known.
pub struct Settings {
    pub dir: String,
    pub api_port: u16,
    /// Which of the three sources answered.
    pub source: String,
}

/// The three sources of the host directory, in order: the `KEHIKKO_HOST_DIR`
/// variable when it holds more than whitespace; the `hostDir` key of the
/// configuration file, with `~/` expanded; and `~/Projects/kehikko`, a guess.
/// The port comes from the file's `apiPort` where the file answered, then from
/// `KEHIKKO_API_PORT`, then the default. Given as (directory, port, source).
pub open spec fn resolved_settings(
    dir_var: Option<Seq<char>>,
    port_var: Option<Seq<char>>,
    config: Option<Seq<char>>,
    home: Seq<char>,
) -> (Seq<char>, u16, Seq<char>) {
    if dir_var is Some && trim(dir_var->0).len() > 0 {
        (dir_var->0, or_default_port(port_of_var(port_var)), "$KEHIKKO_HOST_DIR"@)
    } else if config is Some && string_value(config->0, "hostDir"@) is Some {
        (
            tilde_expanded(string_value(config->0, "hostDir"@)->0, home),
            match number_value(config->0, "apiPort"@) {
                Some(p) => p,
                None => or_default_port(port_of_var(port_var)),
            },
            config_file(home),
        )
    } else {
        (
            join(join(home, "Projects"@), "kehikko"@),
            or_default_port(port_of_var(port_var)),
            "the default guess (~/Projects/kehikko)"@,
        )
    }
}

pub open spec fn opt_view(o: Option<&str>) -> Option<Seq<char>> {
    match o {
        Some(s) => Some(s@),
        None => None,
    }
}

/// Where the host lives, from the value of `KEHIKKO_HOST_DIR`, the value of
/// `KEHIKKO_API_PORT`, the text of the configuration file and the home
/// directory (each `None` where it could not be read).
pub fn settings(
    dir_var: Option<&str>,
    port_var: Option<&str>,
    config: Option<&str>,
    home: &str,
) -> (s: Settings)
    ensures
        (s.dir@, s.api_port, s.source@) == resolved_settings(
            opt_view(dir_var),
            opt_view(port_var),
            opt_view(config),
            home@,
        ),
{
    if let Some(dir) = dir_var {
        if trim_chars(&chars_of(dir)).len() > 0 {
            let port = match port_from_var(port_var) {
                Some(p) => p,
                None => DEFAULT_API_PORT,
            };
            return Settings { dir: string_of(&chars_of(dir)), api_port: port, source: string_of(&chars_of("$KEHIKKO_HOST_DIR")) };
        }
    }
    if let Some(text) = config {
        if let Some(dir) = json_string(text, "hostDir") {
            let port = match json_number(text, "apiPort") {
                Some(p) => p,
                None => match port_from_var(port_var) {
                    Some(p) => p,
                    None => DEFAULT_API_PORT,
                },
            };
            return Settings {
                dir: expand_tilde(dir.as_str(), home),
                api_port: port,
                source: config_path(home),
            };
        }
    }
    let port = match port_from_var(port_var) {
        Some(p) => p,
        None => DEFAULT_API_PORT,
    };
    Settings {
        dir: string_of(&join_str(&join_str(&chars_of(home), "Projects"), "kehikko")),
        api_port: port,
        source: string_of(&chars_of("the default guess (~/Projects/kehikko)")),
    }
}

/// Why a directory cannot be started, in the words the person needs.
pub enum Refusal {
    NoDirectory(String),
    NoScript(String),
    NotExecutable(String),
}

/// The sentence for each refusal; every one names the fix.
pub open spec fn refusal_sentence(r: Refusal) -> Seq<char> {
    match r {
        Refusal::NoDirectory(p) => "There is no directory at "@ + p@ + "."@,
        Refusal::NoScript(p) => p@
            + " exists, but has no run.sh in it — so it is probably not the Kehikot host."@,
        Refusal::NotExecutable(p) => p@
            + " is not executable. `chmod +x` it and reopen this window."@,
    }
}

impl Refusal {
    pub fn sentence(&self) -> (s: String)
        ensures
            s@ == refusal_sentence(*self),
    {
        let mut s = String::new();
        match self {
            Refusal::NoDirectory(p) => {
                s.append("There is no directory at ");
                s.append(p.as_str());
                s.append(".");
            },
            Refusal::NoScript(p) => {
                s.append(p.as_str());
                s.append(
                    " exists, but has no run.sh in it — so it is probably not the Kehikot host.",
                );
            },
            Refusal::NotExecutable(p) => {
                s.append(p.as_str());
                s.append(" is not executable. `chmod +x` it and reopen this window.");
            },
        }
        s
    }
}

/// The script a host directory is started with.
pub open spec fn script_of(dir: Seq<char>) -> Seq<char> {
    join(dir, "run.sh"@)
}

/// The path of `run.sh` in `dir`.
pub fn script_path(dir: &str) -> (r: String)
    ensures
        r@ == script_of(dir@),
{
    string_of(&join_str(&chars_of(dir), "run.sh"))
}

/// What the file system says about a candidate host directory.
pub struct Probe {
    /// `dir` is a directory.
    pub is_dir: bool,
    /// `dir/run.sh` is a regular file.
    pub script_is_file: bool,
    /// The permission bits of `dir/run.sh`, or 0 where they could not be read.
    pub script_mode: u32,
}

/// Some execute bit is set in `mode`.
pub open spec fn executable(mode: u32) -> bool {
    mode & 0o111 != 0
}

/// A directory is startable when it holds an executable `run.sh`; the answer
/// is that script, or the first of the three reasons it is not.
pub fn startable(dir: &str, probe: &Probe) -> (r: Result<String, Refusal>)
    ensures
        !probe.is_dir ==> (r matches Err(Refusal::NoDirectory(p)) && p@ == dir@),
        probe.is_dir && !probe.script_is_file ==> (r matches Err(Refusal::NoScript(p)) && p@
            == dir@),
        probe.is_dir && probe.script_is_file && !executable(probe.script_mode) ==> (r matches Err(
            Refusal::NotExecutable(p),
        ) && p@ == script_of(dir@)),
        probe.is_dir && probe.script_is_file && executable(probe.script_mode) ==> (r matches Ok(s)
            && s@ == script_of(dir@)),
{
    if !probe.is_dir {
        return Err(Refusal::NoDirectory(string_of(&chars_of(dir))));
    }
    let script = script_path(dir);
    if !probe.script_is_file {
        return Err(Refusal::NoScript(string_of(&chars_of(dir))));
    }
    if probe.script_mode & 0o111 == 0 {
        return Err(Refusal::NotExecutable(script));
    }
    Ok(script)
}

/// How an attempt to connect to a local port ended.
pub enum Connection {
    Accepted,
    Refused,
    TimedOut,
    /// Any other error.
    Failed,
}

/// Whether something is taken to be answering on the port: anything but a
/// refusal or a timeout counts.
pub fn answered(c: Connection) -> (b: bool)
    ensures
        b == !(c is Refused || c is TimedOut),
{
    match c {
        Connection::Refused | Connection::TimedOut => false,
        _ => true,
    }
}

/// How long a connection attempt may take, in milliseconds.
pub const PROBE_TIMEOUT_MS: u64 = 300;

/// How long a started host is given to answer, in seconds.
pub const STARTUP_BUDGET_SECS: u64 = 120;

/// How long to wait between two probes while the host starts, in milliseconds.
pub const POLL_INTERVAL_MS: u64 = 250;

/// What to do while waiting for a started host.
pub enum Wait {
    Up,
    GiveUp,
    Again,
}

/// One round of waiting: past the deadline, give up; otherwise the page is
/// up if it answered, and the wait goes on if it did not.
pub fn wait_step(before_deadline: bool, answering: bool) -> (w: Wait)
    ensures
        !before_deadline ==> w is GiveUp,
        before_deadline && answering ==> w is Up,
        before_deadline && !answering ==> w is Again,
{
    if !before_deadline {
        Wait::GiveUp
    } else if answering {
        Wait::Up
    } else {
        Wait::Again
    }
}

/// The origins the shell's own window can have.
pub open spec fn shell_origins() -> Seq<char> {
    "tauri://localhost http://tauri.localhost "@
}

/// The origins a browser tab on the page has, which is also what every module
/// allows when the variable is not set.
pub open spec fn browser_origins(page_port: u16) -> Seq<char> {
    "http://127.0.0.1:"@ + decimal(page_port as nat) + " http://localhost:"@ + decimal(
        page_port as nat,
    )
}

/// What goes into `ROADMAP_ORIGIN`: the shell's origins and the browser's.
pub open spec fn origin_list(page_port: u16) -> Seq<char> {
    shell_origins() + browser_origins(page_port)
}

/// The value of `ROADMAP_ORIGIN` for a host whose page is on `page_port`.
pub fn origin_value(page_port: u16) -> (r: String)
    ensures
        r@ == origin_list(page_port),
{
    let mut s = String::new();
    s.append("tauri://localhost http://tauri.localhost ");
    s.append("http://127.0.0.1:");
    push_decimal(&mut s, page_port as u32);
    s.append(" http://localhost:");
    push_decimal(&mut s, page_port as u32);
    assert(s@ =~= origin_list(page_port));
    s
}

/// The variables the host is started with: `PORT` is the API port and
/// `ROADMAP_ORIGIN` the origin list for the page, one port above it.
pub fn host_environment(api_port: u16) -> (env: Vec<(String, String)>)
    requires
        api_port < u16::MAX,
    ensures
        env@.len() == 2,
        env@[0].0@ == "PORT"@,
        env@[0].1@ == decimal(api_port as nat),
        env@[1].0@ == ORIGIN_VAR@,
        env@[1].1@ == origin_list((api_port + 1) as u16),
{
    let mut port = String::new();
    push_decimal(&mut port, api_port as u32);
    assert(port@ =~= decimal(api_port as nat));
    let mut env: Vec<(String, String)> = Vec::new();
    env.push((string_of(&chars_of("PORT")), port));
    env.push((string_of(&chars_of(ORIGIN_VAR)), origin_value(page_port(api_port))));
    env
}

/// Setting the variable replaces the modules' default rather than adding to
/// it, so the browser's origins are carried along: the list ends with exactly
/// what a module allows when the variable is not set.
pub proof fn lemma_browser_origins_kept(page_port: u16)
    ensures
        origin_list(page_port).subrange(
            shell_origins().len() as int,
            origin_list(page_port).len() as int,
        ) == browser_origins(page_port),
        origin_list(page_port).subrange(0, shell_origins().len() as int) == shell_origins(),
{
    assert(origin_list(page_port).subrange(
        shell_origins().len() as int,
        origin_list(page_port).len() as int,
    ) =~= browser_origins(page_port));
    assert(origin_list(page_port).subrange(0, shell_origins().len() as int) =~= shell_origins());
}

/// The file's port wins: when the directory comes from the configuration
/// file and its `apiPort` reads as a port, that is the port, whatever the
/// port variable holds or whether it is set at all.
pub proof fn lemma_file_port_wins(
    dir_var: Option<Seq<char>>,
    port_var: Option<Seq<char>>,
    config: Seq<char>,
    home: Seq<char>,
    port: u16,
)
    requires
        !(dir_var is Some && trim(dir_var->0).len() > 0),
        string_value(config, "hostDir"@) is Some,
        number_value(config, "apiPort"@) == Some(port),
    ensures
        resolved_settings(dir_var, port_var, Some(config), home).1 == port,
        resolved_settings(dir_var, None, Some(config), home).1 == port,
        resolved_settings(dir_var, port_var, Some(config), home).2 == config_file(home),
{
}

/// Without a port anywhere, the port is the default one; the variable's port
/// is used only when the file has none.
pub proof fn lemma_port_fallbacks(
    dir_var: Option<Seq<char>>,
    port_var: Option<Seq<char>>,
    config: Option<Seq<char>>,
    home: Seq<char>,
)
    requires
        config is None || number_value(config->0, "apiPort"@) is None || string_value(
            config->0,
            "hostDir"@,
        ) is None || (dir_var is Some && trim(dir_var->0).len() > 0),
    ensures
        resolved_settings(dir_var, port_var, config, home).1 == match port_of_var(port_var) {
            Some(p) => p,
            None => DEFAULT_API_PORT,
        },
        resolved_settings(dir_var, None, config, home).1 == 4180,
{
}

/// A directory named by the variable comes first: whatever the file and the
/// home directory say, the host is where the variable says, as written.
pub proof fn lemma_variable_wins(
    dir: Seq<char>,
    port_var: Option<Seq<char>>,
    config: Option<Seq<char>>,
    home: Seq<char>,
)
    requires
        trim(dir).len() > 0,
    ensures
        resolved_settings(Some(dir), port_var, config, home).0 == dir,
        resolved_settings(Some(dir), port_var, config, home).1 == match port_of_var(port_var) {
            Some(p) => p,
            None => DEFAULT_API_PORT,
        },
{
}

} // verus!
