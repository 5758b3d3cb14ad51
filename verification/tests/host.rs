use kehikko_desktop::host::{
    answered, config_path, expand_tilde, host_environment, origin_value, page_port,
    port_from_var, script_path, settings, startable, wait_step, Connection, Probe, Refusal, Wait,
    DEFAULT_API_PORT, ORIGIN_VAR,
};

#[test]
fn config_path_is_under_dot_config() {
    assert_eq!(config_path("/home/u"), "/home/u/.config/kehikko-desktop/config.json");
    assert_eq!(config_path("/home/u/"), "/home/u/.config/kehikko-desktop/config.json");
    assert_eq!(config_path(""), ".config/kehikko-desktop/config.json");
}

#[test]
fn tilde_is_the_home_directory() {
    assert_eq!(expand_tilde("~/work/kehikko", "/home/u"), "/home/u/work/kehikko");
    assert_eq!(expand_tilde("~/", "/home/u"), "/home/u/");
    assert_eq!(expand_tilde("~//abs", "/home/u"), "/abs");
    assert_eq!(expand_tilde("/srv/kehikko", "/home/u"), "/srv/kehikko");
    assert_eq!(expand_tilde("~", "/home/u"), "~");
    assert_eq!(expand_tilde("~user/x", "/home/u"), "~user/x");
}

#[test]
fn port_variable_is_trimmed_and_read() {
    assert_eq!(port_from_var(Some(" 5000 \n")), Some(5000));
    assert_eq!(port_from_var(Some("+80")), Some(80));
    assert_eq!(port_from_var(Some("0065535")), Some(65535));
    assert_eq!(port_from_var(Some("65536")), None);
    assert_eq!(port_from_var(Some("99999999999999999999")), None);
    assert_eq!(port_from_var(Some("+")), None);
    assert_eq!(port_from_var(Some("")), None);
    assert_eq!(port_from_var(Some("-1")), None);
    assert_eq!(port_from_var(Some("80a")), None);
    assert_eq!(port_from_var(Some("8 0")), None);
    assert_eq!(port_from_var(None), None);
}

#[test]
fn variable_directory_comes_first() {
    let s = settings(
        Some("/srv/kehikko"),
        Some("5000"),
        Some(r#"{"hostDir": "/elsewhere", "apiPort": 6000}"#),
        "/home/u",
    );
    assert_eq!(s.dir, "/srv/kehikko");
    assert_eq!(s.api_port, 5000);
    assert_eq!(s.source, "$KEHIKKO_HOST_DIR");

    let s = settings(Some("  /padded  "), None, None, "/home/u");
    assert_eq!(s.dir, "  /padded  ");
    assert_eq!(s.api_port, DEFAULT_API_PORT);
}

#[test]
fn blank_variable_falls_through_to_the_file() {
    let s = settings(
        Some("  \t"),
        Some("5000"),
        Some(r#"{"hostDir": "~/code/kehikko", "apiPort": 6000}"#),
        "/home/u",
    );
    assert_eq!(s.dir, "/home/u/code/kehikko");
    assert_eq!(s.api_port, 6000);
    assert_eq!(s.source, "/home/u/.config/kehikko-desktop/config.json");
}

#[test]
fn file_without_port_takes_the_variable_then_the_default() {
    let s = settings(None, Some("5001"), Some(r#"{"hostDir": "/srv/k"}"#), "/home/u");
    assert_eq!(s.dir, "/srv/k");
    assert_eq!(s.api_port, 5001);
    let s = settings(None, Some("nope"), Some(r#"{"hostDir": "/srv/k"}"#), "/home/u");
    assert_eq!(s.api_port, 4180);
}

#[test]
fn no_answer_is_the_default_guess() {
    let s = settings(None, None, None, "/home/u");
    assert_eq!(s.dir, "/home/u/Projects/kehikko");
    assert_eq!(s.api_port, 4180);
    assert_eq!(s.source, "the default guess (~/Projects/kehikko)");

    let s = settings(None, Some("7000"), Some(r#"{"apiPort": 6000}"#), "/home/u");
    assert_eq!(s.dir, "/home/u/Projects/kehikko");
    assert_eq!(s.api_port, 7000);
    assert_eq!(s.source, "the default guess (~/Projects/kehikko)");
}

#[test]
fn refusal_sentences_name_the_fix() {
    assert_eq!(
        Refusal::NoDirectory("/srv/k".to_string()).sentence(),
        "There is no directory at /srv/k."
    );
    assert_eq!(
        Refusal::NoScript("/srv/k".to_string()).sentence(),
        "/srv/k exists, but has no run.sh in it — so it is probably not the Kehikot host."
    );
    assert_eq!(
        Refusal::NotExecutable("/srv/k/run.sh".to_string()).sentence(),
        "/srv/k/run.sh is not executable. `chmod +x` it and reopen this window."
    );
}

#[test]
fn startable_gives_the_first_reason() {
    let no_dir = Probe { is_dir: false, script_is_file: true, script_mode: 0o755 };
    assert!(matches!(startable("/srv/k", &no_dir), Err(Refusal::NoDirectory(p)) if p == "/srv/k"));
    let no_script = Probe { is_dir: true, script_is_file: false, script_mode: 0o755 };
    assert!(matches!(startable("/srv/k", &no_script), Err(Refusal::NoScript(p)) if p == "/srv/k"));
    let not_exec = Probe { is_dir: true, script_is_file: true, script_mode: 0o644 };
    assert!(matches!(startable("/srv/k", &not_exec), Err(Refusal::NotExecutable(p)) if p == "/srv/k/run.sh"));
    let unreadable = Probe { is_dir: true, script_is_file: true, script_mode: 0 };
    assert!(matches!(startable("/srv/k", &unreadable), Err(Refusal::NotExecutable(_))));
    let owner_only = Probe { is_dir: true, script_is_file: true, script_mode: 0o100 };
    assert!(matches!(startable("/srv/k/", &owner_only), Ok(s) if s == "/srv/k/run.sh"));
    assert_eq!(script_path("/srv/k"), "/srv/k/run.sh");
}

#[test]
fn only_refusals_and_timeouts_mean_nobody_is_there() {
    assert!(answered(Connection::Accepted));
    assert!(answered(Connection::Failed));
    assert!(!answered(Connection::Refused));
    assert!(!answered(Connection::TimedOut));
}

#[test]
fn page_is_one_above_the_api() {
    assert_eq!(page_port(4180), 4181);
    assert_eq!(page_port(0), 1);
    assert_eq!(page_port(65534), 65535);
}

#[test]
fn origin_list_carries_the_browser_origins() {
    assert_eq!(
        origin_value(4181),
        "tauri://localhost http://tauri.localhost http://127.0.0.1:4181 http://localhost:4181"
    );
    assert_eq!(
        origin_value(0),
        "tauri://localhost http://tauri.localhost http://127.0.0.1:0 http://localhost:0"
    );
    assert!(origin_value(4181).ends_with("http://127.0.0.1:4181 http://localhost:4181"));
}

#[test]
fn host_is_told_its_port_and_the_page_origins() {
    let env = host_environment(4180);
    assert_eq!(env.len(), 2);
    assert_eq!(env[0], ("PORT".to_string(), "4180".to_string()));
    assert_eq!(env[1].0, ORIGIN_VAR);
    assert_eq!(env[1].1, origin_value(4181));
}

#[test]
fn waiting_gives_up_only_at_the_deadline() {
    assert!(matches!(wait_step(false, true), Wait::GiveUp));
    assert!(matches!(wait_step(true, true), Wait::Up));
    assert!(matches!(wait_step(true, false), Wait::Again));
}
