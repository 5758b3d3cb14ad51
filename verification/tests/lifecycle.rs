use kehikko_desktop::host::Refusal;
use kehikko_desktop::lifecycle::{
    begin_reap, exit_status, fullscreen_update, FullscreenWatch, reap_step, setup_start, setup_step, Effect, Launch, Reap,
    Reaping, Setup, SetupEvent,
};
use kehikko_desktop::status::Phase;

fn launch() -> Launch {
    Launch {
        dir: "/srv/k".to_string(),
        source: "$KEHIKKO_HOST_DIR".to_string(),
        config: "/h/.config/kehikko-desktop/config.json".to_string(),
        page_port: 4181,
    }
}

fn owns(effects: &[Effect]) -> Vec<i32> {
    effects
        .iter()
        .filter_map(|e| match e {
            Effect::Own { group } => Some(*group),
            _ => None,
        })
        .collect()
}

#[test]
fn an_answering_port_is_adopted() {
    let (state, effects) = setup_step(&launch(), setup_start(), SetupEvent::Probed { answering: true });
    assert!(matches!(state, Setup::Finished));
    assert_eq!(effects.len(), 2);
    assert!(matches!(&effects[0], Effect::Say { phase: Phase::Adopted, message } if message.starts_with("Found a host already answering on http://127.0.0.1:4181.")));
    assert!(matches!(&effects[1], Effect::Navigate { page } if page == "http://127.0.0.1:4181"));
    assert!(owns(&effects).is_empty());
    let (state, later) = setup_step(&launch(), state, SetupEvent::Spawned { group: Ok(77) });
    assert!(matches!(state, Setup::Finished));
    assert!(later.is_empty());
}

#[test]
fn a_refused_directory_is_said() {
    let (state, effects) = setup_step(&launch(), Setup::Probing, SetupEvent::Probed { answering: false });
    assert!(matches!(state, Setup::Checking));
    assert!(matches!(effects.as_slice(), [Effect::Check]));
    let (state, effects) = setup_step(
        &launch(),
        state,
        SetupEvent::Checked { verdict: Err(Refusal::NoScript("/srv/k".to_string())) },
    );
    assert!(matches!(state, Setup::Finished));
    assert!(matches!(&effects[..], [Effect::Say { phase: Phase::Failed, message }] if message.starts_with("/srv/k exists, but has no run.sh") && message.contains("That path came from $KEHIKKO_HOST_DIR.")));
}

#[test]
fn a_started_host_is_owned_and_awaited() {
    let l = launch();
    let (s, _) = setup_step(&l, Setup::Probing, SetupEvent::Probed { answering: false });
    let (s, effects) = setup_step(&l, s, SetupEvent::Checked { verdict: Ok("/srv/k/run.sh".to_string()) });
    assert!(matches!(&s, Setup::Spawning { script } if script == "/srv/k/run.sh"));
    assert!(matches!(&effects[0], Effect::Say { phase: Phase::Starting, message } if message == "Starting the host in /srv/k…"));
    assert!(matches!(&effects[1], Effect::Spawn { script } if script == "/srv/k/run.sh"));
    let (s, effects) = setup_step(&l, s, SetupEvent::Spawned { group: Ok(4242) });
    assert!(matches!(s, Setup::Waiting));
    assert_eq!(owns(&effects), vec![4242]);
    assert!(matches!(effects[1], Effect::AwaitPage));
    let (s, effects) = setup_step(&l, s, SetupEvent::Waited { up: true });
    assert!(matches!(s, Setup::Finished));
    assert!(matches!(&effects[..], [Effect::Navigate { page }] if page == "http://127.0.0.1:4181"));
}

#[test]
fn failures_after_the_check_are_said() {
    let l = launch();
    let (s, effects) = setup_step(
        &l,
        Setup::Spawning { script: "/srv/k/run.sh".to_string() },
        SetupEvent::Spawned { group: Err("No such file or directory (os error 2)".to_string()) },
    );
    assert!(matches!(s, Setup::Finished));
    assert!(matches!(&effects[..], [Effect::Say { phase: Phase::Failed, message }] if message == "Could not run /srv/k/run.sh: No such file or directory (os error 2)"));
    let (s, effects) = setup_step(&l, Setup::Waiting, SetupEvent::Waited { up: false });
    assert!(matches!(s, Setup::Finished));
    assert!(matches!(&effects[..], [Effect::Say { phase: Phase::Failed, message }] if message.starts_with("The host was started in /srv/k but nothing answered on http://127.0.0.1:4181 within two minutes.")));
}

#[test]
fn events_out_of_turn_change_nothing() {
    let (s, effects) = setup_step(&launch(), Setup::Checking, SetupEvent::Waited { up: true });
    assert!(matches!(s, Setup::Checking));
    assert!(effects.is_empty());
}

#[test]
fn letting_go_of_nothing_sends_nothing() {
    let (state, action) = begin_reap(0);
    assert_eq!(state, Reaping::Done);
    assert_eq!(action, Reap::Nothing);
    assert_eq!(reap_step(state, true, true), (Reaping::Done, Reap::Nothing));
    assert_eq!(reap_step(state, false, true), (Reaping::Done, Reap::Nothing));
}

#[test]
fn term_then_grace_then_kill() {
    let (state, action) = begin_reap(812);
    assert_eq!(action, Reap::Terminate { group: 812 });
    let (state, action) = reap_step(state, true, true);
    assert_eq!(action, Reap::Pause);
    let (state, action) = reap_step(state, false, true);
    assert_eq!(action, Reap::Kill { group: 812 });
    assert_eq!(state, Reaping::Done);
    assert_eq!(reap_step(state, false, true).1, Reap::Nothing);
}

#[test]
fn a_group_that_stops_is_not_killed() {
    let (state, _) = begin_reap(812);
    assert_eq!(reap_step(state, true, false), (Reaping::Done, Reap::Nothing));
}

#[test]
fn fullscreen_is_said_only_on_a_change() {
    assert_eq!(fullscreen_update(false, false), None);
    assert_eq!(fullscreen_update(true, true), None);
    assert_eq!(
        fullscreen_update(false, true),
        Some("document.documentElement.dataset.kehikkoFullscreen = \"yes\"".to_string())
    );
    assert_eq!(
        fullscreen_update(true, false),
        Some("document.documentElement.dataset.kehikkoFullscreen = \"no\"".to_string())
    );
}

#[test]
fn watch_tells_the_page_the_current_state() {
    let (mut watch, first) = FullscreenWatch::start(false);
    assert_eq!(first, "document.documentElement.dataset.kehikkoFullscreen = \"no\"");
    assert_eq!(watch.resized(false), None);
    assert_eq!(
        watch.resized(true),
        Some("document.documentElement.dataset.kehikkoFullscreen = \"yes\"".to_string())
    );
    assert_eq!(watch.resized(true), None);
    assert_eq!(
        watch.resized(false),
        Some("document.documentElement.dataset.kehikkoFullscreen = \"no\"".to_string())
    );
}

#[test]
fn signal_exit_status() {
    assert_eq!(exit_status(2), 130);
    assert_eq!(exit_status(15), 143);
}
