//! The shell's life, as decisions: opening on a host, and letting it go.
//!
//! Opening runs in steps, each answered by the caller after it has done what
//! the step asked: probe the page's port, look at the host directory, run the
//! script, wait for the page. A host already answering is adopted — not
//! started, and never stopped, because only what this shell started is
//! recorded as its own. Letting go sends TERM to the group that was recorded,
//! gives it a grace period, and sends KILL only to a group still alive at the
//! end of it.

use vstd::prelude::*;

use crate::host::Refusal;
use crate::json::digits_value;
use crate::status::{
    lemma_page_address_names_port, lemma_page_addresses_differ, adopted_message, adopted_text, page_address, page_url, refused_message, refused_text,
    spawn_failed_message, spawn_failed_text, starting_message, starting_text, timeout_message,
    timeout_text, Phase,
};
use crate::titlebar::{fullscreen_script, fullscreen_statement};

verus! {

/// What the shell knows before it opens: where the host is, where that came
/// from, where the configuration file is, and the page's port.
pub struct Launch {
    pub dir: String,
    pub source: String,
    pub config: String,
    pub page_port: u16,
}

/// Where opening has got to.
pub enum Setup {
    /// The page's port is to be probed.
    Probing,
    /// The host directory is to be looked at.
    Checking,
    /// The script is to be run.
    Spawning { script: String },
    /// The started host is to be waited for.
    Waiting,
    /// Nothing more to do.
    Finished,
}

/// What the caller found out by doing what the last step asked.
pub enum SetupEvent {
    Probed { answering: bool },
    Checked { verdict: Result<String, Refusal> },
    /// The process group of the started script, or why it could not be run.
    Spawned { group: Result<i32, String> },
    Waited { up: bool },
}

/// What the caller is asked to do.
pub enum Effect {
    /// Put a sentence on the waiting-room page.
    Say { phase: Phase, message: String },
    /// Send the window to the host's page.
    Navigate { page: String },
    /// Look at the host directory.
    Check,
    /// Run the script in its own process group.
    Spawn { script: String },
    /// Record the group as this shell's own, to be stopped on the way out.
    Own { group: i32 },
    /// Wait for the page to answer.
    AwaitPage,
}

pub enum SetupView {
    Probing,
    Checking,
    Spawning { script: Seq<char> },
    Waiting,
    Finished,
}

pub enum EventView {
    Probed { answering: bool },
    Checked { verdict: Result<Seq<char>, Refusal> },
    Spawned { group: Result<i32, Seq<char>> },
    Waited { up: bool },
}

pub enum EffectView {
    Say { phase: Phase, message: Seq<char> },
    Navigate { page: Seq<char> },
    Check,
    Spawn { script: Seq<char> },
    Own { group: i32 },
    AwaitPage,
}

impl View for Setup {
    type V = SetupView;

    open spec fn view(&self) -> SetupView {
        match self {
            Setup::Probing => SetupView::Probing,
            Setup::Checking => SetupView::Checking,
            Setup::Spawning { script } => SetupView::Spawning { script: script@ },
            Setup::Waiting => SetupView::Waiting,
            Setup::Finished => SetupView::Finished,
        }
    }
}

impl View for SetupEvent {
    type V = EventView;

    open spec fn view(&self) -> EventView {
        match self {
            SetupEvent::Probed { answering } => EventView::Probed { answering: *answering },
            SetupEvent::Checked { verdict } => EventView::Checked {
                verdict: match verdict {
                    Ok(s) => Ok(s@),
                    Err(r) => Err(*r),
                },
            },
            SetupEvent::Spawned { group } => EventView::Spawned {
                group: match group {
                    Ok(g) => Ok(*g),
                    Err(e) => Err(e@),
                },
            },
            SetupEvent::Waited { up } => EventView::Waited { up: *up },
        }
    }
}

impl View for Effect {
    type V = EffectView;

    open spec fn view(&self) -> EffectView {
        match self {
            Effect::Say { phase, message } => EffectView::Say { phase: *phase, message: message@ },
            Effect::Navigate { page } => EffectView::Navigate { page: page@ },
            Effect::Check => EffectView::Check,
            Effect::Spawn { script } => EffectView::Spawn { script: script@ },
            Effect::Own { group } => EffectView::Own { group: *group },
            Effect::AwaitPage => EffectView::AwaitPage,
        }
    }
}

/// The effects of a list, as values.
pub open spec fn effects_view(v: Seq<Effect>) -> Seq<EffectView> {
    v.map_values(|e: Effect| e@)
}

/// One step of opening.
///
/// - A port that answers is adopted: say so and go to the page; nothing is
///   started and nothing is recorded.
/// - Otherwise the directory is looked at; a refusal is said and ends it.
/// - A startable directory is announced and its script run.
/// - A script that could not run is said; one that ran has its group recorded
///   as this shell's own, and the page is waited for.
/// - A page that came up is navigated to; one that did not is said.
/// - Any other pairing of step and event changes nothing.
pub open spec fn next(launch: Launch, state: SetupView, event: EventView) -> (
    SetupView,
    Seq<EffectView>,
) {
    let page = page_address(launch.page_port);
    match (state, event) {
        (SetupView::Probing, EventView::Probed { answering }) => if answering {
            (
                SetupView::Finished,
                seq![
                    EffectView::Say { phase: Phase::Adopted, message: adopted_text(page) },
                    EffectView::Navigate { page },
                ],
            )
        } else {
            (SetupView::Checking, seq![EffectView::Check])
        },
        (SetupView::Checking, EventView::Checked { verdict }) => match verdict {
            Err(r) => (
                SetupView::Finished,
                seq![
                    EffectView::Say {
                        phase: Phase::Failed,
                        message: refused_text(r, launch.source@, launch.config@),
                    },
                ],
            ),
            Ok(script) => (
                SetupView::Spawning { script },
                seq![
                    EffectView::Say { phase: Phase::Starting, message: starting_text(launch.dir@) },
                    EffectView::Spawn { script },
                ],
            ),
        },
        (SetupView::Spawning { script }, EventView::Spawned { group }) => match group {
            Err(e) => (
                SetupView::Finished,
                seq![
                    EffectView::Say {
                        phase: Phase::Failed,
                        message: spawn_failed_text(script, e),
                    },
                ],
            ),
            Ok(g) => (SetupView::Waiting, seq![EffectView::Own { group: g }, EffectView::AwaitPage]),
        },
        (SetupView::Waiting, EventView::Waited { up }) => if up {
            (SetupView::Finished, seq![EffectView::Navigate { page }])
        } else {
            (
                SetupView::Finished,
                seq![
                    EffectView::Say {
                        phase: Phase::Failed,
                        message: timeout_text(launch.dir@, page),
                    },
                ],
            )
        },
        _ => (state, seq![]),
    }
}

/// Where opening starts, and what it asks for first: the page's port probed.
pub fn setup_start() -> (s: Setup)
    ensures
        s@ == SetupView::Probing,
{
    Setup::Probing
}

/// One step of opening: the next step, and what the caller is to do.
pub fn setup_step(launch: &Launch, state: Setup, event: SetupEvent) -> (r: (Setup, Vec<Effect>))
    ensures
        (r.0@, effects_view(r.1@)) == next(*launch, state@, event@),
{
    let ghost expected = next(*launch, state@, event@);
    let mut effects: Vec<Effect> = Vec::new();
    let next_state = match (state, event) {
        (Setup::Probing, SetupEvent::Probed { answering }) => {
            if answering {
                let page = page_url(launch.page_port);
                effects.push(
                    Effect::Say { phase: Phase::Adopted, message: adopted_message(page.as_str()) },
                );
                effects.push(Effect::Navigate { page });
                Setup::Finished
            } else {
                effects.push(Effect::Check);
                Setup::Checking
            }
        },
        (Setup::Checking, SetupEvent::Checked { verdict }) => match verdict {
            Err(r) => {
                let message = refused_message(&r, launch.source.as_str(), launch.config.as_str());
                effects.push(Effect::Say { phase: Phase::Failed, message });
                Setup::Finished
            },
            Ok(script) => {
                effects.push(
                    Effect::Say {
                        phase: Phase::Starting,
                        message: starting_message(launch.dir.as_str()),
                    },
                );
                let announced = script.clone();
                effects.push(Effect::Spawn { script: announced });
                Setup::Spawning { script }
            },
        },
        (Setup::Spawning { script }, SetupEvent::Spawned { group }) => match group {
            Err(e) => {
                let message = spawn_failed_message(script.as_str(), e.as_str());
                effects.push(Effect::Say { phase: Phase::Failed, message });
                Setup::Finished
            },
            Ok(g) => {
                effects.push(Effect::Own { group: g });
                effects.push(Effect::AwaitPage);
                Setup::Waiting
            },
        },
        (Setup::Waiting, SetupEvent::Waited { up }) => {
            let page = page_url(launch.page_port);
            if up {
                effects.push(Effect::Navigate { page });
            } else {
                let message = timeout_message(launch.dir.as_str(), page.as_str());
                effects.push(Effect::Say { phase: Phase::Failed, message });
            }
            Setup::Finished
        },
        (state, _) => state,
    };
    assert(effects_view(effects@) =~= expected.1);
    (next_state, effects)
}

/// How long a group is given to stop after TERM, in seconds.
pub const GRACE_SECS: u64 = 5;

/// How often a stopping group is looked at, in milliseconds.
pub const REAP_POLL_MS: u64 = 100;

/// Where letting go has got to.
#[derive(Clone, Copy, PartialEq, Eq, Debug, Structural)]
pub enum Reaping {
    /// TERM was sent to this group; it has not been seen to stop.
    Stopping { group: i32 },
    /// Nothing more to send.
    Done,
}

/// What the caller is asked to do while letting go.
#[derive(Clone, Copy, PartialEq, Eq, Debug, Structural)]
pub enum Reap {
    Nothing,
    /// Send TERM to the group.
    Terminate { group: i32 },
    /// Sleep a poll interval, then look again.
    Pause,
    /// Send KILL to the group.
    Kill { group: i32 },
}

/// Letting go begins with the group taken out of the shell's record (0 when
/// it started nothing, or has already let go): TERM to a group, nothing at all
/// for 0.
pub open spec fn reap_begin(taken: i32) -> (Reaping, Reap) {
    if taken == 0 {
        (Reaping::Done, Reap::Nothing)
    } else {
        (Reaping::Stopping { group: taken }, Reap::Terminate { group: taken })
    }
}

/// One look at a stopping group: past the grace period it is killed; a group
/// that is gone is left alone; one still alive is given another interval.
pub open spec fn reap_next(state: Reaping, in_grace: bool, alive: bool) -> (Reaping, Reap) {
    match state {
        Reaping::Stopping { group } => if !in_grace {
            (Reaping::Done, Reap::Kill { group })
        } else if !alive {
            (Reaping::Done, Reap::Nothing)
        } else {
            (Reaping::Stopping { group }, Reap::Pause)
        },
        Reaping::Done => (Reaping::Done, Reap::Nothing),
    }
}

/// Begin letting go of the group taken from the record.
pub fn begin_reap(taken: i32) -> (r: (Reaping, Reap))
    ensures
        r == reap_begin(taken),
{
    if taken == 0 {
        (Reaping::Done, Reap::Nothing)
    } else {
        (Reaping::Stopping { group: taken }, Reap::Terminate { group: taken })
    }
}

/// One look at a stopping group; `alive` is only consulted within the grace
/// period.
pub fn reap_step(state: Reaping, in_grace: bool, alive: bool) -> (r: (Reaping, Reap))
    ensures
        r == reap_next(state, in_grace, alive),
{
    match state {
        Reaping::Stopping { group } => {
            if !in_grace {
                (Reaping::Done, Reap::Kill { group })
            } else if !alive {
                (Reaping::Done, Reap::Nothing)
            } else {
                (Reaping::Stopping { group }, Reap::Pause)
            }
        },
        Reaping::Done => (Reaping::Done, Reap::Nothing),
    }
}

/// What the page is told when the window's fullscreen state is read as
/// `now` after it was last told `was`: the fullscreen statement when the
/// state changed, nothing when it did not.
pub open spec fn fullscreen_step(was: bool, now: bool) -> Option<Seq<char>> {
    if was != now {
        Some(fullscreen_statement(now))
    } else {
        None
    }
}

/// A statement to send, as its characters.
pub open spec fn said(r: Option<String>) -> Option<Seq<char>> {
    match r {
        Some(s) => Some(s@),
        None => None,
    }
}

/// What the page must be told when the window is resized: the fullscreen
/// statement, only when fullscreen changed.
pub fn fullscreen_update(was: bool, now: bool) -> (r: Option<String>)
    ensures
        said(r) == fullscreen_step(was, now),
{
    if was != now {
        Some(fullscreen_script(now))
    } else {
        None
    }
}

/// Keeps the page told whether the window is fullscreen: it remembers the
/// state the page was last told.
pub struct FullscreenWatch {
    told: bool,
}

impl FullscreenWatch {
    /// The state the page was last told.
    pub closed spec fn told(&self) -> bool {
        self.told
    }

    /// Start watching a window whose fullscreen state reads `now`: the page
    /// is told it at once.
    pub fn start(now: bool) -> (r: (FullscreenWatch, String))
        ensures
            r.0.told() == now,
            r.1@ == fullscreen_statement(now),
    {
        (FullscreenWatch { told: now }, fullscreen_script(now))
    }

    /// The window was resized and its fullscreen state now reads `now`.
    pub fn resized(&mut self, now: bool) -> (r: Option<String>)
        ensures
            final(self).told() == now,
            said(r) == fullscreen_step(old(self).told(), now),
    {
        let r = fullscreen_update(self.told, now);
        self.told = now;
        r
    }
}

/// What is sent for each of a sequence of readings, starting from a page
/// told `start`.
pub open spec fn fullscreen_updates(start: bool, readings: Seq<bool>) -> Seq<Option<Seq<char>>>
    decreases readings.len(),
{
    if readings.len() == 0 {
        seq![]
    } else {
        seq![fullscreen_step(start, readings[0])] + fullscreen_updates(
            readings[0],
            readings.drop_first(),
        )
    }
}

/// The last statement the page received, after `first` and then `updates`.
pub open spec fn last_told(first: Seq<char>, updates: Seq<Option<Seq<char>>>) -> Seq<char>
    decreases updates.len(),
{
    if updates.len() == 0 {
        first
    } else {
        last_told(
            match updates[0] {
                Some(s) => s,
                None => first,
            },
            updates.drop_first(),
        )
    }
}

/// The fullscreen state after a sequence of readings.
pub open spec fn current(start: bool, readings: Seq<bool>) -> bool {
    if readings.len() == 0 {
        start
    } else {
        readings.last()
    }
}

proof fn lemma_last_told_current(start: bool, readings: Seq<bool>)
    ensures
        last_told(fullscreen_statement(start), fullscreen_updates(start, readings))
            == fullscreen_statement(current(start, readings)),
    decreases readings.len(),
{
    if readings.len() > 0 {
        let rest = readings.drop_first();
        lemma_last_told_current(readings[0], rest);
        let u = fullscreen_updates(start, readings);
        assert(u.drop_first() =~= fullscreen_updates(readings[0], rest));
        assert(match u[0] {
            Some(s) => s,
            None => fullscreen_statement(start),
        } == fullscreen_statement(readings[0]));
        if rest.len() > 0 {
            assert(rest.last() == readings.last());
        } else {
            assert(readings.len() == 1);
        }
    }
}

proof fn lemma_updates_prefix(start: bool, readings: Seq<bool>, k: int)
    requires
        0 <= k <= readings.len(),
    ensures
        fullscreen_updates(start, readings).len() == readings.len(),
        fullscreen_updates(start, readings).take(k) == fullscreen_updates(start, readings.take(k)),
    decreases readings.len(),
{
    if readings.len() > 0 {
        let rest = readings.drop_first();
        if k > 0 {
            lemma_updates_prefix(readings[0], rest, k - 1);
            assert(readings.take(k).drop_first() =~= rest.take(k - 1));
            assert(readings.take(k)[0] == readings[0]);
            assert(fullscreen_updates(start, readings).take(k) =~= seq![
                fullscreen_step(start, readings[0]),
            ] + fullscreen_updates(readings[0], rest).take(k - 1));
        } else {
            lemma_updates_prefix(readings[0], rest, 0);
            assert(fullscreen_updates(start, readings).take(0) =~= Seq::<Option<Seq<char>>>::empty());
            assert(fullscreen_updates(start, readings.take(0)) =~= Seq::<Option<Seq<char>>>::empty());
        }
    } else {
        assert(readings.take(k) =~= readings);
    }
}

/// Whatever the readings, the page is kept told: after the first `k`
/// readings the last statement it received is the statement for the state
/// read last (the starting state when none was read yet), and a reading that
/// did not change the state sends nothing.
pub proof fn lemma_fullscreen_kept_told(start: bool, readings: Seq<bool>, k: int)
    requires
        0 <= k <= readings.len(),
    ensures
        last_told(fullscreen_statement(start), fullscreen_updates(start, readings).take(k))
            == fullscreen_statement(current(start, readings.take(k))),
        forall|i: int|
            0 <= i < readings.len() ==> (#[trigger] fullscreen_updates(start, readings)[i] is None
                <==> readings[i] == current(start, readings.take(i))),
{
    lemma_updates_prefix(start, readings, k);
    lemma_last_told_current(start, readings.take(k));
    assert forall|i: int| 0 <= i < readings.len() implies (#[trigger] fullscreen_updates(
        start,
        readings,
    )[i] is None <==> readings[i] == current(start, readings.take(i))) by {
        lemma_updates_step(start, readings, i);
    }
}

proof fn lemma_updates_step(start: bool, readings: Seq<bool>, i: int)
    requires
        0 <= i < readings.len(),
    ensures
        fullscreen_updates(start, readings)[i] == fullscreen_step(
            current(start, readings.take(i)),
            readings[i],
        ),
    decreases readings.len(),
{
    let rest = readings.drop_first();
    lemma_updates_prefix(start, readings, 0);
    lemma_updates_prefix(readings[0], rest, 0);
    if i > 0 {
        lemma_updates_step(readings[0], rest, i - 1);
        assert(fullscreen_updates(start, readings)[i] == fullscreen_updates(readings[0], rest)[i
            - 1]);
        if i - 1 > 0 {
            assert(rest.take(i - 1).last() == readings.take(i).last());
        } else {
            assert(readings.take(i).last() == readings[0]);
        }
    } else {
        assert(readings.take(0).len() == 0);
    }
}

/// Every effect of opening, for a sequence of events answered in order.
pub open spec fn run_effects(launch: Launch, state: SetupView, events: Seq<EventView>) -> Seq<
    EffectView,
>
    decreases events.len(),
{
    if events.len() == 0 {
        seq![]
    } else {
        let (s, effects) = next(launch, state, events[0]);
        effects + run_effects(launch, s, events.drop_first())
    }
}

/// Whether an effect records a group as the shell's own.
pub open spec fn is_own(e: EffectView) -> bool {
    e is Own
}

/// How many of the effects record a group.
pub open spec fn own_count(effects: Seq<EffectView>) -> nat
    decreases effects.len(),
{
    if effects.len() == 0 {
        0
    } else {
        (if is_own(effects[0]) {
            1nat
        } else {
            0nat
        }) + own_count(effects.drop_first())
    }
}

proof fn lemma_own_count_append(a: Seq<EffectView>, b: Seq<EffectView>)
    ensures
        own_count(a + b) == own_count(a) + own_count(b),
    decreases a.len(),
{
    if a.len() == 0 {
        assert(a + b =~= b);
    } else {
        assert((a + b).drop_first() =~= a.drop_first() + b);
        lemma_own_count_append(a.drop_first(), b);
    }
}

proof fn lemma_finished_is_silent(launch: Launch, events: Seq<EventView>)
    ensures
        run_effects(launch, SetupView::Finished, events) == Seq::<EffectView>::empty(),
    decreases events.len(),
{
    if events.len() > 0 {
        lemma_finished_is_silent(launch, events.drop_first());
    }
}

/// A state from which opening can still record a group.
pub open spec fn may_own(s: SetupView) -> bool {
    s is Probing || s is Checking || s is Spawning
}

proof fn lemma_own_at_most(launch: Launch, state: SetupView, events: Seq<EventView>)
    ensures
        own_count(run_effects(launch, state, events)) <= if may_own(state) {
            1nat
        } else {
            0nat
        },
    decreases events.len(),
{
    if events.len() > 0 {
        let (s, effects) = next(launch, state, events[0]);
        lemma_own_at_most(launch, s, events.drop_first());
        lemma_own_count_append(effects, run_effects(launch, s, events.drop_first()));
        reveal_with_fuel(own_count, 3);
        if may_own(s) {
            assert(may_own(state));
        }
    }
}

/// An adopted host is never this shell's: when the first probe finds the
/// page answering, no step of opening ever records a group, so letting go
/// has nothing to signal.
pub proof fn lemma_adopted_is_never_owned(launch: Launch, events: Seq<EventView>)
    requires
        events.len() > 0,
        events[0] == (EventView::Probed { answering: true }),
    ensures
        own_count(run_effects(launch, SetupView::Probing, events)) == 0,
        forall|i: int|
            0 <= i < run_effects(launch, SetupView::Probing, events).len() ==> !is_own(
                #[trigger] run_effects(launch, SetupView::Probing, events)[i],
            ),
{
    lemma_finished_is_silent(launch, events.drop_first());
    let effects = run_effects(launch, SetupView::Probing, events);
    assert(effects =~= next(launch, SetupView::Probing, events[0]).1);
    reveal_with_fuel(own_count, 3);
}

/// Opening records at most one group, whatever the events.
pub proof fn lemma_owns_at_most_once(launch: Launch, events: Seq<EventView>)
    ensures
        own_count(run_effects(launch, SetupView::Probing, events)) <= 1,
{
    lemma_own_at_most(launch, SetupView::Probing, events);
}

/// The only group ever recorded is one the caller reported as the group of
/// the script it started.
pub proof fn lemma_owns_only_what_it_started(
    launch: Launch,
    state: SetupView,
    events: Seq<EventView>,
    group: i32,
)
    requires
        run_effects(launch, state, events).contains(EffectView::Own { group }),
    ensures
        events.contains(EventView::Spawned { group: Ok(group) }),
    decreases events.len(),
{
    let effects = run_effects(launch, state, events);
    let k = choose|k: int| 0 <= k < effects.len() && effects[k] == EffectView::Own { group };
    let (s, first) = next(launch, state, events[0]);
    let rest = run_effects(launch, s, events.drop_first());
    assert(effects == first + rest);
    if k < first.len() {
        assert(first[k] == EffectView::Own { group });
        assert(events[0] == EventView::Spawned { group: Ok(group) });
        assert(events.contains(EventView::Spawned { group: Ok(group) })) by {
            assert(events[0] == EventView::Spawned { group: Ok(group) });
        }
    } else {
        assert(rest[k - first.len()] == EffectView::Own { group });
        assert(rest.contains(EffectView::Own { group }));
        lemma_owns_only_what_it_started(launch, s, events.drop_first(), group);
        let j = choose|j: int|
            0 <= j < events.drop_first().len() && events.drop_first()[j] == EventView::Spawned {
                group: Ok(group),
            };
        assert(events[j + 1] == EventView::Spawned { group: Ok(group) });
    }
}

/// Everything sent while letting go, for a sequence of looks (whether still
/// in the grace period, whether the group is alive) answered in order.
pub open spec fn reap_trace(state: Reaping, looks: Seq<(bool, bool)>) -> Seq<Reap>
    decreases looks.len(),
{
    if looks.len() == 0 {
        seq![]
    } else {
        let (s, a) = reap_next(state, looks[0].0, looks[0].1);
        seq![a] + reap_trace(s, looks.drop_first())
    }
}

proof fn lemma_done_is_silent(looks: Seq<(bool, bool)>)
    ensures
        forall|i: int|
            0 <= i < reap_trace(Reaping::Done, looks).len() ==> #[trigger] reap_trace(
                Reaping::Done,
                looks,
            )[i] == Reap::Nothing,
    decreases looks.len(),
{
    if looks.len() > 0 {
        lemma_done_is_silent(looks.drop_first());
        let t = reap_trace(Reaping::Done, looks);
        assert forall|i: int| 0 <= i < t.len() implies #[trigger] t[i] == Reap::Nothing by {
            if i > 0 {
                assert(t[i] == reap_trace(Reaping::Done, looks.drop_first())[i - 1]);
            }
        }
    }
}

/// Letting go when nothing is recorded sends nothing, however often it is
/// done: a shell that started nothing, or has already let go, signals no one.
pub proof fn lemma_nothing_recorded_nothing_sent(looks: Seq<(bool, bool)>)
    ensures
        reap_begin(0).1 == Reap::Nothing,
        forall|i: int|
            0 <= i < reap_trace(reap_begin(0).0, looks).len() ==> #[trigger] reap_trace(
                reap_begin(0).0,
                looks,
            )[i] == Reap::Nothing,
{
    lemma_done_is_silent(looks);
}

/// While stopping a group, everything sent goes to that group; KILL is sent
/// at most once, and after it (or after the group is seen gone) nothing more.
pub open spec fn stopping_trace_ok(group: i32, t: Seq<Reap>) -> bool {
    &&& forall|i: int|
        0 <= i < t.len() ==> match #[trigger] t[i] {
            Reap::Kill { group: g } => g == group,
            Reap::Terminate { .. } => false,
            _ => true,
        }
    &&& forall|i: int, j: int|
        0 <= i < j < t.len() && (#[trigger] t[i] is Kill || t[i] is Nothing) ==> #[trigger] t[j]
            == Reap::Nothing
}

proof fn lemma_stopping_trace(group: i32, looks: Seq<(bool, bool)>)
    ensures
        stopping_trace_ok(group, reap_trace(Reaping::Stopping { group }, looks)),
    decreases looks.len(),
{
    if looks.len() > 0 {
        let t = reap_trace(Reaping::Stopping { group }, looks);
        let (s, a) = reap_next(Reaping::Stopping { group }, looks[0].0, looks[0].1);
        let rest = reap_trace(s, looks.drop_first());
        assert(t == seq![a] + rest);
        if s == Reaping::Done {
            lemma_done_is_silent(looks.drop_first());
        } else {
            lemma_stopping_trace(group, looks.drop_first());
        }
        assert forall|i: int|
            0 <= i < t.len() implies match #[trigger] t[i] {
            Reap::Kill { group: g } => g == group,
            Reap::Terminate { .. } => false,
            _ => true,
        } by {
            if i > 0 {
                assert(t[i] == rest[i - 1]);
            }
        }
        assert forall|i: int, j: int|
            0 <= i < j < t.len() && (#[trigger] t[i] is Kill || t[i] is Nothing) implies #[trigger] t[j]
            == Reap::Nothing by {
            assert(t[j] == rest[j - 1]);
            if i > 0 {
                assert(t[i] == rest[i - 1]);
            } else {
                assert(s == Reaping::Done);
            }
        }
    }
}

/// Letting go of a recorded group sends TERM to it first; what follows goes
/// only to that group, KILL at most once and only after TERM, and then
/// nothing more.
pub proof fn lemma_term_before_kill(group: i32, looks: Seq<(bool, bool)>)
    requires
        group != 0,
    ensures
        reap_begin(group).1 == (Reap::Terminate { group }),
        stopping_trace_ok(group, reap_trace(reap_begin(group).0, looks)),
{
    lemma_stopping_trace(group, looks);
}

/// A directory that cannot be started starts nothing: when the probe finds no
/// host and the directory is refused, opening says why and asks for no script
/// to be run and no group to be recorded, whatever comes after.
pub proof fn lemma_refusal_starts_nothing(launch: Launch, events: Seq<EventView>, r: Refusal)
    requires
        events.len() >= 2,
        events[0] == (EventView::Probed { answering: false }),
        events[1] == (EventView::Checked { verdict: Err(r) }),
    ensures
        run_effects(launch, SetupView::Probing, events) == seq![
            EffectView::Check,
            EffectView::Say {
                phase: Phase::Failed,
                message: refused_text(r, launch.source@, launch.config@),
            },
        ],
{
    let rest = events.drop_first();
    assert(rest[0] == events[1]);
    lemma_finished_is_silent(launch, rest.drop_first());
    assert(run_effects(launch, SetupView::Checking, rest) =~= seq![
        EffectView::Say {
            phase: Phase::Failed,
            message: refused_text(r, launch.source@, launch.config@),
        },
    ]);
    assert(run_effects(launch, SetupView::Probing, events) =~= seq![EffectView::Check]
        + run_effects(launch, SetupView::Checking, rest));
}

/// The status a process ends with when a signal ends it: 128 plus the
/// signal's number.
pub fn exit_status(sig: i32) -> (code: i32)
    requires
        sig <= i32::MAX - 128,
    ensures
        code == 128 + sig,
{
    128 + sig
}

/// Letting go once, from the shell's record of its group: the record is
/// taken, leaving nothing recorded, and the group taken is stopped.
pub open spec fn reap_from_record(record: i32, looks: Seq<(bool, bool)>) -> (i32, Seq<Reap>) {
    (0, seq![reap_begin(record).1] + reap_trace(reap_begin(record).0, looks))
}

/// Letting go twice is letting go once: the second time finds nothing
/// recorded and sends nothing.
pub proof fn lemma_reaping_twice(record: i32, first: Seq<(bool, bool)>, second: Seq<(bool, bool)>)
    ensures
        reap_from_record(reap_from_record(record, first).0, second).0 == 0,
        forall|i: int|
            0 <= i < reap_from_record(reap_from_record(record, first).0, second).1.len()
                ==> #[trigger] reap_from_record(reap_from_record(record, first).0, second).1[i]
                == Reap::Nothing,
{
    lemma_done_is_silent(second);
    let t = reap_from_record(0, second).1;
    assert forall|i: int| 0 <= i < t.len() implies #[trigger] t[i] == Reap::Nothing by {
        if i > 0 {
            assert(t[i] == reap_trace(Reaping::Done, second)[i - 1]);
        }
    }
}

proof fn lemma_reap_trace_len(state: Reaping, looks: Seq<(bool, bool)>)
    ensures
        reap_trace(state, looks).len() == looks.len(),
    decreases looks.len(),
{
    if looks.len() > 0 {
        let (s, a) = reap_next(state, looks[0].0, looks[0].1);
        lemma_reap_trace_len(s, looks.drop_first());
    }
}

/// The grace period ends in KILL: a group still being stopped when a look
/// falls outside the grace period is killed, whatever the liveness reading,
/// and nothing more is sent after it.
pub proof fn lemma_grace_end_kills(group: i32, alive: bool, looks: Seq<(bool, bool)>)
    ensures
        reap_next(Reaping::Stopping { group }, false, alive) == (Reaping::Done, Reap::Kill { group }),
        looks.len() > 0 && !looks[0].0 ==> reap_trace(Reaping::Stopping { group }, looks)[0] == (
        Reap::Kill { group }),
        forall|i: int|
            0 < i < looks.len() && !looks[0].0 ==> #[trigger] reap_trace(
                Reaping::Stopping { group },
                looks,
            )[i] == Reap::Nothing,
{
    if looks.len() > 0 && !looks[0].0 {
        lemma_done_is_silent(looks.drop_first());
        lemma_reap_trace_len(Reaping::Done, looks.drop_first());
        let t = reap_trace(Reaping::Stopping { group }, looks);
        assert(t == seq![Reap::Kill { group }] + reap_trace(Reaping::Done, looks.drop_first()));
        assert forall|i: int| 0 < i < looks.len() implies #[trigger] t[i] == Reap::Nothing by {
            assert(t[i] == reap_trace(Reaping::Done, looks.drop_first())[i - 1]);
        }
    }
}

/// Within the grace period a group is given another interval while it is
/// there, and left alone once it is gone; nothing is killed early.
pub proof fn lemma_grace_spares(group: i32, alive: bool)
    ensures
        reap_next(Reaping::Stopping { group }, true, alive).1 == (if alive {
            Reap::Pause
        } else {
            Reap::Nothing
        }),
        !(reap_next(Reaping::Stopping { group }, true, alive).1 is Kill),
{
}

/// Opening goes to the page of the launch's own port: an adopted host and a
/// started host that came up are both navigated to `http://127.0.0.1:`
/// followed by the digits of the launch's page port, and hosts on different
/// ports are navigated to different pages.
pub proof fn lemma_opening_goes_to_the_launch_page(launch: Launch, other: Launch)
    ensures
        next(launch, SetupView::Probing, EventView::Probed { answering: true }).1[1] == (
        EffectView::Navigate { page: page_address(launch.page_port) }),
        next(launch, SetupView::Waiting, EventView::Waited { up: true }).1 == seq![
            EffectView::Navigate { page: page_address(launch.page_port) },
        ],
        digits_value(
            page_address(launch.page_port).subrange(
                17,
                page_address(launch.page_port).len() as int,
            ),
        ) == launch.page_port,
        launch.page_port != other.page_port ==> next(
            launch,
            SetupView::Waiting,
            EventView::Waited { up: true },
        ).1 != next(other, SetupView::Waiting, EventView::Waited { up: true }).1,
{
    lemma_page_address_names_port(launch.page_port);
    if launch.page_port != other.page_port {
        lemma_page_addresses_differ(launch.page_port, other.page_port);
        let a = next(launch, SetupView::Waiting, EventView::Waited { up: true }).1;
        let b = next(other, SetupView::Waiting, EventView::Waited { up: true }).1;
        if a == b {
            assert(a[0] == b[0]);
        }
    }
}

} // verus!
