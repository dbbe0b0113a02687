//! The files that the shell runs when it starts.
use vstd::prelude::*;

use crate::repl::ReplSource;

verus! {

/// The path of the system-wide profile, `/etc/profile`.
pub open spec fn profile_path() -> Seq<u8> {
    seq![47u8, 101u8, 116u8, 99u8, 47u8, 112u8, 114u8, 111u8, 102u8, 105u8, 108u8, 101u8]
}

/// What to run for the system-wide profile: the read-eval loop over
/// `/etc/profile` when that file exists (`profile_exists`), nothing otherwise.
pub fn run_profile(profile_exists: bool) -> (source: Option<ReplSource>)
    ensures
        profile_exists ==> (source matches Some(ReplSource::File(p)) && p@ == profile_path()),
        !profile_exists ==> source is None,
{
    if profile_exists {
        let path: Vec<u8> = vec![47u8, 101u8, 116u8, 99u8, 47u8, 112u8, 114u8, 111u8, 102u8, 105u8, 108u8, 101u8];
        assert(path@ =~= profile_path());
        Some(ReplSource::File(path))
    } else {
        None
    }
}

/// What has happened so far while the start-up files run.
pub enum InitEvent<E> {
    /// Nothing has run yet.
    Start,
    /// The system-wide profile ran (`None` when there is none).
    ProfileRan(Option<Result<(), E>>),
    /// The configuration file ran (`None` when there is none).
    ConfigFileRan(Option<Result<(), E>>),
}

/// What to do next.
pub enum InitAction<E> {
    RunProfile,
    RunConfigFile,
    /// All is done, with this outcome.
    Finish(Option<Result<(), E>>),
}

/// The step of the start-up after `event`, as `run_init_files` takes it.
pub open spec fn init_step<E>(login: bool, event: InitEvent<E>) -> InitAction<E> {
    match event {
        InitEvent::Start => if login {
            InitAction::RunProfile
        } else {
            InitAction::RunConfigFile
        },
        InitEvent::ProfileRan(outcome) => match outcome {
            Some(Err(e)) => InitAction::Finish(Some(Err(e))),
            _ => InitAction::RunConfigFile,
        },
        InitEvent::ConfigFileRan(outcome) => InitAction::Finish(outcome),
    }
}

/// What the start-up does after `action`, where running the profile gives
/// `profile` and running the configuration file gives `config`: the outcome
/// it finishes with, and whether it ran the profile and the configuration
/// file.  Each run may take place once.
pub open spec fn start_up_after<E>(
    login: bool,
    action: InitAction<E>,
    profile: Option<Result<(), E>>,
    config: Option<Result<(), E>>,
    fuel: nat,
) -> (Option<Result<(), E>>, bool, bool)
    decreases fuel,
{
    if fuel == 0 {
        (None, false, false)
    } else {
        match action {
            InitAction::Finish(outcome) => (outcome, false, false),
            InitAction::RunProfile => {
                let (o, _, c) = start_up_after(
                    login,
                    init_step(login, InitEvent::ProfileRan(profile)),
                    profile,
                    config,
                    (fuel - 1) as nat,
                );
                (o, true, c)
            },
            InitAction::RunConfigFile => {
                let (o, p, _) = start_up_after(
                    login,
                    init_step(login, InitEvent::ConfigFileRan(config)),
                    profile,
                    config,
                    (fuel - 1) as nat,
                );
                (o, p, true)
            },
        }
    }
}

/// The whole start-up, from its first step: its outcome, and whether it ran
/// the profile and the configuration file.
pub open spec fn start_up<E>(
    login: bool,
    profile: Option<Result<(), E>>,
    config: Option<Result<(), E>>,
) -> (Option<Result<(), E>>, bool, bool) {
    start_up_after(login, init_step(login, InitEvent::<E>::Start), profile, config, 3)
}

/// The order of the whole start-up: the profile runs only for a login shell,
/// and before the configuration file; a failure of the profile is the
/// outcome and nothing runs after it; otherwise the configuration file runs
/// and its outcome is the outcome (a profile that ran well is not reported).
/// So the outcome is `None` exactly when there is no configuration file and
/// the profile did not fail.
pub proof fn lemma_start_up_order<E>(
    login: bool,
    profile: Option<Result<(), E>>,
    config: Option<Result<(), E>>,
)
    ensures
        start_up(login, profile, config).1 == login,
        profile matches Some(Err(e)) ==> (login ==> start_up(login, profile, config) == (
            Some(Err::<(), E>(e)),
            true,
            false,
        )),
        !(login && profile matches Some(Err(_))) ==> start_up(login, profile, config) == (
            config,
            login,
            true,
        ),
        start_up(login, profile, config).0 is None <==> config is None && !(login
            && profile matches Some(Err(_))),
{
    reveal_with_fuel(start_up_after, 4);
}

/// The order of the start-up files: for a login shell the system-wide
/// profile first, then the user's configuration file.  A failure of the
/// profile ends the start-up with that failure; otherwise the outcome is that
/// of the configuration file.
pub fn run_init_files<E>(login: bool, event: InitEvent<E>) -> (action: InitAction<E>)
    ensures
        match event {
            InitEvent::Start => if login {
                action is RunProfile
            } else {
                action is RunConfigFile
            },
            InitEvent::ProfileRan(outcome) => match outcome {
                Some(Err(e)) => action == InitAction::Finish(Some(Err::<(), E>(e))),
                _ => action is RunConfigFile,
            },
            InitEvent::ConfigFileRan(outcome) => action == InitAction::Finish(outcome),
        },
        action == init_step(login, event),
{
    match event {
        InitEvent::Start => if login {
            InitAction::RunProfile
        } else {
            InitAction::RunConfigFile
        },
        InitEvent::ProfileRan(outcome) => match outcome {
            Some(Err(e)) => InitAction::Finish(Some(Err(e))),
            _ => InitAction::RunConfigFile,
        },
        InitEvent::ConfigFileRan(outcome) => InitAction::Finish(outcome),
    }
}

} // verus!
