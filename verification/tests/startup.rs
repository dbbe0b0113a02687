use lmsh::config_file::{config_file_candidates, first_existing, run_config_file};
use lmsh::init_files::{run_init_files, run_profile, InitAction, InitEvent};
use lmsh::repl::ReplSource;

#[test]
fn candidates_from_home_and_xdg() {
    let c = config_file_candidates(
        Some(b"/home/u".to_vec()),
        Some(b"/etc/xdg:/opt/".to_vec()),
    );
    assert_eq!(
        c,
        vec![
            b"/home/u/.config/lmsh/init.lmsh".to_vec(),
            b"/etc/xdg/lmsh/init.lmsh".to_vec(),
            b"/opt/lmsh/init.lmsh".to_vec(),
        ]
    );
}

#[test]
fn candidates_with_empty_entries() {
    assert_eq!(
        config_file_candidates(None, Some(b"".to_vec())),
        vec![b"lmsh/init.lmsh".to_vec()]
    );
    assert_eq!(
        config_file_candidates(Some(b"/".to_vec()), Some(b"a::b".to_vec())),
        vec![
            b"/.config/lmsh/init.lmsh".to_vec(),
            b"a/lmsh/init.lmsh".to_vec(),
            b"lmsh/init.lmsh".to_vec(),
            b"b/lmsh/init.lmsh".to_vec(),
        ]
    );
    assert!(config_file_candidates(None, None).is_empty());
}

#[test]
fn only_the_first_existing_file_runs() {
    let c = vec![b"a".to_vec(), b"b".to_vec(), b"c".to_vec()];
    assert_eq!(first_existing(&c, &vec![false, true, true]), Some(b"b".to_vec()));
    assert_eq!(first_existing(&c, &vec![false, false, false]), None);
    match run_config_file(Some(b"b".to_vec())) {
        Some(ReplSource::File(p)) => assert_eq!(p, b"b".to_vec()),
        other => panic!("unexpected source {:?}", other),
    }
    assert!(run_config_file(None).is_none());
}

#[test]
fn profile_is_etc_profile() {
    match run_profile(true) {
        Some(ReplSource::File(p)) => assert_eq!(p, b"/etc/profile".to_vec()),
        other => panic!("unexpected source {:?}", other),
    }
    assert!(run_profile(false).is_none());
}

#[test]
fn login_runs_the_profile_first() {
    assert!(matches!(run_init_files::<String>(true, InitEvent::Start), InitAction::RunProfile));
    assert!(matches!(run_init_files::<String>(false, InitEvent::Start), InitAction::RunConfigFile));
    assert!(matches!(
        run_init_files::<String>(true, InitEvent::ProfileRan(Some(Ok(())))),
        InitAction::RunConfigFile
    ));
    assert!(matches!(
        run_init_files::<String>(true, InitEvent::ProfileRan(None)),
        InitAction::RunConfigFile
    ));
}

#[test]
fn failing_profile_ends_the_start_up() {
    match run_init_files(true, InitEvent::ProfileRan(Some(Err("boom".to_string())))) {
        InitAction::Finish(Some(Err(e))) => assert_eq!(e, "boom"),
        _ => panic!("the profile's failure should end the start-up"),
    }
    match run_init_files::<String>(true, InitEvent::ConfigFileRan(None)) {
        InitAction::Finish(None) => {}
        _ => panic!("the configuration's outcome should be the result"),
    }
}

/// Runs the whole start-up, where the profile and the configuration file
/// give `profile` and `config`; returns the outcome and what ran.
fn start_up(
    login: bool,
    profile: Option<Result<(), String>>,
    config: Option<Result<(), String>>,
) -> (Option<Result<(), String>>, Vec<&'static str>) {
    let mut ran = Vec::new();
    let mut event = InitEvent::Start;
    loop {
        match run_init_files(login, event) {
            InitAction::RunProfile => {
                ran.push("profile");
                event = InitEvent::ProfileRan(profile.clone());
            }
            InitAction::RunConfigFile => {
                ran.push("config");
                event = InitEvent::ConfigFileRan(config.clone());
            }
            InitAction::Finish(o) => return (o, ran),
        }
    }
}

#[test]
fn whole_start_up_order() {
    assert_eq!(start_up(true, Some(Ok(())), None), (None, vec!["profile", "config"]));
    assert_eq!(
        start_up(true, Some(Err("p".to_string())), Some(Ok(()))),
        (Some(Err("p".to_string())), vec!["profile"])
    );
    assert_eq!(start_up(false, Some(Err("p".to_string())), Some(Ok(()))), (Some(Ok(())), vec!["config"]));
    assert_eq!(start_up(true, None, Some(Err("c".to_string()))), (Some(Err("c".to_string())), vec!["profile", "config"]));
}

#[test]
fn config_search_prefers_home() {
    let c = config_file_candidates(Some(b"/h".to_vec()), Some(b"/x:/y".to_vec()));
    assert_eq!(first_existing(&c, &vec![true, true, false]), Some(b"/h/.config/lmsh/init.lmsh".to_vec()));
    assert_eq!(first_existing(&c, &vec![false, false, true]), Some(b"/y/lmsh/init.lmsh".to_vec()));
    assert_eq!(first_existing(&c, &vec![false, false, false]), None);
}

#[test]
fn paths_need_not_be_utf8() {
    let home = vec![b'/', 0xff, b'h'];
    let c = config_file_candidates(Some(home), None);
    assert_eq!(c, vec![vec![b'/', 0xff, b'h', b'/', b'.', b'c', b'o', b'n', b'f', b'i', b'g', b'/',
        b'l', b'm', b's', b'h', b'/', b'i', b'n', b'i', b't', b'.', b'l', b'm', b's', b'h']]);
}
