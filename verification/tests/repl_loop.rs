use lmsh::repl::{repl, ReplAction, ReplError, ReplSource, RunError};
use lmsh::{ReplAction as A, ReplError as E, ReplEvent as V, ReplSource as S};

#[test]
fn error_codes_message() {
    let e = ReplError::ErrorCodes(vec![1, -2, 30]);
    assert_eq!(e.describe(), "these error codes were raised: [1, -2, 30]");
    assert_eq!(
        ReplError::ErrorCodes(vec![]).describe(),
        "these error codes were raised: []"
    );
    assert_eq!(
        ReplError::ErrorCodes(vec![i32::MIN, 0, i32::MAX]).describe(),
        "these error codes were raised: [-2147483648, 0, 2147483647]"
    );
}

#[test]
fn syntax_error_message() {
    assert_eq!(
        ReplError::SyntaxError("oops".to_string()).describe(),
        "this error was raised: oops"
    );
}

#[test]
fn file_runs_once() {
    let f = ReplSource::File(b"x".to_vec());
    assert!(matches!(repl::<String>(&f, None), ReplAction::Rep));
    assert!(matches!(repl::<String>(&f, Some(Ok(Ok(())))), ReplAction::Finish(Ok(()))));
    match repl(&f, Some(Err("io".to_string()))) {
        ReplAction::Finish(Err(RunError::Read(e))) => assert_eq!(e, "io"),
        _ => panic!("a file's outcome ends the loop"),
    }
    match repl::<String>(&f, Some(Ok(Err(ReplError::SyntaxError("bad".to_string()))))) {
        ReplAction::Finish(Err(RunError::Failed(ReplError::SyntaxError(m)))) => {
            assert_eq!(m, "bad")
        }
        _ => panic!("a file's syntax error is its result"),
    }
}

#[test]
fn user_is_prompted_again() {
    assert!(matches!(repl::<String>(&ReplSource::User, None), ReplAction::Rep));
    assert!(matches!(repl::<String>(&ReplSource::User, Some(Ok(Ok(())))), ReplAction::Rep));
    match repl::<String>(&ReplSource::User, Some(Ok(Err(ReplError::ErrorCodes(vec![3]))))) {
        ReplAction::Report(ReplError::ErrorCodes(c)) => assert_eq!(c, vec![3]),
        _ => panic!("the user sees the error"),
    }
    match repl(&ReplSource::User, Some(Err("io".to_string()))) {
        ReplAction::Unhandled(e) => assert_eq!(e, "io"),
        _ => panic!("a failed read cannot go on"),
    }
}

#[test]
fn simple_loop_over_a_file() {
    assert!(matches!(lmsh::repl(S::File, V::Start), A::Read(E::ErrorCodes(c)) if c.is_empty()));
    assert!(matches!(lmsh::repl(S::File, V::Read(Some("ls".to_string()))), A::Eval(c) if c == "ls"));
    assert!(matches!(lmsh::repl(S::File, V::Read(None)), A::Return(Ok(()))));
    assert!(matches!(
        lmsh::repl(S::File, V::Evaluated(E::ErrorCodes(vec![]))),
        A::Read(E::ErrorCodes(c)) if c.is_empty()
    ));
    assert!(matches!(
        lmsh::repl(S::File, V::Evaluated(E::ErrorCodes(vec![2]))),
        A::Return(Err(E::ErrorCodes(c))) if c == vec![2]
    ));
    assert!(matches!(
        lmsh::repl(S::File, V::Evaluated(E::SyntaxError("bad".to_string()))),
        A::Return(Err(E::SyntaxError(m))) if m == "bad"
    ));
}

#[test]
fn simple_loop_for_the_user_goes_on() {
    assert!(matches!(
        lmsh::repl(S::User, V::Evaluated(E::ErrorCodes(vec![1]))),
        A::Read(E::ErrorCodes(c)) if c == vec![1]
    ));
    assert!(matches!(
        lmsh::repl(S::User, V::Evaluated(E::SyntaxError("bad".to_string()))),
        A::Read(E::SyntaxError(m)) if m == "bad"
    ));
}

/// Drives the simple loop over `chunks`, where the k-th evaluation reports
/// `outcomes[k]`; returns the result and the code evaluated.
fn drive(source: S, chunks: &[&str], mut outcomes: Vec<E>) -> (Result<(), E>, Vec<String>) {
    outcomes.reverse();
    let mut next = 0;
    let mut evaluated = Vec::new();
    let mut action = lmsh::repl(source, V::Start);
    loop {
        action = match action {
            A::Read(_) => {
                let code = chunks.get(next).map(|c| c.to_string());
                next += 1;
                lmsh::repl(source, V::Read(code))
            }
            A::Eval(code) => {
                evaluated.push(code);
                lmsh::repl(source, V::Evaluated(outcomes.pop().unwrap()))
            }
            A::Return(r) => return (r, evaluated),
        }
    }
}

#[test]
fn file_run_stops_at_the_first_failure() {
    let (r, ev) = drive(
        S::File,
        &["a", "b", "c"],
        vec![E::ErrorCodes(vec![]), E::SyntaxError("x".to_string()), E::ErrorCodes(vec![])],
    );
    assert!(matches!(r, Err(E::SyntaxError(m)) if m == "x"));
    assert_eq!(ev, vec!["a", "b"]);
    let (r, ev) = drive(S::File, &["a", "b"], vec![E::ErrorCodes(vec![]), E::ErrorCodes(vec![])]);
    assert!(r.is_ok());
    assert_eq!(ev, vec!["a", "b"]);
}

#[test]
fn user_run_evaluates_everything() {
    let (r, ev) = drive(
        S::User,
        &["a", "b", "c"],
        vec![E::ErrorCodes(vec![4]), E::SyntaxError("x".to_string()), E::ErrorCodes(vec![])],
    );
    assert!(r.is_ok());
    assert_eq!(ev, vec!["a", "b", "c"]);
}
