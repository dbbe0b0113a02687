use lmsh::arguments::Arguments;

fn args(list: &[&str]) -> Vec<String> {
    list.iter().map(|s| s.to_string()).collect()
}

#[test]
fn defaults_are_interactive() {
    let a = Arguments::parse(&args(&["lmsh"])).unwrap();
    assert_eq!(a, Arguments { interactive: true, version: false, login: false });
}

#[test]
fn long_and_short_options() {
    let a = Arguments::parse(&args(&["lmsh", "--login", "-V"])).unwrap();
    assert_eq!(a, Arguments { interactive: true, version: true, login: true });
    let b = Arguments::parse(&args(&["lmsh", "-il", "--", "-"])).unwrap();
    assert_eq!(b, Arguments { interactive: true, version: false, login: true });
    let c = Arguments::parse(&args(&["lmsh", "--version", "--interactive"])).unwrap();
    assert_eq!(c, Arguments { interactive: true, version: true, login: false });
}

#[test]
fn program_name_is_the_one_operand() {
    let a = Arguments::parse(&args(&["-", "-l"])).unwrap();
    assert_eq!(a, Arguments { interactive: true, version: false, login: true });
    let b = Arguments::parse(&args(&["/bin/lmsh", "-l"])).unwrap();
    assert_eq!(b, Arguments { interactive: true, version: false, login: true });
}

#[test]
fn unknown_long_option() {
    assert_eq!(
        Arguments::parse(&args(&["lmsh", "--foo"])).unwrap_err(),
        "Unknown keyword argument \"--foo\""
    );
}

#[test]
fn unknown_short_option() {
    assert_eq!(
        Arguments::parse(&args(&["lmsh", "-lz"])).unwrap_err(),
        "Unknown short argument \"-z\""
    );
}

#[test]
fn second_operand_is_refused() {
    assert_eq!(
        Arguments::parse(&args(&["lmsh", "a", "b"])).unwrap_err(),
        "Expected flag, got \"a\""
    );
}

#[test]
fn first_refusal_wins() {
    assert_eq!(
        Arguments::parse(&args(&["lmsh", "--bad", "-z", ""])).unwrap_err(),
        "Unknown keyword argument \"--bad\""
    );
    assert_eq!(Arguments::abort_message(&args(&["lmsh", "--bad", ""])), None);
}

#[test]
fn options_the_shell_does_not_handle() {
    assert_eq!(
        Arguments::abort_message(&args(&["lmsh", "-c"])).unwrap(),
        "the -c option (command_string operand) is not handled"
    );
    assert_eq!(
        Arguments::abort_message(&args(&["lmsh", "-s"])).unwrap(),
        "the -s option (read commands from standard input) is not handled"
    );
    assert_eq!(
        Arguments::abort_message(&args(&["lmsh", "-ix"])).unwrap(),
        "the options of set are not handled"
    );
    assert_eq!(
        Arguments::abort_message(&args(&["lmsh", "+x"])).unwrap(),
        "options that start with + are not handled"
    );
    assert_eq!(
        Arguments::abort_message(&args(&["lmsh", ""])).unwrap(),
        "The argument should never be empty!"
    );
    assert_eq!(Arguments::abort_message(&args(&["lmsh", "-i"])), None);
}

#[test]
fn simple_command_line() {
    let a = lmsh::Arguments::parse(&args(&["lmsh", "-vi"])).unwrap();
    assert_eq!(a, lmsh::Arguments { interactive: true, version: true });
    let b = lmsh::Arguments::parse(&args(&["lmsh"])).unwrap();
    assert_eq!(b, lmsh::Arguments { interactive: false, version: false });
    let c = lmsh::Arguments::parse(&args(&["lmsh", "--version"])).unwrap();
    assert_eq!(c, lmsh::Arguments { interactive: false, version: true });
}

#[test]
fn simple_command_line_errors() {
    assert_eq!(
        lmsh::Arguments::parse(&args(&["lmsh", "-"])).unwrap_err(),
        "A \"-\" on it's own doesn't work as a flag"
    );
    assert_eq!(
        lmsh::Arguments::parse(&args(&["lmsh", "-l"])).unwrap_err(),
        "Unknown short argument \"-l\""
    );
    assert_eq!(
        lmsh::Arguments::parse(&args(&["lmsh", "--login"])).unwrap_err(),
        "Unknown keyword argument \"--login\""
    );
    assert_eq!(
        lmsh::Arguments::parse(&args(&["lmsh", "x", "y"])).unwrap_err(),
        "Expected flag, got \"x\""
    );
    assert_eq!(
        lmsh::Arguments::abort_message(&args(&["lmsh", ""])).unwrap(),
        "The argument should never be empty!"
    );
}

#[test]
fn order_and_repetition_of_options_do_not_matter() {
    let a = Arguments::parse(&args(&["lmsh", "-lV", "-l", "--version"])).unwrap();
    let b = Arguments::parse(&args(&["lmsh", "--version", "-V", "-l", "-il"])).unwrap();
    let c = Arguments::parse(&args(&["lmsh", "-Vl"])).unwrap();
    assert_eq!(a, Arguments { interactive: true, version: true, login: true });
    assert_eq!(a, b);
    assert_eq!(a, c);
}
