//! A minimal POSIX shell: its command line, its start-up files, the grammar
//! of its scripts and the decisions of its read-eval loop.
pub mod arguments;
pub mod config_file;
pub mod init_files;
pub mod repl;
pub mod text;

use vstd::prelude::*;

use arguments::{holds_from, lemma_holds_from_step, sets_option, ArgStep, ArgsOutcome};
use text::{chars_of, push_str, quoted_message, same_text, string_of};

verus! {

/// Where the code to run comes from, in the simple form of the loop.
#[derive(Debug, Clone, Copy, PartialEq, Eq, Structural)]
pub enum ReplSource {
    User,
    File,
}

/// The outcome of evaluating code: the exit codes of the commands that
/// failed, or a syntax error message.
#[derive(Debug)]
pub enum ReplError {
    ErrorCodes(Vec<i32>),
    SyntaxError(String),
}

/// What has just happened in the loop.
pub enum ReplEvent {
    /// The loop starts.
    Start,
    /// Code was read (`None` at the end of the input).
    Read(Option<String>),
    /// Code was evaluated, with this outcome.
    Evaluated(ReplError),
}

/// What the loop does next.
#[derive(Debug)]
pub enum ReplAction {
    /// Read more code; the outcome of the last evaluation is passed along.
    Read(ReplError),
    /// Evaluate this code.
    Eval(String),
    /// The loop is over, with this result.
    Return(Result<(), ReplError>),
}

/// The step of the loop after `event`, as `repl` takes it (after the start,
/// a read with no error code yet).
pub open spec fn repl_step(source: ReplSource, event: ReplEvent) -> ReplAction {
    match event {
        ReplEvent::Start => choose|a: ReplAction|
            a matches ReplAction::Read(ReplError::ErrorCodes(codes)) && codes@.len() == 0,
        ReplEvent::Read(Some(code)) => ReplAction::Eval(code),
        ReplEvent::Read(None) => ReplAction::Return(Ok(())),
        ReplEvent::Evaluated(err) => match source {
            ReplSource::User => ReplAction::Read(err),
            ReplSource::File => match err {
                ReplError::ErrorCodes(codes) => if codes@.len() == 0 {
                    ReplAction::Read(ReplError::ErrorCodes(codes))
                } else {
                    ReplAction::Return(Err(ReplError::ErrorCodes(codes)))
                },
                other => ReplAction::Return(Err(other)),
            },
        },
    }
}

/// The loop from the read of `chunks[k]` on, where the code read comes in
/// `chunks` and then the input ends, and the evaluation of `chunks[j]`
/// reports `outcomes[j]`: the result the loop returns and the codes it
/// evaluated, in order.
pub open spec fn run_from(
    source: ReplSource,
    chunks: Seq<String>,
    outcomes: Seq<ReplError>,
    k: nat,
) -> (Result<(), ReplError>, Seq<String>)
    decreases chunks.len() - k,
{
    if k >= chunks.len() {
        match repl_step(source, ReplEvent::Read(None)) {
            ReplAction::Return(r) => (r, Seq::empty()),
            _ => (Ok(()), Seq::empty()),
        }
    } else {
        match repl_step(source, ReplEvent::Read(Some(chunks[k as int]))) {
            ReplAction::Eval(code) => match repl_step(
                source,
                ReplEvent::Evaluated(outcomes[k as int]),
            ) {
                ReplAction::Read(_) => {
                    let (r, rest) = run_from(source, chunks, outcomes, k + 1);
                    (r, seq![code] + rest)
                },
                ReplAction::Return(r) => (r, seq![code]),
                ReplAction::Eval(_) => (Ok(()), seq![code]),
            },
            ReplAction::Return(r) => (r, Seq::empty()),
            ReplAction::Read(_) => (Ok(()), Seq::empty()),
        }
    }
}

/// An outcome that stops a file: error codes, or a syntax error.
pub open spec fn stops_file(e: ReplError) -> bool {
    !(e matches ReplError::ErrorCodes(codes) && codes@.len() == 0)
}

proof fn lemma_run_from_file(chunks: Seq<String>, outcomes: Seq<ReplError>, k: nat)
    requires
        outcomes.len() >= chunks.len(),
        k <= chunks.len(),
    ensures
        run_from(ReplSource::File, chunks, outcomes, k).0 is Ok ==> forall|j: int|
            k <= j < chunks.len() ==> !stops_file(#[trigger] outcomes[j]),
        (forall|j: int| k <= j < chunks.len() ==> !stops_file(#[trigger] outcomes[j])) ==> run_from(
            ReplSource::File,
            chunks,
            outcomes,
            k,
        ) == (Ok::<(), ReplError>(()), chunks.skip(k as int)),
        forall|m: int|
            k <= m < chunks.len() && stops_file(outcomes[m]) && (forall|j: int|
                k <= j < m ==> !stops_file(#[trigger] outcomes[j])) ==> run_from(
                ReplSource::File,
                chunks,
                outcomes,
                k,
            ) == (Err::<(), ReplError>(outcomes[m]), chunks.subrange(k as int, m + 1)),
    decreases chunks.len() - k,
{
    if k < chunks.len() {
        lemma_run_from_file(chunks, outcomes, k + 1);
        assert(seq![chunks[k as int]] + chunks.skip(k as int + 1) =~= chunks.skip(k as int));
        assert forall|m: int|
            k < m < chunks.len() implies #[trigger] chunks.subrange(k as int, m + 1) =~= seq![
            chunks[k as int]] + chunks.subrange(k as int + 1, m + 1) by {}
        assert(chunks.subrange(k as int, k as int + 1) =~= seq![chunks[k as int]]);
    } else {
        assert(chunks.skip(k as int) =~= Seq::<String>::empty());
    }
}

/// A run over a file (from the read that follows the start): it reads and evaluates the chunks in order while each
/// evaluation reports no error code; it returns `Ok` exactly when no chunk
/// stops it, and otherwise the outcome of the first chunk that does, after
/// which nothing more is read.
pub proof fn lemma_file_run(chunks: Seq<String>, outcomes: Seq<ReplError>)
    requires
        outcomes.len() >= chunks.len(),
    ensures
        (run_from(ReplSource::File, chunks, outcomes, 0).0 is Ok) <==> forall|j: int|
            0 <= j < chunks.len() ==> !stops_file(#[trigger] outcomes[j]),
        (forall|j: int| 0 <= j < chunks.len() ==> !stops_file(#[trigger] outcomes[j])) ==> run_from(
            ReplSource::File,
            chunks,
            outcomes,
            0,
        ).1 == chunks,
        forall|m: int|
            0 <= m < chunks.len() && stops_file(outcomes[m]) && (forall|j: int|
                0 <= j < m ==> !stops_file(#[trigger] outcomes[j])) ==> run_from(
                ReplSource::File,
                chunks,
                outcomes,
                0,
            ) == (Err::<(), ReplError>(outcomes[m]), chunks.take(m + 1)),
{
    lemma_run_from_file(chunks, outcomes, 0);
    assert(chunks.skip(0) =~= chunks);
    assert forall|m: int| 0 <= m < chunks.len() implies #[trigger] chunks.subrange(0, m + 1)
        =~= chunks.take(m + 1) by {}
}

proof fn lemma_run_from_user(chunks: Seq<String>, outcomes: Seq<ReplError>, k: nat)
    requires
        outcomes.len() >= chunks.len(),
        k <= chunks.len(),
    ensures
        run_from(ReplSource::User, chunks, outcomes, k) == (
            Ok::<(), ReplError>(()),
            chunks.skip(k as int),
        ),
    decreases chunks.len() - k,
{
    if k < chunks.len() {
        lemma_run_from_user(chunks, outcomes, k + 1);
        assert(seq![chunks[k as int]] + chunks.skip(k as int + 1) =~= chunks.skip(k as int));
    } else {
        assert(chunks.skip(k as int) =~= Seq::<String>::empty());
    }
}

/// A run for the user (from the read that follows the start): every chunk is read and evaluated, in order, whatever
/// its evaluation reports, and the result is `Ok`.
pub proof fn lemma_user_run(chunks: Seq<String>, outcomes: Seq<ReplError>)
    requires
        outcomes.len() >= chunks.len(),
    ensures
        run_from(ReplSource::User, chunks, outcomes, 0) == (Ok::<(), ReplError>(()), chunks),
{
    lemma_run_from_user(chunks, outcomes, 0);
    assert(chunks.skip(0) =~= chunks);
}

/// The decisions of the read-eval loop.  It starts by reading, with no error
/// codes yet; it evaluates what it read and returns `Ok` at the end of the
/// input.  For a file it goes on only while an evaluation reports no error
/// code, and returns the first other outcome as its error; for the user it
/// always goes on, and the user sees the outcome at the next read.
pub fn repl(source: ReplSource, event: ReplEvent) -> (action: ReplAction)
    ensures
        match event {
            ReplEvent::Start => action matches ReplAction::Read(ReplError::ErrorCodes(codes))
                && codes@.len() == 0,
            ReplEvent::Read(Some(code)) => action == ReplAction::Eval(code),
            ReplEvent::Read(None) => action == ReplAction::Return(Ok(())),
            ReplEvent::Evaluated(err) => match source {
                ReplSource::User => action == ReplAction::Read(err),
                ReplSource::File => match err {
                    ReplError::ErrorCodes(codes) => if codes@.len() == 0 {
                        action == ReplAction::Read(ReplError::ErrorCodes(codes))
                    } else {
                        action == ReplAction::Return(Err(ReplError::ErrorCodes(codes)))
                    },
                    other => action == ReplAction::Return(Err(other)),
                },
            },
        },
        source == ReplSource::User ==> !(action matches ReplAction::Return(Err(_))),
        !(event is Start) ==> action == repl_step(source, event),
{
    match event {
        ReplEvent::Start => ReplAction::Read(ReplError::ErrorCodes(Vec::new())),
        ReplEvent::Read(Some(code)) => ReplAction::Eval(code),
        ReplEvent::Read(None) => ReplAction::Return(Ok(())),
        ReplEvent::Evaluated(err) => match source {
            ReplSource::User => ReplAction::Read(err),
            ReplSource::File => match err {
                ReplError::ErrorCodes(codes) => if codes.len() == 0 {
                    ReplAction::Read(ReplError::ErrorCodes(codes))
                } else {
                    ReplAction::Return(Err(ReplError::ErrorCodes(codes)))
                },
                other => ReplAction::Return(Err(other)),
            },
        },
    }
}

/// The options of the simple command line: `-i`/`--interactive` and
/// `-v`/`--version`.
#[derive(Debug, Clone, Copy, PartialEq, Eq, Structural)]
pub struct Arguments {
    pub interactive: bool,
    pub version: bool,
}

pub open spec fn lone_dash_message() -> Seq<char> {
    "A \"-\" on it's own doesn't work as a flag"@
}

/// A group of short options, from position `k` of `arg` on.
pub open spec fn basic_short_options(a: Arguments, arg: Seq<char>, k: int) -> ArgsOutcome<
    Arguments,
>
    decreases arg.len() - k,
{
    if k < 0 || k >= arg.len() {
        ArgsOutcome::Parsed(a)
    } else if arg[k] == 'i' {
        basic_short_options(Arguments { interactive: true, ..a }, arg, k + 1)
    } else if arg[k] == 'v' {
        basic_short_options(Arguments { version: true, ..a }, arg, k + 1)
    } else {
        ArgsOutcome::Refused("Unknown short argument \"-"@ + seq![arg[k]] + "\""@)
    }
}

/// One argument of the simple command line.
pub open spec fn basic_argument_step(a: Arguments, seen: bool, arg: Seq<char>) -> ArgStep<
    Arguments,
> {
    if arg.len() == 0 {
        ArgStep::Aborted(arguments::empty_argument_message())
    } else if arg[0] == '-' {
        if arg.len() == 1 {
            ArgStep::Refused(lone_dash_message())
        } else if arg[1] == '-' {
            if arg == "--interactive"@ {
                ArgStep::Continue(Arguments { interactive: true, ..a }, seen)
            } else if arg == "--version"@ {
                ArgStep::Continue(Arguments { version: true, ..a }, seen)
            } else {
                ArgStep::Refused("Unknown keyword argument \""@ + arg + "\""@)
            }
        } else {
            match basic_short_options(a, arg, 1) {
                ArgsOutcome::Parsed(b) => ArgStep::Continue(b, seen),
                ArgsOutcome::Refused(m) => ArgStep::Refused(m),
                ArgsOutcome::Aborted(m) => ArgStep::Aborted(m),
            }
        }
    } else if !seen {
        ArgStep::Continue(a, true)
    } else {
        ArgStep::Refused("Expected flag, got \""@ + arg + "\""@)
    }
}

pub open spec fn basic_argument_steps(args: Seq<Seq<char>>) -> ArgStep<Arguments>
    decreases args.len(),
{
    if args.len() == 0 {
        ArgStep::Continue(Arguments { interactive: false, version: false }, false)
    } else {
        match basic_argument_steps(args.subrange(0, args.len() - 1)) {
            ArgStep::Continue(a, seen) => basic_argument_step(a, seen, args[args.len() - 1]),
            other => other,
        }
    }
}

/// Where the simple command line `args` (the program's name first) leads.
pub open spec fn basic_parse_outcome(args: Seq<Seq<char>>) -> ArgsOutcome<Arguments> {
    match basic_argument_steps(args) {
        ArgStep::Continue(a, _) => ArgsOutcome::Parsed(a),
        ArgStep::Refused(m) => ArgsOutcome::Refused(m),
        ArgStep::Aborted(m) => ArgsOutcome::Aborted(m),
    }
}

proof fn lemma_basic_steps_stop(args: Seq<Seq<char>>, k: int)
    requires
        0 <= k < args.len(),
        !(basic_argument_steps(args.take(k + 1)) is Continue),
    ensures
        basic_argument_steps(args) == basic_argument_steps(args.take(k + 1)),
    decreases args.len(),
{
    if args.len() == k + 1 {
        assert(args.take(k + 1) =~= args);
    } else {
        let shorter = args.subrange(0, args.len() - 1);
        assert(shorter.take(k + 1) =~= args.take(k + 1));
        lemma_basic_steps_stop(shorter, k);
    }
}

proof fn lemma_basic_short_options_flags(a: Arguments, arg: Seq<char>, k: int)
    requires
        1 <= k,
    ensures
        basic_short_options(a, arg, k) matches ArgsOutcome::Parsed(b) ==> {
            &&& b.interactive == (a.interactive || holds_from(arg, 'i', k))
            &&& b.version == (a.version || holds_from(arg, 'v', k))
        },
    decreases arg.len() - k,
{
    if k < arg.len() {
        let b = if arg[k] == 'i' {
            Arguments { interactive: true, ..a }
        } else {
            Arguments { version: true, ..a }
        };
        lemma_basic_short_options_flags(b, arg, k + 1);
        lemma_holds_from_step(arg, 'i', k);
        lemma_holds_from_step(arg, 'v', k);
    }
}

proof fn lemma_basic_steps_flags(args: Seq<Seq<char>>)
    ensures
        basic_argument_steps(args) matches ArgStep::Continue(a, _) ==> {
            &&& a.interactive == exists|i: int|
                0 <= i < args.len() && sets_option(#[trigger] args[i], 'i', "--interactive"@)
            &&& a.version == exists|i: int|
                0 <= i < args.len() && sets_option(#[trigger] args[i], 'v', "--version"@)
        },
    decreases args.len(),
{
    reveal_strlit("--interactive");
    reveal_strlit("--version");
    if args.len() > 0 {
        let prev = args.subrange(0, args.len() - 1);
        let arg = args[args.len() - 1];
        lemma_basic_steps_flags(prev);
        if let ArgStep::Continue(a, seen) = basic_argument_steps(prev) {
            lemma_basic_short_options_flags(a, arg, 1);
            if basic_argument_step(a, seen, arg) is Continue {
                assert forall|i: int| 0 <= i < args.len() - 1 implies #[trigger] args[i]
                    == prev[i] by {}
                assert forall|c: char, long: Seq<char>|
                    (exists|i: int|
                        0 <= i < args.len() && sets_option(#[trigger] args[i], c, long)) == ((
                    exists|i: int| 0 <= i < prev.len() && sets_option(#[trigger] prev[i], c, long))
                        || sets_option(arg, c, long)) by {
                    if exists|i: int| 0 <= i < args.len() && sets_option(#[trigger] args[i], c, long) {
                        let i = choose|i: int|
                            0 <= i < args.len() && sets_option(#[trigger] args[i], c, long);
                        if i < args.len() - 1 {
                            assert(sets_option(prev[i], c, long));
                        }
                    }
                    if exists|i: int| 0 <= i < prev.len() && sets_option(#[trigger] prev[i], c, long) {
                        let i = choose|i: int|
                            0 <= i < prev.len() && sets_option(#[trigger] prev[i], c, long);
                        assert(sets_option(args[i], c, long));
                    }
                }
            }
        }
    }
}

/// On the simple command line too, the order and the repetition of the
/// options do not matter: where it is accepted, the shell is interactive
/// (shows its version) exactly when some argument is `--interactive`
/// (`--version`) or a group of short options that holds `i` (`v`).
pub proof fn law_basic_options_are_a_set(args: Seq<Seq<char>>)
    ensures
        basic_parse_outcome(args) matches ArgsOutcome::Parsed(a) ==> a == (Arguments {
            interactive: exists|i: int|
                0 <= i < args.len() && sets_option(#[trigger] args[i], 'i', "--interactive"@),
            version: exists|i: int|
                0 <= i < args.len() && sets_option(#[trigger] args[i], 'v', "--version"@),
        }),
{
    lemma_basic_steps_flags(args);
}

/// An operand of the simple command line: a non-empty argument that does
/// not start with `-`.
pub open spec fn is_basic_operand(arg: Seq<char>) -> bool {
    arg.len() > 0 && arg[0] != '-'
}

proof fn lemma_basic_steps_seen(args: Seq<Seq<char>>)
    ensures
        basic_argument_steps(args) matches ArgStep::Continue(_, seen) ==> seen == exists|k: int|
            0 <= k < args.len() && is_basic_operand(#[trigger] args[k]),
    decreases args.len(),
{
    if args.len() > 0 {
        let prev = args.subrange(0, args.len() - 1);
        lemma_basic_steps_seen(prev);
        if basic_argument_steps(args) is Continue {
            assert forall|k: int| 0 <= k < prev.len() implies #[trigger] prev[k] == args[k] by {}
            if exists|k: int| 0 <= k < args.len() && is_basic_operand(#[trigger] args[k]) {
                let k = choose|k: int| 0 <= k < args.len() && is_basic_operand(#[trigger] args[k]);
                if k < prev.len() {
                    assert(is_basic_operand(prev[k]));
                }
            }
            if exists|k: int| 0 <= k < prev.len() && is_basic_operand(#[trigger] prev[k]) {
                let k = choose|k: int| 0 <= k < prev.len() && is_basic_operand(#[trigger] prev[k]);
                assert(is_basic_operand(args[k]));
            }
        }
    }
}

/// The simple command line takes one operand, the program's name: where an
/// operand follows another and the arguments before it are accepted, the
/// command line is refused at the second one.
pub proof fn law_basic_one_operand(args: Seq<Seq<char>>, i: int, j: int)
    requires
        0 <= i < j < args.len(),
        is_basic_operand(args[i]),
        is_basic_operand(args[j]),
        basic_parse_outcome(args.take(j)) is Parsed,
    ensures
        basic_parse_outcome(args) == ArgsOutcome::<Arguments>::Refused(
            "Expected flag, got \""@ + args[j] + "\""@,
        ),
{
    let p = args.take(j);
    lemma_basic_steps_seen(p);
    assert(p[i] == args[i]);
    assert(args.take(j + 1).subrange(0, j) =~= p);
    assert(args.take(j + 1)[j] == args[j]);
    lemma_basic_steps_stop(args, j);
}

/// An argument that the simple command line takes: an operand,
/// `--interactive`, `--version`, or a group of short options (one `-`, then
/// letters) made of `i` and `v` only.
pub open spec fn basic_accepted_argument(arg: Seq<char>) -> bool {
    ||| is_basic_operand(arg)
    ||| arg == "--interactive"@
    ||| arg == "--version"@
    ||| (arg.len() >= 2 && arg[0] == '-' && arg[1] != '-' && forall|k: int|
        1 <= k < arg.len() ==> #[trigger] arg[k] == 'i' || arg[k] == 'v')
}

/// No operand of the simple command line follows another.
pub open spec fn at_most_one_basic_operand(args: Seq<Seq<char>>) -> bool {
    forall|i: int, j: int|
        0 <= i < j < args.len() && is_basic_operand(#[trigger] args[i]) ==> !is_basic_operand(
            #[trigger] args[j],
        )
}

proof fn lemma_basic_short_options_parsed(a: Arguments, arg: Seq<char>, k: int)
    requires
        1 <= k,
    ensures
        basic_short_options(a, arg, k) is Parsed <==> forall|m: int|
            k <= m < arg.len() ==> #[trigger] arg[m] == 'i' || arg[m] == 'v',
    decreases arg.len() - k,
{
    if k < arg.len() {
        let b = if arg[k] == 'i' {
            Arguments { interactive: true, ..a }
        } else {
            Arguments { version: true, ..a }
        };
        lemma_basic_short_options_parsed(b, arg, k + 1);
    }
}

proof fn lemma_basic_steps_accepted(args: Seq<Seq<char>>)
    ensures
        basic_argument_steps(args) is Continue <==> (forall|k: int|
            0 <= k < args.len() ==> basic_accepted_argument(#[trigger] args[k]))
            && at_most_one_basic_operand(args),
    decreases args.len(),
{
    reveal_strlit("--interactive");
    reveal_strlit("--version");
    if args.len() > 0 {
        let prev = args.subrange(0, args.len() - 1);
        let arg = args[args.len() - 1];
        let last = args.len() - 1;
        lemma_basic_steps_accepted(prev);
        lemma_basic_steps_seen(prev);
        assert forall|k: int| 0 <= k < prev.len() implies #[trigger] prev[k] == args[k] by {}
        if let ArgStep::Continue(a, _) = basic_argument_steps(prev) {
            lemma_basic_short_options_parsed(a, arg, 1);
        }
        if basic_argument_steps(args) is Continue {
            assert(basic_argument_steps(prev) is Continue);
            if let ArgStep::Continue(a, seen) = basic_argument_steps(prev) {
                assert(basic_argument_step(a, seen, arg) is Continue);
                assert(basic_accepted_argument(arg));
                assert forall|i: int, j: int|
                    0 <= i < j < args.len() && is_basic_operand(#[trigger] args[i])
                        implies !is_basic_operand(#[trigger] args[j]) by {
                    assert(is_basic_operand(prev[i]));
                    if j == last {
                        assert(seen);
                        assert(!is_basic_operand(arg));
                    } else {
                        assert(at_most_one_basic_operand(prev));
                        assert(is_basic_operand(prev[i]) ==> !is_basic_operand(prev[j]));
                        assert(prev[j] == args[j]);
                    }
                }
            }
            assert forall|k: int| 0 <= k < args.len() implies basic_accepted_argument(
                #[trigger] args[k],
            ) by {
                if k < last {
                    assert(basic_accepted_argument(prev[k]));
                }
            }
        } else {
            if (forall|k: int| 0 <= k < args.len() ==> basic_accepted_argument(#[trigger] args[k]))
                && at_most_one_basic_operand(args) {
                assert forall|k: int| 0 <= k < prev.len() implies basic_accepted_argument(
                    #[trigger] prev[k],
                ) by {
                    assert(basic_accepted_argument(args[k]));
                }
                assert forall|i: int, j: int|
                    0 <= i < j < prev.len() && is_basic_operand(#[trigger] prev[i])
                        implies !is_basic_operand(#[trigger] prev[j]) by {
                    assert(is_basic_operand(args[i]));
                    assert(!is_basic_operand(args[j]));
                }
                assert(basic_accepted_argument(args[last]));
                if let ArgStep::Continue(a, seen) = basic_argument_steps(prev) {
                    if seen {
                        let i = choose|i: int|
                            0 <= i < prev.len() && is_basic_operand(#[trigger] prev[i]);
                        assert(is_basic_operand(args[i]));
                        assert(!is_basic_operand(args[last]));
                    }
                }
            }
        }
    }
}

/// The simple command line is accepted exactly when each argument is one
/// that it takes and no operand follows another.
pub proof fn law_basic_accepted_arguments(args: Seq<Seq<char>>)
    ensures
        basic_parse_outcome(args) is Parsed <==> (forall|k: int|
            0 <= k < args.len() ==> basic_accepted_argument(#[trigger] args[k]))
            && at_most_one_basic_operand(args),
{
    lemma_basic_steps_accepted(args);
}

fn basic_short_options_exec(a: Arguments, arg: &Vec<char>) -> (r: Result<Arguments, Vec<char>>)
    requires
        arg@.len() >= 1,
    ensures
        match basic_short_options(a, arg@, 1) {
            ArgsOutcome::Parsed(b) => r == Ok::<Arguments, Vec<char>>(b),
            ArgsOutcome::Refused(m) => r matches Err(msg) && msg@ == m,
            ArgsOutcome::Aborted(_) => false,
        },
{
    let mut b = a;
    let mut q: usize = 1;
    while q < arg.len()
        invariant
            1 <= q <= arg@.len(),
            basic_short_options(a, arg@, 1) == basic_short_options(b, arg@, q as int),
        decreases arg@.len() - q,
    {
        if arg[q] == 'i' {
            b = Arguments { interactive: true, ..b };
        } else if arg[q] == 'v' {
            b = Arguments { version: true, ..b };
        } else {
            let mut msg: Vec<char> = Vec::new();
            push_str(&mut msg, "Unknown short argument \"-");
            msg.push(arg[q]);
            push_str(&mut msg, "\"");
            assert(msg@ =~= "Unknown short argument \"-"@ + seq![arg@[q as int]] + "\""@);
            return Err(msg);
        }
        q = q + 1;
    }
    Ok(b)
}

fn basic_run(args: &Vec<String>) -> (r: Result<Arguments, (bool, Vec<char>)>)
    ensures
        match basic_parse_outcome(arguments::texts(args@)) {
            ArgsOutcome::Parsed(a) => r == Ok::<Arguments, (bool, Vec<char>)>(a),
            ArgsOutcome::Refused(m) => r matches Err((false, msg)) && msg@ == m,
            ArgsOutcome::Aborted(m) => r matches Err((true, msg)) && msg@ == m,
        },
{
    let ghost all = arguments::texts(args@);
    let mut a = Arguments { interactive: false, version: false };
    let mut seen = false;
    let mut k: usize = 0;
    while k < args.len()
        invariant
            k <= args@.len(),
            all == arguments::texts(args@),
            basic_argument_steps(all.take(k as int)) == ArgStep::Continue(a, seen),
        decreases args@.len() - k,
    {
        assert(all.take(k + 1).subrange(0, k as int) =~= all.take(k as int));
        let arg = chars_of(args[k].as_str());
        assert(all.take(k + 1)[k as int] == arg@);
        if arg.len() == 0 {
            let mut msg: Vec<char> = Vec::new();
            push_str(&mut msg, "The argument should never be empty!");
            proof {
                lemma_basic_steps_stop(all, k as int);
            }
            return Err((true, msg));
        } else if arg[0] == '-' {
            if arg.len() == 1 {
                let mut msg: Vec<char> = Vec::new();
                push_str(&mut msg, "A \"-\" on it's own doesn't work as a flag");
                proof {
                    lemma_basic_steps_stop(all, k as int);
                }
                return Err((false, msg));
            } else if arg[1] == '-' {
                if same_text(&arg, "--interactive") {
                    a = Arguments { interactive: true, ..a };
                } else if same_text(&arg, "--version") {
                    a = Arguments { version: true, ..a };
                } else {
                    let msg = quoted_message("Unknown keyword argument \"", &arg);
                    proof {
                        lemma_basic_steps_stop(all, k as int);
                    }
                    return Err((false, msg));
                }
            } else {
                match basic_short_options_exec(a, &arg) {
                    Ok(b) => {
                        a = b;
                    },
                    Err(msg) => {
                        proof {
                            lemma_basic_steps_stop(all, k as int);
                        }
                        return Err((false, msg));
                    },
                }
            }
        } else if !seen {
            seen = true;
        } else {
            let msg = quoted_message("Expected flag, got \"", &arg);
            proof {
                lemma_basic_steps_stop(all, k as int);
            }
            return Err((false, msg));
        }
        k = k + 1;
    }
    assert(all.take(k as int) =~= all);
    Ok(a)
}

impl Arguments {
    /// Parses the simple command line `args` (the program's name first):
    /// `Ok` with the options, or `Err` with the message for the first
    /// argument that is refused.
    pub fn parse(args: &Vec<String>) -> (r: Result<Arguments, String>)
        requires
            !(basic_parse_outcome(arguments::texts(args@)) is Aborted),
        ensures
            match basic_parse_outcome(arguments::texts(args@)) {
                ArgsOutcome::Parsed(a) => r == Ok::<Arguments, String>(a),
                ArgsOutcome::Refused(m) => r matches Err(msg) && msg@ == m,
                ArgsOutcome::Aborted(_) => false,
            },
    {
        match basic_run(args) {
            Ok(a) => Ok(a),
            Err((_, msg)) => Err(string_of(msg.as_slice())),
        }
    }

    /// The message with which the program stops on the simple command line
    /// `args` (an empty argument), if it stops on it; `None` where `parse`
    /// applies.
    pub fn abort_message(args: &Vec<String>) -> (r: Option<String>)
        ensures
            match basic_parse_outcome(arguments::texts(args@)) {
                ArgsOutcome::Aborted(m) => r matches Some(msg) && msg@ == m,
                _ => r is None,
            },
    {
        match basic_run(args) {
            Err((true, msg)) => Some(string_of(msg.as_slice())),
            _ => None,
        }
    }
}

} // verus!
