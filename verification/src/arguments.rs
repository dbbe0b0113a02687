//! The command line of the shell.
use vstd::prelude::*;

use crate::text::{chars_of, push_str, quoted_message, same_text, string_of};

verus! {

/// The options given to the shell.
#[derive(Debug, Clone, Copy, PartialEq, Eq, Structural)]
pub struct Arguments {
    pub interactive: bool,
    pub version: bool,
    pub login: bool,
}

/// Where the command line leads: the options, an error message, or a stop
/// of the program with a message (an option that the shell does not handle).
pub enum ArgsOutcome<A> {
    Parsed(A),
    Refused(Seq<char>),
    Aborted(Seq<char>),
}

/// The state after a prefix of the command line: the options so far and
/// whether the program's own name (the first operand) was seen.
pub enum ArgStep<A> {
    Continue(A, bool),
    Refused(Seq<char>),
    Aborted(Seq<char>),
}

/// The options before any argument: interactive, no version, no login.
pub open spec fn initial_arguments() -> Arguments {
    Arguments { interactive: true, version: false, login: false }
}

/// The letters of `-a -b -C -e -f -m -n -o -v -x`, the options of `set`.
pub open spec fn is_set_option(c: char) -> bool {
    c == 'a' || c == 'b' || c == 'C' || c == 'e' || c == 'f' || c == 'm' || c == 'n' || c == 'o'
        || c == 'v' || c == 'x'
}

pub open spec fn command_string_message() -> Seq<char> {
    "the -c option (command_string operand) is not handled"@
}

pub open spec fn standard_input_message() -> Seq<char> {
    "the -s option (read commands from standard input) is not handled"@
}

pub open spec fn set_option_message() -> Seq<char> {
    "the options of set are not handled"@
}

pub open spec fn plus_message() -> Seq<char> {
    "options that start with + are not handled"@
}

pub open spec fn empty_argument_message() -> Seq<char> {
    "The argument should never be empty!"@
}

/// The letters of a group of short options, from position `k` of `arg` on.
pub open spec fn short_options(a: Arguments, arg: Seq<char>, k: int) -> ArgsOutcome<Arguments>
    decreases arg.len() - k,
{
    if k < 0 || k >= arg.len() {
        ArgsOutcome::Parsed(a)
    } else {
        let c = arg[k];
        if c == 'i' {
            short_options(Arguments { interactive: true, ..a }, arg, k + 1)
        } else if c == 'l' {
            short_options(Arguments { login: true, ..a }, arg, k + 1)
        } else if c == 'V' {
            short_options(Arguments { version: true, ..a }, arg, k + 1)
        } else if c == 'c' {
            ArgsOutcome::Aborted(command_string_message())
        } else if c == 's' {
            ArgsOutcome::Aborted(standard_input_message())
        } else if is_set_option(c) {
            ArgsOutcome::Aborted(set_option_message())
        } else {
            ArgsOutcome::Refused("Unknown short argument \"-"@ + seq![c] + "\""@)
        }
    }
}

/// One argument, given the options so far and whether the program's name
/// was seen.
pub open spec fn argument_step(a: Arguments, seen: bool, arg: Seq<char>) -> ArgStep<Arguments> {
    if arg.len() == 0 {
        ArgStep::Aborted(empty_argument_message())
    } else if arg[0] == '-' {
        if arg.len() == 1 {
            ArgStep::Continue(a, seen)
        } else if arg[1] == '-' {
            if arg == "--interactive"@ {
                ArgStep::Continue(Arguments { interactive: true, ..a }, seen)
            } else if arg == "--login"@ {
                ArgStep::Continue(Arguments { login: true, ..a }, seen)
            } else if arg == "--version"@ {
                ArgStep::Continue(Arguments { version: true, ..a }, seen)
            } else if arg == "--"@ {
                ArgStep::Continue(a, seen)
            } else {
                ArgStep::Refused("Unknown keyword argument \""@ + arg + "\""@)
            }
        } else {
            match short_options(a, arg, 1) {
                ArgsOutcome::Parsed(b) => ArgStep::Continue(b, seen),
                ArgsOutcome::Refused(m) => ArgStep::Refused(m),
                ArgsOutcome::Aborted(m) => ArgStep::Aborted(m),
            }
        }
    } else if arg[0] == '+' {
        ArgStep::Aborted(plus_message())
    } else if !seen {
        ArgStep::Continue(a, true)
    } else {
        ArgStep::Refused("Expected flag, got \""@ + arg + "\""@)
    }
}

/// The arguments processed in order, up to the first that ends the parse.
pub open spec fn argument_steps(args: Seq<Seq<char>>) -> ArgStep<Arguments>
    decreases args.len(),
{
    if args.len() == 0 {
        ArgStep::Continue(initial_arguments(), false)
    } else {
        match argument_steps(args.subrange(0, args.len() - 1)) {
            ArgStep::Continue(a, seen) => argument_step(a, seen, args[args.len() - 1]),
            other => other,
        }
    }
}

/// Where the command line `args` (the program's name first) leads.
pub open spec fn parse_outcome(args: Seq<Seq<char>>) -> ArgsOutcome<Arguments> {
    match argument_steps(args) {
        ArgStep::Continue(a, _) => ArgsOutcome::Parsed(a),
        ArgStep::Refused(m) => ArgsOutcome::Refused(m),
        ArgStep::Aborted(m) => ArgsOutcome::Aborted(m),
    }
}

/// The characters of each argument.
pub open spec fn texts(args: Seq<String>) -> Seq<Seq<char>> {
    args.map_values(|s: String| s@)
}

/// The outcome of the arguments as exec values: `Ok` with the options or
/// `Err` with a message, tagged with whether the message stops the program.
fn run(args: &Vec<String>) -> (r: Result<Arguments, (bool, Vec<char>)>)
    ensures
        match parse_outcome(texts(args@)) {
            ArgsOutcome::Parsed(a) => r == Ok::<Arguments, (bool, Vec<char>)>(a),
            ArgsOutcome::Refused(m) => r matches Err((false, msg)) && msg@ == m,
            ArgsOutcome::Aborted(m) => r matches Err((true, msg)) && msg@ == m,
        },
{
    let mut a = Arguments { interactive: true, version: false, login: false };
    let mut seen = false;
    let mut k: usize = 0;
    while k < args.len()
        invariant
            k <= args@.len(),
            argument_steps(texts(args@).take(k as int)) == ArgStep::Continue(a, seen),
        decreases args@.len() - k,
    {
        let ghost prefix = texts(args@).take(k as int);
        proof {
            assert(texts(args@).take(k + 1).subrange(0, k as int) =~= prefix);
        }
        let arg = chars_of(args[k].as_str());
        assert(texts(args@).take(k + 1)[k as int] == arg@);
        if arg.len() == 0 {
            let mut msg: Vec<char> = Vec::new();
            push_str(&mut msg, "The argument should never be empty!");
            proof { lemma_steps_stop(texts(args@), k as int); }
            return Err((true, msg));
        } else if arg[0] == '-' {
            if arg.len() == 1 {
            } else if arg[1] == '-' {
                if same_text(&arg, "--interactive") {
                    a = Arguments { interactive: true, ..a };
                } else if same_text(&arg, "--login") {
                    a = Arguments { login: true, ..a };
                } else if same_text(&arg, "--version") {
                    a = Arguments { version: true, ..a };
                } else if same_text(&arg, "--") {
                } else {
                    let msg = quoted_message("Unknown keyword argument \"", &arg);
                    proof { lemma_steps_stop(texts(args@), k as int); }
                    return Err((false, msg));
                }
            } else {
                match short_options_exec(a, &arg) {
                    Ok(b) => {
                        a = b;
                    },
                    Err(e) => {
                        proof { lemma_steps_stop(texts(args@), k as int); }
                        return Err(e);
                    },
                }
            }
        } else if arg[0] == '+' {
            let mut msg: Vec<char> = Vec::new();
            push_str(&mut msg, "options that start with + are not handled");
            proof { lemma_steps_stop(texts(args@), k as int); }
            return Err((true, msg));
        } else if !seen {
            seen = true;
        } else {
            let msg = quoted_message("Expected flag, got \"", &arg);
            proof { lemma_steps_stop(texts(args@), k as int); }
            return Err((false, msg));
        }
        k = k + 1;
    }
    assert(texts(args@).take(k as int) =~= texts(args@));
    Ok(a)
}

/// Once a prefix of the arguments ends the parse, the rest is not read.
proof fn lemma_steps_stop(args: Seq<Seq<char>>, k: int)
    requires
        0 <= k < args.len(),
        !(argument_steps(args.take(k + 1)) is Continue),
    ensures
        argument_steps(args) == argument_steps(args.take(k + 1)),
    decreases args.len(),
{
    if args.len() == k + 1 {
        assert(args.take(k + 1) =~= args);
    } else {
        let shorter = args.subrange(0, args.len() - 1);
        assert(shorter.take(k + 1) =~= args.take(k + 1));
        lemma_steps_stop(shorter, k);
    }
}

/// `arg` holds the letter `c` from position `k` on.
pub open spec fn holds_from(arg: Seq<char>, c: char, k: int) -> bool {
    exists|m: int| k <= m < arg.len() && #[trigger] arg[m] == c
}

/// `arg` sets the option of the letter `c` or of the long form `long`: it is
/// `long`, or a group of short options (one `-` and letters) holding `c`.
pub open spec fn sets_option(arg: Seq<char>, c: char, long: Seq<char>) -> bool {
    arg == long || (arg.len() >= 2 && arg[0] == '-' && arg[1] != '-' && holds_from(arg, c, 1))
}

pub proof fn lemma_holds_from_step(arg: Seq<char>, c: char, k: int)
    requires
        0 <= k < arg.len(),
    ensures
        holds_from(arg, c, k) == (arg[k] == c || holds_from(arg, c, k + 1)),
{
    if holds_from(arg, c, k) {
        let m = choose|m: int| k <= m < arg.len() && #[trigger] arg[m] == c;
        if m != k {
            assert(k + 1 <= m < arg.len() && arg[m] == c);
        }
    }
    if holds_from(arg, c, k + 1) {
        let m = choose|m: int| k + 1 <= m < arg.len() && #[trigger] arg[m] == c;
        assert(k <= m < arg.len() && arg[m] == c);
    }
}

proof fn lemma_short_options_flags(a: Arguments, arg: Seq<char>, k: int)
    requires
        1 <= k,
    ensures
        short_options(a, arg, k) matches ArgsOutcome::Parsed(b) ==> {
            &&& b.interactive == (a.interactive || holds_from(arg, 'i', k))
            &&& b.login == (a.login || holds_from(arg, 'l', k))
            &&& b.version == (a.version || holds_from(arg, 'V', k))
        },
    decreases arg.len() - k,
{
    if k < arg.len() {
        let c = arg[k];
        let b = if c == 'i' {
            Arguments { interactive: true, ..a }
        } else if c == 'l' {
            Arguments { login: true, ..a }
        } else {
            Arguments { version: true, ..a }
        };
        lemma_short_options_flags(b, arg, k + 1);
        lemma_holds_from_step(arg, 'i', k);
        lemma_holds_from_step(arg, 'l', k);
        lemma_holds_from_step(arg, 'V', k);
    }
}

proof fn lemma_steps_flags(args: Seq<Seq<char>>)
    ensures
        argument_steps(args) matches ArgStep::Continue(a, _) ==> {
            &&& a.interactive
            &&& a.login == exists|i: int|
                0 <= i < args.len() && sets_option(#[trigger] args[i], 'l', "--login"@)
            &&& a.version == exists|i: int|
                0 <= i < args.len() && sets_option(#[trigger] args[i], 'V', "--version"@)
        },
    decreases args.len(),
{
    reveal_strlit("--interactive");
    reveal_strlit("--login");
    reveal_strlit("--version");
    reveal_strlit("--");
    if args.len() > 0 {
        let prev = args.subrange(0, args.len() - 1);
        let arg = args[args.len() - 1];
        lemma_steps_flags(prev);
        if let ArgStep::Continue(a, seen) = argument_steps(prev) {
            lemma_short_options_flags(a, arg, 1);
            if argument_step(a, seen, arg) is Continue {
                assert forall|i: int| 0 <= i < args.len() - 1 implies #[trigger] args[i]
                    == prev[i] by {}
                assert forall|c: char, long: Seq<char>|
                    (exists|i: int|
                        0 <= i < args.len() && sets_option(#[trigger] args[i], c, long)) == ((
                    exists|i: int| 0 <= i < prev.len() && sets_option(#[trigger] prev[i], c, long))
                        || sets_option(arg, c, long)) by {
                    if exists|i: int| 0 <= i < args.len() && sets_option(#[trigger] args[i], c, long) {
                        let i = choose|i: int|
                            0 <= i < args.len() && sets_option(#[trigger] args[i], c, long);
                        if i < args.len() - 1 {
                            assert(sets_option(prev[i], c, long));
                        }
                    }
                    if exists|i: int| 0 <= i < prev.len() && sets_option(#[trigger] prev[i], c, long) {
                        let i = choose|i: int|
                            0 <= i < prev.len() && sets_option(#[trigger] prev[i], c, long);
                        assert(sets_option(args[i], c, long));
                    }
                }
                if arg.len() >= 2 && arg[0] == '-' && arg[1] == '-' {
                    assert(!sets_option(arg, 'l', "--login"@) || arg == "--login"@);
                }
            }
        }
    }
}

/// The order and the repetition of the options do not matter: where the
/// command line is accepted, the shell is interactive, and it is a login
/// shell (shows its version) exactly when some argument is `--login`
/// (`--version`) or a group of short options that holds `l` (`V`).
pub proof fn lemma_options_are_a_set(args: Seq<Seq<char>>)
    ensures
        parse_outcome(args) matches ArgsOutcome::Parsed(a) ==> a == (Arguments {
            interactive: true,
            login: exists|i: int|
                0 <= i < args.len() && sets_option(#[trigger] args[i], 'l', "--login"@),
            version: exists|i: int|
                0 <= i < args.len() && sets_option(#[trigger] args[i], 'V', "--version"@),
        }),
{
    lemma_steps_flags(args);
}

/// An operand: a non-empty argument that starts with neither `-` nor `+`.
pub open spec fn is_operand(arg: Seq<char>) -> bool {
    arg.len() > 0 && arg[0] != '-' && arg[0] != '+'
}

/// While the parse goes on, the program's name has been seen exactly when
/// an operand has.
proof fn lemma_steps_seen(args: Seq<Seq<char>>)
    ensures
        argument_steps(args) matches ArgStep::Continue(_, seen) ==> seen == exists|k: int|
            0 <= k < args.len() && is_operand(#[trigger] args[k]),
    decreases args.len(),
{
    if args.len() > 0 {
        let prev = args.subrange(0, args.len() - 1);
        lemma_steps_seen(prev);
        if argument_steps(args) is Continue {
            assert forall|k: int| 0 <= k < prev.len() implies #[trigger] prev[k] == args[k] by {}
            if exists|k: int| 0 <= k < args.len() && is_operand(#[trigger] args[k]) {
                let k = choose|k: int| 0 <= k < args.len() && is_operand(#[trigger] args[k]);
                if k < prev.len() {
                    assert(is_operand(prev[k]));
                }
            }
            if exists|k: int| 0 <= k < prev.len() && is_operand(#[trigger] prev[k]) {
                let k = choose|k: int| 0 <= k < prev.len() && is_operand(#[trigger] prev[k]);
                assert(is_operand(args[k]));
            }
        }
    }
}

/// The command line takes one operand, the program's name, wherever it
/// stands: where an operand follows another, with any options between them,
/// and the arguments before it are accepted, the command line is refused at
/// the second one.
pub proof fn law_one_operand(args: Seq<Seq<char>>, i: int, j: int)
    requires
        0 <= i < j < args.len(),
        is_operand(args[i]),
        is_operand(args[j]),
        parse_outcome(args.take(j)) is Parsed,
    ensures
        parse_outcome(args) == ArgsOutcome::<Arguments>::Refused(
            "Expected flag, got \""@ + args[j] + "\""@,
        ),
{
    let p = args.take(j);
    lemma_steps_seen(p);
    assert(p[i] == args[i]);
    assert(args.take(j + 1).subrange(0, j) =~= p);
    assert(args.take(j + 1)[j] == args[j]);
    lemma_steps_stop(args, j);
}

/// An argument that the command line takes: an operand, `-`, `--`, one of
/// `--interactive`, `--login` and `--version`, or a group of short options
/// (one `-`, then letters) made of `i`, `l` and `V` only.
pub open spec fn accepted_argument(arg: Seq<char>) -> bool {
    ||| is_operand(arg)
    ||| arg == seq!['-']
    ||| arg == seq!['-', '-']
    ||| arg == "--interactive"@
    ||| arg == "--login"@
    ||| arg == "--version"@
    ||| (arg.len() >= 2 && arg[0] == '-' && arg[1] != '-' && forall|k: int|
        1 <= k < arg.len() ==> #[trigger] arg[k] == 'i' || arg[k] == 'l' || arg[k] == 'V')
}

/// No operand follows another.
pub open spec fn at_most_one_operand(args: Seq<Seq<char>>) -> bool {
    forall|i: int, j: int|
        0 <= i < j < args.len() && is_operand(#[trigger] args[i]) ==> !is_operand(
            #[trigger] args[j],
        )
}

proof fn lemma_short_options_parsed(a: Arguments, arg: Seq<char>, k: int)
    requires
        1 <= k,
    ensures
        short_options(a, arg, k) is Parsed <==> forall|m: int|
            k <= m < arg.len() ==> #[trigger] arg[m] == 'i' || arg[m] == 'l' || arg[m] == 'V',
    decreases arg.len() - k,
{
    if k < arg.len() {
        let c = arg[k];
        let b = if c == 'i' {
            Arguments { interactive: true, ..a }
        } else if c == 'l' {
            Arguments { login: true, ..a }
        } else {
            Arguments { version: true, ..a }
        };
        lemma_short_options_parsed(b, arg, k + 1);
    }
}

proof fn lemma_steps_accepted(args: Seq<Seq<char>>)
    ensures
        argument_steps(args) is Continue <==> (forall|k: int|
            0 <= k < args.len() ==> accepted_argument(#[trigger] args[k])) && at_most_one_operand(
            args,
        ),
    decreases args.len(),
{
    reveal_strlit("--interactive");
    reveal_strlit("--login");
    reveal_strlit("--version");
    reveal_strlit("--");
    if args.len() > 0 {
        let prev = args.subrange(0, args.len() - 1);
        let arg = args[args.len() - 1];
        let last = args.len() - 1;
        lemma_steps_accepted(prev);
        lemma_steps_seen(prev);
        assert forall|k: int| 0 <= k < prev.len() implies #[trigger] prev[k] == args[k] by {}
        assert(seq!['-', '-'] =~= "--"@);
        if arg.len() >= 2 && arg[0] == '-' && arg[1] != '-' {
            lemma_short_options_parsed(initial_arguments(), arg, 1);
            if let ArgStep::Continue(a, _) = argument_steps(prev) {
                lemma_short_options_parsed(a, arg, 1);
            }
        }
        if argument_steps(args) is Continue {
            assert(argument_steps(prev) is Continue);
            if let ArgStep::Continue(a, seen) = argument_steps(prev) {
                assert(argument_step(a, seen, arg) is Continue);
                if arg.len() == 1 && arg[0] == '-' {
                    assert(arg =~= seq!['-']);
                }
                assert(accepted_argument(arg));
                assert forall|i: int, j: int|
                    0 <= i < j < args.len() && is_operand(#[trigger] args[i]) implies !is_operand(
                    #[trigger] args[j],
                ) by {
                    assert(is_operand(prev[i]));
                    if j == last {
                        assert(seen);
                        assert(!is_operand(arg));
                    } else {
                        assert(at_most_one_operand(prev));
                        assert(is_operand(prev[i]) ==> !is_operand(prev[j]));
                        assert(prev[j] == args[j]);
                    }
                }
            }
            assert forall|k: int| 0 <= k < args.len() implies accepted_argument(
                #[trigger] args[k],
            ) by {
                if k < last {
                    assert(accepted_argument(prev[k]));
                }
            }
        } else {
            if (forall|k: int| 0 <= k < args.len() ==> accepted_argument(#[trigger] args[k]))
                && at_most_one_operand(args) {
                assert forall|k: int| 0 <= k < prev.len() implies accepted_argument(
                    #[trigger] prev[k],
                ) by {
                    assert(accepted_argument(args[k]));
                }
                assert forall|i: int, j: int|
                    0 <= i < j < prev.len() && is_operand(#[trigger] prev[i]) implies !is_operand(
                    #[trigger] prev[j],
                ) by {
                    assert(is_operand(args[i]));
                    assert(!is_operand(args[j]));
                }
                assert(accepted_argument(args[last]));
                if let ArgStep::Continue(a, seen) = argument_steps(prev) {
                    if seen {
                        let i = choose|i: int| 0 <= i < prev.len() && is_operand(#[trigger] prev[i]);
                        assert(is_operand(args[i]));
                        assert(!is_operand(args[last]));
                    }
                }
            }
        }
    }
}

/// The command line is accepted exactly when each argument is one that it
/// takes and no operand follows another.
pub proof fn law_accepted_arguments(args: Seq<Seq<char>>)
    ensures
        parse_outcome(args) is Parsed <==> (forall|k: int|
            0 <= k < args.len() ==> accepted_argument(#[trigger] args[k])) && at_most_one_operand(
            args,
        ),
{
    lemma_steps_accepted(args);
}

/// A letter of the short options that the shell takes: `i`, `l`, `V`.
pub open spec fn taken_letter(c: char) -> bool {
    c == 'i' || c == 'l' || c == 'V'
}

/// A letter of the short options that stop the shell: `c`, `s`, and the
/// options of `set`, `a b C e f m n o v x`.
pub open spec fn stopping_letter(c: char) -> bool {
    c == 'c' || c == 's' || c == 'a' || c == 'b' || c == 'C' || c == 'e' || c == 'f' || c == 'm'
        || c == 'n' || c == 'o' || c == 'v' || c == 'x'
}

/// From position `k` on, the first letter that the shell does not take is
/// one that stops it.
pub open spec fn stops_from(arg: Seq<char>, k: int) -> bool {
    exists|m: int|
        k <= m < arg.len() && stopping_letter(#[trigger] arg[m]) && forall|q: int|
            k <= q < m ==> taken_letter(#[trigger] arg[q])
}

/// An argument that stops the shell: an empty one, one that starts with
/// `+`, or a group of short options whose first letter that the shell does
/// not take stops it.
pub open spec fn stopping_argument(arg: Seq<char>) -> bool {
    ||| arg.len() == 0
    ||| arg[0] == '+'
    ||| (arg.len() >= 2 && arg[0] == '-' && arg[1] != '-' && stops_from(arg, 1))
}

proof fn lemma_short_options_stop(a: Arguments, arg: Seq<char>, k: int)
    requires
        1 <= k,
    ensures
        short_options(a, arg, k) is Aborted <==> stops_from(arg, k),
    decreases arg.len() - k,
{
    if k < arg.len() {
        let c = arg[k];
        let b = if c == 'i' {
            Arguments { interactive: true, ..a }
        } else if c == 'l' {
            Arguments { login: true, ..a }
        } else {
            Arguments { version: true, ..a }
        };
        lemma_short_options_stop(b, arg, k + 1);
        if taken_letter(c) {
            if stops_from(arg, k) {
                let m = choose|m: int|
                    k <= m < arg.len() && stopping_letter(#[trigger] arg[m]) && forall|q: int|
                        k <= q < m ==> taken_letter(#[trigger] arg[q]);
                assert(m != k);
                assert(stops_from(arg, k + 1));
            }
            if stops_from(arg, k + 1) {
                let m = choose|m: int|
                    k + 1 <= m < arg.len() && stopping_letter(#[trigger] arg[m]) && forall|q: int|
                        k + 1 <= q < m ==> taken_letter(#[trigger] arg[q]);
                assert forall|q: int| k <= q < m implies taken_letter(#[trigger] arg[q]) by {
                    if q > k {
                    }
                }
            }
        } else if stopping_letter(c) {
            assert(stops_from(arg, k)) by {
                assert(forall|q: int| k <= q < k ==> taken_letter(#[trigger] arg[q]));
            }
        } else {
            if stops_from(arg, k) {
                let m = choose|m: int|
                    k <= m < arg.len() && stopping_letter(#[trigger] arg[m]) && forall|q: int|
                        k <= q < m ==> taken_letter(#[trigger] arg[q]);
                if m > k {
                    assert(taken_letter(arg[k]));
                }
            }
        }
    }
}

proof fn lemma_step_stops(a: Arguments, seen: bool, arg: Seq<char>)
    ensures
        argument_step(a, seen, arg) is Aborted <==> stopping_argument(arg),
{
    reveal_strlit("--interactive");
    reveal_strlit("--login");
    reveal_strlit("--version");
    reveal_strlit("--");
    if arg.len() >= 2 && arg[0] == '-' && arg[1] != '-' {
        lemma_short_options_stop(a, arg, 1);
    }
}

proof fn lemma_steps_stops(args: Seq<Seq<char>>)
    ensures
        argument_steps(args) is Aborted <==> exists|j: int|
            0 <= j < args.len() && argument_steps(args.take(j)) is Continue && stopping_argument(
                #[trigger] args[j],
            ),
    decreases args.len(),
{
    if args.len() > 0 {
        let last = args.len() - 1;
        let prev = args.subrange(0, last);
        lemma_steps_stops(prev);
        assert(args.take(last) =~= prev);
        assert forall|j: int| 0 <= j < last implies #[trigger] args.take(j) == prev.take(j) by {
            assert(args.take(j) =~= prev.take(j));
        }
        assert forall|j: int| 0 <= j < last implies #[trigger] args[j] == prev[j] by {}
        if let ArgStep::Continue(a, seen) = argument_steps(prev) {
            lemma_step_stops(a, seen, args[last]);
            if exists|j: int|
                0 <= j < args.len() && argument_steps(args.take(j)) is Continue
                    && stopping_argument(#[trigger] args[j]) {
                let j = choose|j: int|
                    0 <= j < args.len() && argument_steps(args.take(j)) is Continue
                        && stopping_argument(#[trigger] args[j]);
                if j < last {
                    assert(argument_steps(prev.take(j)) is Continue && stopping_argument(prev[j]));
                    assert(prev.take(j + 1) =~= args.take(j + 1));
                    lemma_stops_early(prev, j);
                }
            }
        } else {
            if argument_steps(args) is Aborted {
                let j = choose|j: int|
                    0 <= j < prev.len() && argument_steps(prev.take(j)) is Continue
                        && stopping_argument(#[trigger] prev[j]);
                assert(args.take(j) == prev.take(j));
            }
            if exists|j: int|
                0 <= j < args.len() && argument_steps(args.take(j)) is Continue
                    && stopping_argument(#[trigger] args[j]) {
                let j = choose|j: int|
                    0 <= j < args.len() && argument_steps(args.take(j)) is Continue
                        && stopping_argument(#[trigger] args[j]);
                assert(j != last);
                assert(argument_steps(prev.take(j)) is Continue && stopping_argument(prev[j]));
            }
        }
    }
}

/// Where the arguments before `j` are accepted and `args[j]` stops the
/// shell, the steps up to and with `j` stop.
proof fn lemma_stops_early(args: Seq<Seq<char>>, j: int)
    requires
        0 <= j < args.len(),
        argument_steps(args.take(j)) is Continue,
        stopping_argument(args[j]),
    ensures
        argument_steps(args) is Aborted,
{
    if let ArgStep::Continue(a, seen) = argument_steps(args.take(j)) {
        lemma_step_stops(a, seen, args[j]);
    }
    assert(args.take(j + 1).subrange(0, j) =~= args.take(j));
    assert(args.take(j + 1)[j] == args[j]);
    assert(argument_steps(args.take(j + 1)) is Aborted);
    lemma_steps_stop(args, j);
}

/// The shell stops (rather than refusing the command line) exactly where
/// the arguments before some argument are accepted and that argument stops
/// it: an empty argument, one that starts with `+`, or a group of short
/// options whose first letter that the shell does not take is `c`, `s` or
/// an option of `set`.
pub proof fn law_stopping_arguments(args: Seq<Seq<char>>)
    ensures
        parse_outcome(args) is Aborted <==> exists|j: int|
            0 <= j < args.len() && parse_outcome(args.take(j)) is Parsed && stopping_argument(
                #[trigger] args[j],
            ),
{
    lemma_steps_stops(args);
}

fn short_options_exec(a: Arguments, arg: &Vec<char>) -> (r: Result<Arguments, (bool, Vec<char>)>)
    requires
        arg@.len() >= 1,
    ensures
        match short_options(a, arg@, 1) {
            ArgsOutcome::Parsed(b) => r == Ok::<Arguments, (bool, Vec<char>)>(b),
            ArgsOutcome::Refused(m) => r matches Err((false, msg)) && msg@ == m,
            ArgsOutcome::Aborted(m) => r matches Err((true, msg)) && msg@ == m,
        },
{
    let mut b = a;
    let mut k: usize = 1;
    while k < arg.len()
        invariant
            1 <= k <= arg@.len(),
            short_options(a, arg@, 1) == short_options(b, arg@, k as int),
        decreases arg@.len() - k,
    {
        let c = arg[k];
        if c == 'i' {
            b = Arguments { interactive: true, ..b };
        } else if c == 'l' {
            b = Arguments { login: true, ..b };
        } else if c == 'V' {
            b = Arguments { version: true, ..b };
        } else if c == 'c' {
            let mut msg: Vec<char> = Vec::new();
            push_str(&mut msg, "the -c option (command_string operand) is not handled");
            return Err((true, msg));
        } else if c == 's' {
            let mut msg: Vec<char> = Vec::new();
            push_str(&mut msg, "the -s option (read commands from standard input) is not handled");
            return Err((true, msg));
        } else if c == 'a' || c == 'b' || c == 'C' || c == 'e' || c == 'f' || c == 'm' || c == 'n'
            || c == 'o' || c == 'v' || c == 'x' {
            let mut msg: Vec<char> = Vec::new();
            push_str(&mut msg, "the options of set are not handled");
            return Err((true, msg));
        } else {
            let mut msg: Vec<char> = Vec::new();
            push_str(&mut msg, "Unknown short argument \"-");
            msg.push(c);
            push_str(&mut msg, "\"");
            assert(msg@ =~= "Unknown short argument \"-"@ + seq![c] + "\""@);
            return Err((false, msg));
        }
        k = k + 1;
    }
    Ok(b)
}

impl Arguments {
    /// Parses the command line `args` (the program's name first): `Ok` with
    /// the options, or `Err` with the message for the first argument that is
    /// refused.
    pub fn parse(args: &Vec<String>) -> (r: Result<Arguments, String>)
        requires
            !(parse_outcome(texts(args@)) is Aborted),
        ensures
            match parse_outcome(texts(args@)) {
                ArgsOutcome::Parsed(a) => r == Ok::<Arguments, String>(a),
                ArgsOutcome::Refused(m) => r matches Err(msg) && msg@ == m,
                ArgsOutcome::Aborted(_) => false,
            },
    {
        match run(args) {
            Ok(a) => Ok(a),
            Err((_, msg)) => Err(string_of(msg.as_slice())),
        }
    }

    /// The message with which the shell stops on the command line `args`,
    /// if it stops on it (an option that it does not handle, or an empty
    /// argument); `None` where `parse` applies.
    pub fn abort_message(args: &Vec<String>) -> (r: Option<String>)
        ensures
            match parse_outcome(texts(args@)) {
                ArgsOutcome::Aborted(m) => r matches Some(msg) && msg@ == m,
                _ => r is None,
            },
    {
        match run(args) {
            Err((true, msg)) => Some(string_of(msg.as_slice())),
            _ => None,
        }
    }
}

} // verus!
