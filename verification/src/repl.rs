pub mod grammar;
pub mod laws;
pub mod parser;
pub mod tree;

use vstd::prelude::*;

use crate::text::{decimal, digits, push_decimal, push_digits, push_str, string_of};
use grammar::CaseMessage;
use parser::ParseError;
use tree::Statement;

verus! {

/// Where the code to run comes from: the user at a prompt, or a file (by its
/// path, the bytes that the system gives for it).
#[derive(Debug)]
pub enum ReplSource {
    User,
    File(Vec<u8>),
}

/// Why a run of the loop did not succeed: the exit codes of the commands
/// that failed, or a syntax error message.
#[derive(Debug)]
pub enum ReplError {
    ErrorCodes(Vec<i32>),
    SyntaxError(String),
}

/// `codes` as a list: `[` the codes in decimal, separated by `, `, `]`.
pub open spec fn code_list(codes: Seq<i32>) -> Seq<char> {
    seq!['['] + joined_codes(codes) + seq![']']
}

pub open spec fn joined_codes(codes: Seq<i32>) -> Seq<char>
    decreases codes.len(),
{
    if codes.len() == 0 {
        Seq::empty()
    } else if codes.len() == 1 {
        decimal(codes[0] as int)
    } else {
        joined_codes(codes.subrange(0, codes.len() - 1)) + seq![',', ' '] + decimal(
            codes[codes.len() - 1] as int,
        )
    }
}

impl ReplError {
    /// The message that reports this error.
    pub open spec fn message(&self) -> Seq<char> {
        match self {
            ReplError::ErrorCodes(codes) => "these error codes were raised: "@ + code_list(codes@),
            ReplError::SyntaxError(err) => "this error was raised: "@ + err@,
        }
    }

    /// The message that reports this error (its `Display` text).
    pub fn describe(&self) -> (text: String)
        ensures
            text@ == self.message(),
    {
        let mut out: Vec<char> = Vec::new();
        match self {
            ReplError::ErrorCodes(codes) => {
                push_str(&mut out, "these error codes were raised: ");
                let ghost prefix = out@;
                out.push('[');
                let mut k: usize = 0;
                while k < codes.len()
                    invariant
                        k <= codes@.len(),
                        out@ == prefix + seq!['['] + joined_codes(codes@.take(k as int)),
                    decreases codes@.len() - k,
                {
                    let ghost before = out@;
                    if k > 0 {
                        out.push(',');
                        out.push(' ');
                    }
                    push_decimal(&mut out, codes[k]);
                    proof {
                        let t = codes@.take(k + 1);
                        assert(t.subrange(0, k as int) =~= codes@.take(k as int));
                        if k == 0 {
                            assert(codes@.take(0) =~= Seq::<i32>::empty());
                        }
                        assert(out@ =~= prefix + seq!['['] + joined_codes(t));
                    }
                    k = k + 1;
                }
                out.push(']');
                assert(codes@.take(codes@.len() as int) =~= codes@);
                assert(out@ =~= prefix + code_list(codes@));
            },
            ReplError::SyntaxError(err) => {
                push_str(&mut out, "this error was raised: ");
                push_str(&mut out, err.as_str());
            },
        }
        string_of(out.as_slice())
    }
}

/// The messages `messages`, in order, each after `: `.
pub open spec fn explanations(messages: Seq<CaseMessage>) -> Seq<char>
    decreases messages.len(),
{
    if messages.len() == 0 {
        Seq::empty()
    } else {
        explanations(messages.drop_last()) + ": "@ + messages.last().text()
    }
}

/// The report of a syntax error at byte `offset` of the source, explained by
/// `messages`.
pub open spec fn syntax_error_text(offset: nat, messages: Seq<CaseMessage>) -> Seq<char> {
    "syntax error at byte "@ + digits(offset) + explanations(messages)
}

/// The report of a syntax error at byte `offset` of the source, explained by
/// `messages`.
pub fn syntax_error_message(offset: usize, messages: &Vec<CaseMessage>) -> (text: String)
    ensures
        text@ == syntax_error_text(offset as nat, messages@),
{
    let mut out: Vec<char> = Vec::new();
    push_str(&mut out, "syntax error at byte ");
    push_digits(&mut out, offset as u64);
    let ghost head = out@;
    let mut k: usize = 0;
    while k < messages.len()
        invariant
            k <= messages@.len(),
            head == "syntax error at byte "@ + digits(offset as nat),
            out@ == head + explanations(messages@.take(k as int)),
        decreases messages@.len() - k,
    {
        push_str(&mut out, ": ");
        push_str(&mut out, messages[k].as_str());
        proof {
            let t = messages@.take(k + 1);
            assert(t.drop_last() =~= messages@.take(k as int));
            assert(out@ =~= head + explanations(t));
        }
        k = k + 1;
    }
    assert(messages@.take(messages@.len() as int) =~= messages@);
    string_of(out.as_slice())
}

/// What to run after parsing: the statements (and the input that followed
/// them), or a syntax error at a byte offset (and a character position) of
/// the source, with the messages that explain it.
#[derive(Debug)]
pub enum Evaluation<'a> {
    Run { statements: Vec<Statement>, rest: &'a str },
    SyntaxError { offset: usize, position: usize, messages: Vec<CaseMessage> },
}

/// What to do with the outcome of parsing `src`.
pub fn eval<'a>(tree: Result<(Vec<Statement>, &'a str), ParseError>, src: &'a str) -> (e:
    Evaluation<'a>)
    ensures
        match tree {
            Ok((statements, rest)) => e == (Evaluation::Run { statements, rest }),
            Err(err) => e matches Evaluation::SyntaxError { offset, position, messages }
                && position == err.position && messages@ == err.messages@ && offset
                == parser::min_usize(
                parser::utf8_len(
                    src@.take(
                        if err.position <= src@.len() {
                            err.position as int
                        } else {
                            src@.len() as int
                        },
                    ),
                ),
            ),
        },
{
    match tree {
        Ok((statements, rest)) => Evaluation::Run { statements, rest },
        Err(err) => {
            let offset = err.translate_position(src);
            Evaluation::SyntaxError { offset, position: err.position, messages: err.messages }
        },
    }
}

/// The outcome of an evaluation: `Ok` for statements (running them is not
/// covered here), and for a syntax error the `SyntaxError` that reports it.
pub fn evaluation_outcome(e: &Evaluation) -> (r: Result<(), ReplError>)
    ensures
        match e {
            Evaluation::Run { .. } => r is Ok,
            Evaluation::SyntaxError { offset, messages, .. } => r matches Err(
                ReplError::SyntaxError(m),
            ) && m@ == syntax_error_text(*offset as nat, messages@),
        },
{
    match e {
        Evaluation::Run { .. } => Ok(()),
        Evaluation::SyntaxError { offset, messages, .. } => Err(
            ReplError::SyntaxError(syntax_error_message(*offset, messages)),
        ),
    }
}

/// Why a run of the loop failed: reading the source failed, or what was read
/// failed with this error.
pub enum RunError<E> {
    Read(E),
    Failed(ReplError),
}

/// The next step of the read-eval loop.
pub enum ReplAction<E> {
    /// Read the source, parse and evaluate it once.
    Rep,
    /// Show this error to the user, then read, parse and evaluate again.
    Report(ReplError),
    /// The loop is over, with this result.
    Finish(Result<(), RunError<E>>),
    /// A read from the user failed; the loop has no way to go on.
    Unhandled(E),
}

/// The decisions of the read-eval loop over `source`.  `outcome` is `None`
/// before the first round; after a round it is the error of the read, or
/// the outcome of the evaluation.  A file is read and run once and its
/// outcome is the result; the user sees each error and is prompted again.
pub fn repl<E>(source: &ReplSource, outcome: Option<Result<Result<(), ReplError>, E>>) -> (action:
    ReplAction<E>)
    ensures
        match outcome {
            None => action is Rep,
            Some(Err(e)) => match source {
                ReplSource::File(_) => action == ReplAction::Finish(Err(RunError::Read(e))),
                ReplSource::User => action == ReplAction::<E>::Unhandled(e),
            },
            Some(Ok(Ok(()))) => match source {
                ReplSource::File(_) => action == ReplAction::<E>::Finish(Ok(())),
                ReplSource::User => action is Rep,
            },
            Some(Ok(Err(re))) => match source {
                ReplSource::File(_) => action == ReplAction::<E>::Finish(Err(RunError::Failed(re))),
                ReplSource::User => action == ReplAction::<E>::Report(re),
            },
        },
        source is User ==> !(action is Finish),
{
    match outcome {
        None => ReplAction::Rep,
        Some(Err(e)) => match source {
            ReplSource::File(_) => ReplAction::Finish(Err(RunError::Read(e))),
            ReplSource::User => ReplAction::Unhandled(e),
        },
        Some(Ok(Ok(()))) => match source {
            ReplSource::File(_) => ReplAction::Finish(Ok(())),
            ReplSource::User => ReplAction::Rep,
        },
        Some(Ok(Err(re))) => match source {
            ReplSource::File(_) => ReplAction::Finish(Err(RunError::Failed(re))),
            ReplSource::User => ReplAction::Report(re),
        },
    }
}

} // verus!
