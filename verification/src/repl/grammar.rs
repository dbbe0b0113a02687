//! The grammar of the shell language, stated over the characters of the
//! input.  Each rule is a function from the input `s` and a start position
//! `i` to an `Outcome`: the rule either matches the characters from `i` up to
//! `end` and yields a value, or fails at a position, having consumed input
//! (`committed`) or not, or runs forever.  An ordered choice tries its next
//! alternative only after a failure that consumed nothing; a repetition ends
//! at the first such failure; a failure after a committed prefix is
//! committed.  A failure carries the messages of the rules around it that
//! explain it (only the parts of a `case` statement have such messages).
use vstd::prelude::*;

use super::tree::{
    SpecArgumentPart, SpecCase, SpecCommand, SpecExpansion, SpecFunction, SpecIf, SpecStatement,
    SpecSubstitution, SpecVariable,
};

verus! {

/// The explanations that the parts of a `case` statement give when they fail.
#[derive(Debug, Clone, Copy, PartialEq, Eq, Structural)]
pub enum CaseMessage {
    /// The argument after `case` is malformed.
    Argument,
    /// `in` is missing after the argument.
    InKeyword,
    /// `in` is not followed by `;` or a newline.
    Separator,
    /// A pattern is missing or malformed.
    Pattern,
    /// A pattern is not followed by `)` and a newline.
    EndParenthesis,
    /// The statement is not closed by `esac`.
    Esac,
}

impl CaseMessage {
    /// The text of the message.
    pub open spec fn text(self) -> Seq<char> {
        match self {
            CaseMessage::Argument => "case requires an argument"@,
            CaseMessage::InKeyword => "case requires the in keyword"@,
            CaseMessage::Separator => "case requires a newline or semicolon after the in keyword"@,
            CaseMessage::Pattern => "case requries a pattern to match"@,
            CaseMessage::EndParenthesis => "case requires an end-parenthasis"@,
            CaseMessage::Esac => "case must be closed with an esac"@,
        }
    }

    /// The text of the message.
    pub fn as_str(&self) -> (t: &'static str)
        ensures
            t@ == self.text(),
    {
        match self {
            CaseMessage::Argument => "case requires an argument",
            CaseMessage::InKeyword => "case requires the in keyword",
            CaseMessage::Separator => "case requires a newline or semicolon after the in keyword",
            CaseMessage::Pattern => "case requries a pattern to match",
            CaseMessage::EndParenthesis => "case requires an end-parenthasis",
            CaseMessage::Esac => "case must be closed with an esac",
        }
    }
}

pub enum Outcome<T> {
    Done { end: int, value: T },
    Failed { committed: bool, at: int, messages: Seq<CaseMessage> },
    Diverges,
}

impl<T> Outcome<T> {
    /// The same outcome, where a failure counts as committed when input was
    /// consumed before the rule started.
    pub open spec fn after(self, consumed: bool) -> Outcome<T> {
        match self {
            Outcome::Failed { committed, at, messages } => Outcome::Failed {
                committed: committed || consumed,
                at,
                messages,
            },
            other => other,
        }
    }

    /// A failure or divergence, carried over to a rule of another value type
    /// (only applied to outcomes that are not `Done`).
    pub open spec fn stop<U>(self) -> Outcome<U> {
        match self {
            Outcome::Failed { committed, at, messages } => Outcome::Failed { committed, at, messages },
            _ => Outcome::Diverges,
        }
    }

    /// The same outcome, where a failure also carries the message `m`.
    pub open spec fn explained(self, m: CaseMessage) -> Outcome<T> {
        match self {
            Outcome::Failed { committed, at, messages } => Outcome::Failed {
                committed,
                at,
                messages: messages.push(m),
            },
            other => other,
        }
    }

    pub open spec fn failed_uncommitted(self) -> bool {
        self matches Outcome::Failed { committed: false, .. }
    }
}

/// `attempt`: a committed failure is turned into one that consumed nothing.
pub open spec fn attempt<T>(o: Outcome<T>) -> Outcome<T> {
    match o {
        Outcome::Failed { committed: true, at, messages } => Outcome::Failed {
            committed: false,
            at,
            messages,
        },
        other => other,
    }
}

/// Ordered choice: `b` is tried only when `a` failed without consuming input.
/// When both fail so, the failure furthest into the input is kept.
pub open spec fn or<T>(a: Outcome<T>, b: Outcome<T>) -> Outcome<T> {
    match a {
        Outcome::Failed { committed: false, at: p, messages: ma } => match b {
            Outcome::Failed { committed: false, at: q, messages: mb } => Outcome::Failed {
                committed: false,
                at: if p < q {
                    q
                } else {
                    p
                },
                messages: if p < q {
                    mb
                } else if q < p {
                    ma
                } else {
                    ma + mb
                },
            },
            other => other,
        },
        other => other,
    }
}

// ---------------------------------------------------------------------------
// Characters
#[derive(Clone, Copy)]
pub enum Class {
    Space,
    Blank,
    BlankOrNewline,
    Newline,
    NotNewline,
    Word,
    QuotedText,
    ArgText,
}

pub open spec fn is_blank(c: char) -> bool {
    c == ' ' || c == '\t'
}

pub open spec fn is_digit(c: char) -> bool {
    '0' <= c && c <= '9'
}

/// Characters that end a word: `$ ' " ` ( ) space tab ; }`.
pub open spec fn ends_word(c: char) -> bool {
    c == '$' || c == '\'' || c == '"' || c == '`' || c == '(' || c == ')' || c == ' ' || c
        == '\t' || c == ';' || c == '}'
}

/// Characters that end plain text inside double quotes: `" $ ``.
pub open spec fn ends_quoted_text(c: char) -> bool {
    c == '"' || c == '$' || c == '`'
}

/// Characters that end plain text in an argument: `" $ ' \ ` ; newline space tab`.
pub open spec fn ends_arg_text(c: char) -> bool {
    c == '"' || c == '$' || c == '\'' || c == '\\' || c == '`' || c == ';' || c == '\n' || c
        == ' ' || c == '\t'
}

pub open spec fn in_class(c: char, k: Class) -> bool {
    match k {
        Class::Space => c == ' ',
        Class::Blank => is_blank(c),
        Class::BlankOrNewline => is_blank(c) || c == '\n',
        Class::Newline => c == '\n',
        Class::NotNewline => c != '\n',
        Class::Word => !ends_word(c),
        Class::QuotedText => !ends_quoted_text(c),
        Class::ArgText => !ends_arg_text(c),
    }
}

/// The end of the longest run of characters of class `k` that starts at `i`.
pub open spec fn scan(s: Seq<char>, i: int, k: Class) -> int
    decreases s.len() - i,
{
    if 0 <= i < s.len() && in_class(s[i], k) {
        scan(s, i + 1, k)
    } else {
        i
    }
}

pub proof fn lemma_scan_bounds(s: Seq<char>, i: int, k: Class)
    ensures
        i <= scan(s, i, k),
        i <= s.len() ==> scan(s, i, k) <= s.len(),
        i > s.len() ==> scan(s, i, k) == i,
        forall|m: int| i <= m < scan(s, i, k) ==> in_class(#[trigger] s[m], k),
        0 <= i ==> (scan(s, i, k) < s.len() ==> !in_class(s[scan(s, i, k)], k)),
    decreases s.len() - i,
{
    if 0 <= i < s.len() && in_class(s[i], k) {
        lemma_scan_bounds(s, i + 1, k);
    }
}

/// The character at `i` is `c`.
pub open spec fn at(s: Seq<char>, i: int, c: char) -> bool {
    0 <= i < s.len() && s[i] == c
}

/// The character at `i` is a blank (space or tab).
pub open spec fn blank_at(s: Seq<char>, i: int) -> bool {
    0 <= i < s.len() && is_blank(s[i])
}

/// A keyword: the characters of `t`.  A partial match is a committed failure.
pub open spec fn keyword(s: Seq<char>, i: int, t: Seq<char>) -> Outcome<()> {
    if 0 <= i && i + t.len() <= s.len() && s.subrange(i, i + t.len()) == t {
        Outcome::Done { end: i + t.len(), value: () }
    } else {
        Outcome::Failed { committed: t.len() > 0 && at(s, i, t[0]), at: i, messages: seq![] }
    }
}

// ---------------------------------------------------------------------------
// Repetition
/// Zero or more matches of `elem`, up to the first failure that consumes
/// nothing.  A match that consumes nothing repeats forever (no match ends
/// past the end of the input).
pub open spec fn many<T>(len: int, i: int, elem: spec_fn(int) -> Outcome<T>) -> Outcome<Seq<T>>
    decreases len - i,
{
    match elem(i) {
        Outcome::Done { end, value } => if i < end <= len {
            match many(len, end, elem) {
                Outcome::Done { end: e, value: rest } => Outcome::Done {
                    end: e,
                    value: seq![value] + rest,
                },
                other => other,
            }
        } else {
            Outcome::Diverges
        },
        Outcome::Failed { committed, at, messages } => if committed {
            Outcome::Failed { committed: true, at, messages }
        } else {
            Outcome::Done { end: i, value: Seq::empty() }
        },
        Outcome::Diverges => Outcome::Diverges,
    }
}

/// One or more matches of `elem`.
pub open spec fn many1<T>(len: int, i: int, elem: spec_fn(int) -> Outcome<T>) -> Outcome<
    Seq<T>,
> {
    if elem(i).failed_uncommitted() {
        elem(i).stop()
    } else {
        many(len, i, elem)
    }
}

/// A repetition ends between its start and the end of the input.
pub proof fn lemma_many_bounds<T>(len: int, i: int, elem: spec_fn(int) -> Outcome<T>)
    ensures
        many(len, i, elem) matches Outcome::Done { end, .. } ==> i <= end && (i <= len ==> end
            <= len),
    decreases len - i,
{
    if let Outcome::Done { end, .. } = elem(i) {
        if i < end <= len {
            lemma_many_bounds(len, end, elem);
        }
    }
}

/// The concatenation of a sequence of strings.
pub open spec fn concat(v: Seq<Seq<char>>) -> Seq<char>
    decreases v.len(),
{
    if v.len() == 0 {
        Seq::empty()
    } else {
        concat(v.subrange(0, v.len() - 1)) + v[v.len() - 1]
    }
}

// ---------------------------------------------------------------------------
// Words, comments, expansions and arguments
/// One or more characters that do not end a word.
pub open spec fn word(s: Seq<char>, i: int) -> Outcome<Seq<char>> {
    let j = scan(s, i, Class::Word);
    if j > i {
        Outcome::Done { end: j, value: s.subrange(i, j) }
    } else {
        Outcome::Failed { committed: false, at: i, messages: seq![] }
    }
}

/// `#` and the rest of the line; the value is the text after `#`, with its newline.
pub open spec fn comment_line(s: Seq<char>, i: int) -> Outcome<Seq<char>> {
    if at(s, i, '#') {
        let j = scan(s, i + 1, Class::NotNewline);
        if j < s.len() {
            Outcome::Done { end: j + 1, value: s.subrange(i + 1, j).push('\n') }
        } else {
            Outcome::Failed { committed: true, at: j, messages: seq![] }
        }
    } else {
        Outcome::Failed { committed: false, at: i, messages: seq![] }
    }
}

/// One or more comment lines, then any empty lines.
pub open spec fn comment_block(s: Seq<char>, i: int) -> Outcome<Seq<char>> {
    match many1(s.len() as int, i, |j: int| comment_line(s, j)) {
        Outcome::Done { end, value } => Outcome::Done {
            end: scan(s, end, Class::Newline),
            value: concat(value),
        },
        other => other.stop(),
    }
}

/// After `$`: a digit, `{word}` or a word.
pub open spec fn substitution(s: Seq<char>, i: int) -> Outcome<SpecSubstitution> {
    if 0 <= i < s.len() && is_digit(s[i]) {
        Outcome::Done { end: i + 1, value: SpecSubstitution::Variable(seq![s[i]]) }
    } else if at(s, i, '{') {
        match word(s, i + 1) {
            Outcome::Done { end, value } => if at(s, end, '}') {
                Outcome::Done { end: end + 1, value: SpecSubstitution::Variable(value) }
            } else {
                Outcome::Failed { committed: true, at: end, messages: seq![] }
            },
            other => other.stop::<SpecSubstitution>().after(true),
        }
    } else {
        match word(s, i) {
            Outcome::Done { end, value } => Outcome::Done {
                end,
                value: SpecSubstitution::Variable(value),
            },
            other => other.stop(),
        }
    }
}

/// `$` and a substitution.
pub open spec fn dollar_expansion(s: Seq<char>, i: int) -> Outcome<SpecExpansion> {
    if at(s, i, '$') {
        match substitution(s, i + 1) {
            Outcome::Done { end, value } => Outcome::Done {
                end,
                value: SpecExpansion::Substitution(value),
            },
            other => other.stop::<SpecExpansion>().after(true),
        }
    } else {
        Outcome::Failed { committed: false, at: i, messages: seq![] }
    }
}

/// Inside double quotes: plain text or a `$` expansion.
pub open spec fn quoted_part(s: Seq<char>, i: int) -> Outcome<SpecArgumentPart> {
    let j = scan(s, i, Class::QuotedText);
    if j > i {
        Outcome::Done { end: j, value: SpecArgumentPart::Text(s.subrange(i, j)) }
    } else {
        match dollar_expansion(s, i) {
            Outcome::Done { end, value } => Outcome::Done {
                end,
                value: SpecArgumentPart::DollarExpansion(value),
            },
            other => other.stop(),
        }
    }
}

/// `"` pieces `"`
pub open spec fn doublequote(s: Seq<char>, i: int) -> Outcome<Seq<SpecArgumentPart>> {
    if at(s, i, '"') {
        match many(s.len() as int, i + 1, |j: int| quoted_part(s, j)) {
            Outcome::Done { end, value } => if at(s, end, '"') {
                Outcome::Done { end: end + 1, value }
            } else {
                Outcome::Failed { committed: true, at: end, messages: seq![] }
            },
            other => other.after(true),
        }
    } else {
        Outcome::Failed { committed: false, at: i, messages: seq![] }
    }
}

/// A piece of an argument: plain text, a double-quoted string or a `$` expansion.
pub open spec fn argument_part(s: Seq<char>, i: int) -> Outcome<SpecArgumentPart> {
    let j = scan(s, i, Class::ArgText);
    if j > i {
        Outcome::Done { end: j, value: SpecArgumentPart::Text(s.subrange(i, j)) }
    } else if at(s, i, '"') {
        match doublequote(s, i) {
            Outcome::Done { end, value } => Outcome::Done {
                end,
                value: SpecArgumentPart::DoubleQuote(value),
            },
            other => other.stop(),
        }
    } else {
        match dollar_expansion(s, i) {
            Outcome::Done { end, value } => Outcome::Done {
                end,
                value: SpecArgumentPart::DollarExpansion(value),
            },
            other => other.stop(),
        }
    }
}

/// An argument: zero or more pieces.
pub open spec fn argument(s: Seq<char>, i: int) -> Outcome<Seq<SpecArgumentPart>> {
    many(s.len() as int, i, |j: int| argument_part(s, j))
}

/// `word=arguments`
pub open spec fn variable(s: Seq<char>, i: int) -> Outcome<SpecVariable> {
    match word(s, i) {
        Outcome::Done { end, value } => if at(s, end, '=') {
            match many1(s.len() as int, end + 1, |j: int| argument(s, j)) {
                Outcome::Done { end: e, value: content } => Outcome::Done {
                    end: e,
                    value: SpecVariable { name: value, content },
                },
                other => other.stop::<SpecVariable>().after(true),
            }
        } else {
            Outcome::Failed { committed: true, at: end, messages: seq![] }
        },
        other => other.stop(),
    }
}

/// A blank, then an argument.
pub open spec fn blank_argument(s: Seq<char>, i: int) -> Outcome<Seq<SpecArgumentPart>> {
    if blank_at(s, i) {
        argument(s, i + 1).after(true)
    } else {
        Outcome::Failed { committed: false, at: i, messages: seq![] }
    }
}

/// Arguments separated by single blanks.
pub open spec fn separated_arguments(s: Seq<char>, i: int) -> Outcome<
    Seq<Seq<SpecArgumentPart>>,
> {
    match argument(s, i) {
        Outcome::Done { end, value } => match many(s.len() as int, end, |j: int| blank_argument(s, j)) {
            Outcome::Done { end: e, value: rest } => Outcome::Done {
                end: e,
                value: seq![value] + rest,
            },
            other => other.after(end > i),
        },
        Outcome::Failed { committed: false, .. } => Outcome::Done { end: i, value: Seq::empty() },
        other => other.stop(),
    }
}

/// `program blank arguments` ended by `;` or a newline.
pub open spec fn command(s: Seq<char>, i: int) -> Outcome<SpecCommand> {
    match argument(s, i) {
        Outcome::Done { end: j, value: program } => if blank_at(s, j) {
            match separated_arguments(s, j + 1) {
                Outcome::Done { end: k, value: arguments } => if at(s, k, ';') || at(s, k, '\n') {
                    Outcome::Done { end: k + 1, value: SpecCommand { program, arguments } }
                } else {
                    Outcome::Failed { committed: true, at: k, messages: seq![] }
                },
                other => other.stop::<SpecCommand>().after(true),
            }
        } else {
            Outcome::Failed { committed: j > i, at: j, messages: seq![] }
        },
        other => other.stop(),
    }
}

/// An argument ends between its start and the end of the input; a command
/// ends after its start.
pub proof fn lemma_command_bounds(s: Seq<char>, i: int)
    ensures
        argument(s, i) matches Outcome::Done { end, .. } ==> i <= end && (i <= s.len() ==> end
            <= s.len()),
        command(s, i) matches Outcome::Done { end, .. } ==> i < end <= s.len(),
{
    lemma_many_bounds(s.len() as int, i, |j: int| argument_part(s, j));
    if let Outcome::Done { end: j, .. } = argument(s, i) {
        if blank_at(s, j) {
            lemma_many_bounds(s.len() as int, j + 1, |m: int| argument_part(s, m));
            if let Outcome::Done { end: a, .. } = argument(s, j + 1) {
                lemma_many_bounds(s.len() as int, a, |m: int| blank_argument(s, m));
            }
        }
    }
}

// ---------------------------------------------------------------------------
// Statements
pub open spec fn kw_if() -> Seq<char> {
    seq!['i', 'f']
}

pub open spec fn kw_then() -> Seq<char> {
    seq!['t', 'h', 'e', 'n']
}

pub open spec fn kw_fi() -> Seq<char> {
    seq!['f', 'i']
}

pub open spec fn kw_case() -> Seq<char> {
    seq!['c', 'a', 's', 'e']
}

pub open spec fn kw_in() -> Seq<char> {
    seq!['i', 'n']
}

pub open spec fn kw_esac() -> Seq<char> {
    seq!['e', 's', 'a', 'c']
}

pub open spec fn kw_dsemi() -> Seq<char> {
    seq![';', ';']
}

/// Zero or more statements.
pub open spec fn statements(s: Seq<char>, i: int) -> Outcome<Seq<SpecStatement>>
    decreases s.len() - i, 5int,
{
    match statement(s, i) {
        Outcome::Done { end, value } => if i < end <= s.len() {
            match statements(s, end) {
                Outcome::Done { end: e, value: rest } => Outcome::Done {
                    end: e,
                    value: seq![value] + rest,
                },
                other => other,
            }
        } else {
            Outcome::Diverges
        },
        Outcome::Failed { committed, at, messages } => if committed {
            Outcome::Failed { committed: true, at, messages }
        } else {
            Outcome::Done { end: i, value: Seq::empty() }
        },
        Outcome::Diverges => Outcome::Diverges,
    }
}

/// Spaces, then a comment block, a `case`, an `if`, an assignment or a
/// function definition, tried in this order.
pub open spec fn statement(s: Seq<char>, i: int) -> Outcome<SpecStatement>
    decreases s.len() - i, 4int,
{
    let j = scan(s, i, Class::Space);
    proof {
        lemma_scan_bounds(s, i, Class::Space);
    }
    or(
            wrap_comment(comment_block(s, j)),
            or(
                wrap_case(case(s, j)),
                or(
                    wrap_if(parse_if(s, j)),
                    or(wrap_variable(attempt(variable(s, j))), wrap_function(function(s, j))),
                ),
            ),
    ).after(j > i)
}

pub open spec fn wrap_comment(o: Outcome<Seq<char>>) -> Outcome<SpecStatement> {
    match o {
        Outcome::Done { end, value } => Outcome::Done {
            end,
            value: SpecStatement::CommentBlock(value),
        },
        other => other.stop(),
    }
}

pub open spec fn wrap_case(o: Outcome<SpecCase>) -> Outcome<SpecStatement> {
    match o {
        Outcome::Done { end, value } => Outcome::Done { end, value: SpecStatement::Case(value) },
        other => other.stop(),
    }
}

pub open spec fn wrap_if(o: Outcome<SpecIf>) -> Outcome<SpecStatement> {
    match o {
        Outcome::Done { end, value } => Outcome::Done { end, value: SpecStatement::If(value) },
        other => other.stop(),
    }
}

pub open spec fn wrap_variable(o: Outcome<SpecVariable>) -> Outcome<SpecStatement> {
    match o {
        Outcome::Done { end, value } => Outcome::Done {
            end,
            value: SpecStatement::Variable(value),
        },
        other => other.stop(),
    }
}

pub open spec fn wrap_function(o: Outcome<SpecFunction>) -> Outcome<SpecStatement> {
    match o {
        Outcome::Done { end, value } => Outcome::Done {
            end,
            value: SpecStatement::Function(value),
        },
        other => other.stop(),
    }
}

/// `name`, optional spaces, `(`, optional spaces, `)`, optional spaces, `{`,
/// newline, statements, `}`, newline.
pub open spec fn function(s: Seq<char>, i: int) -> Outcome<SpecFunction>
    decreases s.len() - i, 3int,
{
    match word(s, i) {
        Outcome::Done { end: k, value: name } => {
            let a = scan(s, k, Class::Space);
            proof {
                lemma_scan_bounds(s, i, Class::Word);
                lemma_scan_bounds(s, k, Class::Space);
                lemma_scan_bounds(s, a + 1, Class::Space);
            }
            if !at(s, a, '(') {
                Outcome::Failed { committed: true, at: a, messages: seq![] }
            } else {
                let b = scan(s, a + 1, Class::Space);
                if !at(s, b, ')') {
                    Outcome::Failed { committed: true, at: b, messages: seq![] }
                } else {
                    let c = scan(s, b + 1, Class::Space);
                    proof {
                        lemma_scan_bounds(s, b + 1, Class::Space);
                    }
                    if !at(s, c, '{') {
                        Outcome::Failed { committed: true, at: c, messages: seq![] }
                    } else if !at(s, c + 1, '\n') {
                        Outcome::Failed { committed: true, at: c + 1, messages: seq![] }
                    } else {
                        match statements(s, c + 2) {
                            Outcome::Done { end: d, value: body } => if !at(s, d, '}') {
                                Outcome::Failed { committed: true, at: d, messages: seq![] }
                            } else if !at(s, d + 1, '\n') {
                                Outcome::Failed { committed: true, at: d + 1, messages: seq![] }
                            } else {
                                Outcome::Done {
                                    end: d + 2,
                                    value: SpecFunction { name, statements: body },
                                }
                            },
                            other => other.stop::<SpecFunction>().after(true),
                        }
                    }
                }
            }
        },
        other => other.stop(),
    }
}

/// `if`, a blank, a command, `then`, newline, statements, `fi`.
pub open spec fn parse_if(s: Seq<char>, i: int) -> Outcome<SpecIf>
    decreases s.len() - i, 3int,
{
    match keyword(s, i, kw_if()) {
        Outcome::Done { end: j, .. } => if !blank_at(s, j) {
            Outcome::Failed { committed: true, at: j, messages: seq![] }
        } else {
            proof {
                lemma_command_bounds(s, j + 1);
            }
            match command(s, j + 1) {
                Outcome::Done { end: k, value: condition } => match keyword(s, k, kw_then()) {
                    Outcome::Done { end: m, .. } => if !at(s, m, '\n') {
                        Outcome::Failed { committed: true, at: m, messages: seq![] }
                    } else {
                        match statements(s, m + 1) {
                            Outcome::Done { end: n, value: body } => match keyword(
                                s,
                                n,
                                kw_fi(),
                            ) {
                                Outcome::Done { end: p, .. } => Outcome::Done {
                                    end: p,
                                    value: SpecIf::If { condition, statements: body, next: None },
                                },
                                other => other.stop::<SpecIf>().after(true),
                            },
                            other => other.stop::<SpecIf>().after(true),
                        }
                    },
                    other => other.stop::<SpecIf>().after(true),
                },
                other => other.stop::<SpecIf>().after(true),
            }
        },
        other => other.stop(),
    }
}

/// `case`, a blank, an argument, a blank, `in`, `;` or newline, blanks, one
/// or more parts, `esac`.  A failure of the argument, of `in`, of the `;` or
/// newline after it, of the first part before it consumed anything, or of
/// `esac` carries the message of that part.
pub open spec fn case(s: Seq<char>, i: int) -> Outcome<SpecCase>
    decreases s.len() - i, 3int,
{
    match keyword(s, i, kw_case()) {
        Outcome::Done { end: j, .. } => if !blank_at(s, j) {
            Outcome::Failed { committed: true, at: j, messages: seq![] }
        } else {
            proof {
                lemma_command_bounds(s, j + 1);
            }
            match argument(s, j + 1) {
                Outcome::Done { end: k, value: argument } => if !blank_at(s, k) {
                    Outcome::Failed { committed: true, at: k, messages: seq![] }
                } else {
                    match keyword(s, k + 1, kw_in()) {
                        Outcome::Done { end: m, .. } => if !(at(s, m, ';') || at(s, m, '\n')) {
                            Outcome::Failed {
                                committed: true,
                                at: m,
                                messages: seq![CaseMessage::Separator],
                            }
                        } else {
                            let n = scan(s, m + 1, Class::Blank);
                            proof {
                                lemma_scan_bounds(s, m + 1, Class::Blank);
                            }
                            match case_parts(s, n) {
                                    Outcome::Done { end: p, value: parts } => match keyword(
                                        s,
                                        p,
                                        kw_esac(),
                                    ) {
                                        Outcome::Done { end: q, .. } => Outcome::Done {
                                            end: q,
                                            value: SpecCase { argument, parts },
                                        },
                                        other => other.stop::<SpecCase>().after(true).explained(
                                            CaseMessage::Esac,
                                        ),
                                    },
                                    other => if other.failed_uncommitted() {
                                        other.stop::<SpecCase>().after(true).explained(
                                            CaseMessage::Pattern,
                                        )
                                    } else {
                                        other.stop::<SpecCase>().after(true)
                                    },
                                }
                        },
                        other => other.stop::<SpecCase>().after(true).explained(
                            CaseMessage::InKeyword,
                        ),
                    }
                },
                other => other.stop::<SpecCase>().after(true).explained(CaseMessage::Argument),
            }
        },
        other => other.stop(),
    }
}

/// One or more case parts.
pub open spec fn case_parts(s: Seq<char>, i: int) -> Outcome<
    Seq<(Seq<SpecArgumentPart>, Option<Seq<SpecStatement>>)>,
>
    decreases s.len() - i, 2int,
{
    if case_part(s, i).failed_uncommitted() {
        case_part(s, i).stop()
    } else {
        case_parts_rest(s, i)
    }
}

/// Zero or more case parts.
pub open spec fn case_parts_rest(s: Seq<char>, i: int) -> Outcome<
    Seq<(Seq<SpecArgumentPart>, Option<Seq<SpecStatement>>)>,
>
    decreases s.len() - i, 1int,
{
    match case_part(s, i) {
        Outcome::Done { end, value } => if i < end <= s.len() {
            match case_parts_rest(s, end) {
                Outcome::Done { end: e, value: rest } => Outcome::Done {
                    end: e,
                    value: seq![value] + rest,
                },
                other => other,
            }
        } else {
            Outcome::Diverges
        },
        Outcome::Failed { committed, at, messages } => if committed {
            Outcome::Failed { committed: true, at, messages }
        } else {
            Outcome::Done { end: i, value: Seq::empty() }
        },
        Outcome::Diverges => Outcome::Diverges,
    }
}

/// A pattern, `)`, newline, statements, blanks or newlines, `;;`, blanks or
/// newlines.  A malformed pattern, or a missing `)` and newline after a
/// pattern, carries its message.
pub open spec fn case_part(s: Seq<char>, i: int) -> Outcome<
    (Seq<SpecArgumentPart>, Option<Seq<SpecStatement>>),
>
    decreases s.len() - i, 0int,
{
    proof {
        lemma_command_bounds(s, i);
    }
    match argument(s, i) {
        Outcome::Done { end: j, value: pattern } => if !at(s, j, ')') {
            Outcome::Failed {
                committed: j > i,
                at: j,
                messages: if j > i {
                    seq![CaseMessage::EndParenthesis]
                } else {
                    seq![]
                },
            }
        } else if !at(s, j + 1, '\n') {
            Outcome::Failed {
                committed: true,
                at: j + 1,
                messages: seq![CaseMessage::EndParenthesis],
            }
        } else {
            let body = match statements(s, j + 2) {
                Outcome::Done { end, value } => Outcome::Done { end, value: Some(value) },
                Outcome::Failed { committed: false, .. } => Outcome::Done {
                    end: j + 2,
                    value: None,
                },
                other => other.stop(),
            };
            match body {
                Outcome::Done { end: k, value: body } => {
                    let w = scan(s, k, Class::BlankOrNewline);
                    match keyword(s, w, kw_dsemi()) {
                        Outcome::Done { end: m, .. } => Outcome::Done {
                            end: scan(s, m, Class::BlankOrNewline),
                            value: (pattern, body),
                        },
                        other => other.stop::<
                            (Seq<SpecArgumentPart>, Option<Seq<SpecStatement>>),
                        >().after(true),
                    }
                },
                other => other.stop::<
                    (Seq<SpecArgumentPart>, Option<Seq<SpecStatement>>),
                >().after(true),
            }
        },
        other => other.stop::<(Seq<SpecArgumentPart>, Option<Seq<SpecStatement>>)>().explained(
            CaseMessage::Pattern,
        ),
    }
}

/// The statements at the start of the input.
pub open spec fn script(s: Seq<char>) -> Outcome<Seq<SpecStatement>> {
    statements(s, 0)
}

} // verus!
