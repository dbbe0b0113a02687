//! The parser of the shell language, proved to follow `grammar`.
use vstd::prelude::*;

use super::grammar::{
    argument, argument_part, at, blank_argument, blank_at, case, case_part, case_parts,
    case_parts_rest, command, comment_block, comment_line, concat, dollar_expansion, doublequote,
    function, in_class, keyword, kw_case, kw_dsemi, kw_esac, kw_fi, kw_if, kw_in, kw_then,
    lemma_many_bounds, lemma_scan_bounds, many, many1, parse_if, quoted_part, scan, script, separated_arguments,
    statement, statements, substitution, variable, word, CaseMessage, Class, Outcome,
};
use super::tree::{
    argument_view, arguments_view, case_part_view, case_parts_view, command_view, if_view,
    lemma_argument_view_push, lemma_arguments_view_push, lemma_case_parts_view_push,
    lemma_statements_view_push, statements_view, Argument, ArgumentPart, Case, Command, Expansion,
    Function, If, SpecArgumentPart, SpecCase, SpecFunction, SpecStatement, SpecVariable,
    Statement, Substitution,
};
use crate::text::{chars_of, string_of};
use vstd::string::StrSliceExecFns;

verus! {

/// Where and how a rule failed, and the messages that explain it.
pub struct Failure {
    pub committed: bool,
    pub at: usize,
    pub messages: Vec<CaseMessage>,
}

impl Failure {
    pub open spec fn outcome<T>(self) -> Outcome<T> {
        Outcome::Failed { committed: self.committed, at: self.at as int, messages: self.messages@ }
    }

    /// The same failure, counted as committed.
    fn commit(self) -> (f: Failure)
        ensures
            f.committed,
            f.at == self.at,
            f.messages@ == self.messages@,
    {
        Failure { committed: true, at: self.at, messages: self.messages }
    }

    /// The same failure, also explained by `m`.
    fn explained(self, m: CaseMessage) -> (f: Failure)
        ensures
            f.committed == self.committed,
            f.at == self.at,
            f.messages@ == self.messages@.push(m),
    {
        let mut messages = self.messages;
        messages.push(m);
        Failure { committed: self.committed, at: self.at, messages }
    }
}

/// A failure with no message.
fn fail(committed: bool, at: usize) -> (f: Failure)
    ensures
        f.committed == committed,
        f.at == at,
        f.messages@ == Seq::<CaseMessage>::empty(),
{
    Failure { committed, at, messages: Vec::new() }
}

/// The failure of an ordered choice whose alternatives `a` and `b` both failed
/// without consuming input: the one furthest into the input, or both where
/// they failed at the same position.
fn merge(a: Failure, b: Failure) -> (f: Failure)
    requires
        !a.committed,
        !b.committed,
    ensures
        !f.committed,
        f.at == if a.at < b.at {
            b.at
        } else {
            a.at
        },
        f.messages@ == if a.at < b.at {
            b.messages@
        } else if b.at < a.at {
            a.messages@
        } else {
            a.messages@ + b.messages@
        },
{
    if a.at < b.at {
        b
    } else if b.at < a.at {
        a
    } else {
        let mut messages = a.messages;
        let mut rest = b.messages;
        messages.append(&mut rest);
        Failure { committed: false, at: a.at, messages }
    }
}

/// The result of a rule agrees with the grammar's outcome `o`, the value
/// taken by `view`.
pub open spec fn agrees<T, V>(
    r: Result<(usize, T), Failure>,
    o: Outcome<V>,
    view: spec_fn(T) -> V,
) -> bool {
    match r {
        Ok((end, v)) => o == (Outcome::Done { end: end as int, value: view(v) }),
        Err(f) => o == f.outcome::<V>(),
    }
}

/// The values `acc` matched so far, in front of the outcome of the rest.
pub open spec fn prepend<T>(acc: Seq<T>, o: Outcome<Seq<T>>) -> Outcome<Seq<T>> {
    match o {
        Outcome::Done { end, value } => Outcome::Done { end, value: acc + value },
        other => other,
    }
}

proof fn lemma_many_step<T>(len: int, i: int, elem: spec_fn(int) -> Outcome<T>, acc: Seq<T>)
    requires
        elem(i) matches Outcome::Done { end, .. } && i < end <= len,
    ensures
        prepend(acc, many(len, i, elem)) == prepend(
            acc.push(elem(i)->value),
            many(len, elem(i)->end, elem),
        ),
{
    let v = elem(i)->value;
    let end = elem(i)->end;
    if let Outcome::Done { end: e, value: rest } = many(len, end, elem) {
        assert(acc + (seq![v] + rest) =~= acc.push(v) + rest);
    }
}

proof fn lemma_many_stop<T>(len: int, i: int, elem: spec_fn(int) -> Outcome<T>, acc: Seq<T>)
    requires
        elem(i).failed_uncommitted(),
    ensures
        prepend(acc, many(len, i, elem)) == (Outcome::Done { end: i, value: acc }),
{
    assert(acc + Seq::<T>::empty() =~= acc);
}

proof fn lemma_concat_push(v: Seq<Seq<char>>, x: Seq<char>)
    ensures
        concat(v.push(x)) == concat(v) + x,
{
    assert(v.push(x).subrange(0, v.len() as int) =~= v);
}

fn class_has(c: char, k: Class) -> (b: bool)
    ensures
        b == in_class(c, k),
{
    match k {
        Class::Space => c == ' ',
        Class::Blank => c == ' ' || c == '\t',
        Class::BlankOrNewline => c == ' ' || c == '\t' || c == '\n',
        Class::Newline => c == '\n',
        Class::NotNewline => c != '\n',
        Class::Word => !(c == '$' || c == '\'' || c == '"' || c == '`' || c == '(' || c == ')'
            || c == ' ' || c == '\t' || c == ';' || c == '}'),
        Class::QuotedText => !(c == '"' || c == '$' || c == '`'),
        Class::ArgText => !(c == '"' || c == '$' || c == '\'' || c == '\\' || c == '`' || c
            == ';' || c == '\n' || c == ' ' || c == '\t'),
    }
}

fn scan_exec(s: &Vec<char>, i: usize, k: Class) -> (j: usize)
    requires
        i <= s.len(),
    ensures
        j == scan(s@, i as int, k),
        i <= j <= s.len(),
{
    let mut j = i;
    while j < s.len() && class_has(s[j], k)
        invariant
            i <= j <= s.len(),
            scan(s@, j as int, k) == scan(s@, i as int, k),
        decreases s.len() - j,
    {
        j = j + 1;
    }
    j
}

fn char_at(s: &Vec<char>, i: usize, c: char) -> (b: bool)
    ensures
        b == at(s@, i as int, c),
{
    i < s.len() && s[i] == c
}

fn blank_at_exec(s: &Vec<char>, i: usize) -> (b: bool)
    ensures
        b == blank_at(s@, i as int),
{
    i < s.len() && (s[i] == ' ' || s[i] == '\t')
}

fn keyword_exec(s: &Vec<char>, i: usize, t: &[char]) -> (r: Result<usize, Failure>)
    requires
        i <= s.len(),
        t@.len() > 0,
    ensures
        match r {
            Ok(end) => keyword(s@, i as int, t@) == (Outcome::Done { end: end as int, value: () }),
            Err(f) => keyword(s@, i as int, t@) == f.outcome::<()>(),
        },
        r matches Ok(end) ==> end <= s.len(),
{
    if t.len() <= s.len() - i {
        let mut q: usize = 0;
        while q < t.len()
            invariant
                0 <= q <= t@.len(),
                i + t@.len() <= s@.len(),
                i <= s.len(),
                forall|m: int| 0 <= m < q ==> s@[i + m] == t@[m],
            decreases t@.len() - q,
        {
            if s[i + q] != t[q] {
                assert(s@.subrange(i as int, i + t@.len())[q as int] != t@[q as int]);
                return Err(fail(s[i] == t[0], i));
            }
            q = q + 1;
        }
        assert(s@.subrange(i as int, i + t@.len()) =~= t@);
        Ok(i + t.len())
    } else {
        Err(fail(i < s.len() && s[i] == t[0], i))
    }
}

/// The characters from `i` to `j`, as a string.
fn text(s: &Vec<char>, i: usize, j: usize) -> (t: String)
    requires
        i <= j <= s.len(),
    ensures
        t@ == s@.subrange(i as int, j as int),
{
    let mut v: Vec<char> = Vec::new();
    let mut m = i;
    while m < j
        invariant
            i <= m <= j <= s.len(),
            v@ == s@.subrange(i as int, m as int),
        decreases j - m,
    {
        v.push(s[m]);
        assert(v@ =~= s@.subrange(i as int, m + 1));
        m = m + 1;
    }
    string_of(v.as_slice())
}

fn word_exec(s: &Vec<char>, i: usize) -> (r: Result<(usize, String), Failure>)
    requires
        i <= s.len(),
    ensures
        agrees(r, word(s@, i as int), |v: String| v@),
        r matches Ok((end, _)) ==> i < end <= s.len(),
{
    let j = scan_exec(s, i, Class::Word);
    if j > i {
        Ok((j, text(s, i, j)))
    } else {
        Err(fail(false, i))
    }
}

fn comment_line_exec(s: &Vec<char>, i: usize) -> (r: Result<(usize, Vec<char>), Failure>)
    requires
        i <= s.len(),
    ensures
        agrees(r, comment_line(s@, i as int), |v: Vec<char>| v@),
        r matches Ok((end, _)) ==> i < end <= s.len(),
{
    if char_at(s, i, '#') {
        let j = scan_exec(s, i + 1, Class::NotNewline);
        if j < s.len() {
            let mut v: Vec<char> = Vec::new();
            let mut m = i + 1;
            while m < j
                invariant
                    i + 1 <= m <= j < s.len(),
                    v@ == s@.subrange(i + 1, m as int),
                decreases j - m,
            {
                v.push(s[m]);
                assert(v@ =~= s@.subrange(i + 1, m + 1));
                m = m + 1;
            }
            v.push('\n');
            Ok((j + 1, v))
        } else {
            Err(fail(true, j))
        }
    } else {
        Err(fail(false, i))
    }
}

fn comment_block_exec(s: &Vec<char>, i: usize) -> (r: Result<(usize, String), Failure>)
    requires
        i <= s.len(),
    ensures
        agrees(r, comment_block(s@, i as int), |v: String| v@),
        r matches Ok((end, _)) ==> i < end <= s.len(),
{
    let ghost elem = |j: int| comment_line(s@, j);
    let ghost len = s@.len() as int;
    let mut text_so_far: Vec<char> = Vec::new();
    let ghost mut lines: Seq<Seq<char>> = Seq::empty();
    let mut cur = i;
    assert(prepend(lines, many(len, i as int, elem)) =~= many(len, i as int, elem));
    loop
        invariant
            i <= cur <= s.len(),
            elem == (|j: int| comment_line(s@, j)),
            len == s@.len(),
            text_so_far@ == concat(lines),
            prepend(lines, many(len, cur as int, elem)) == many(len, i as int, elem),
            cur > i ==> !elem(i as int).failed_uncommitted(),
        decreases s.len() - cur,
    {
        match comment_line_exec(s, cur) {
            Ok((end, line)) => {
                proof {
                    lemma_many_step(len, cur as int, elem, lines);
                    lemma_concat_push(lines, line@);
                    lines = lines.push(line@);
                }
                let mut q: usize = 0;
                let ghost before = text_so_far@;
                while q < line.len()
                    invariant
                        0 <= q <= line@.len(),
                        text_so_far@ == before + line@.subrange(0, q as int),
                    decreases line@.len() - q,
                {
                    text_so_far.push(line[q]);
                    assert(text_so_far@ =~= before + line@.subrange(0, q + 1));
                    q = q + 1;
                }
                assert(line@.subrange(0, line@.len() as int) =~= line@);
                cur = end;
            },
            Err(f) => {
                if f.committed || cur == i {
                    return Err(f);
                }
                proof {
                    lemma_many_stop(len, cur as int, elem, lines);
                }
                let end = scan_exec(s, cur, Class::Newline);
                return Ok((end, string_of(text_so_far.as_slice())));
            },
        }
    }
}


fn substitution_exec(s: &Vec<char>, i: usize) -> (r: Result<(usize, Substitution), Failure>)
    requires
        i <= s.len(),
    ensures
        agrees(r, substitution(s@, i as int), |v: Substitution| v@),
        r matches Ok((end, _)) ==> i < end <= s.len(),
{
    if i < s.len() && '0' <= s[i] && s[i] <= '9' {
        let d = text(s, i, i + 1);
        assert(s@.subrange(i as int, i + 1) =~= seq![s@[i as int]]);
        Ok((i + 1, Substitution::Variable(d)))
    } else if char_at(s, i, '{') {
        match word_exec(s, i + 1) {
            Ok((end, name)) => {
                if char_at(s, end, '}') {
                    Ok((end + 1, Substitution::Variable(name)))
                } else {
                    Err(fail(true, end))
                }
            },
            Err(f) => Err(f.commit()),
        }
    } else {
        match word_exec(s, i) {
            Ok((end, name)) => Ok((end, Substitution::Variable(name))),
            Err(f) => Err(f),
        }
    }
}

fn dollar_expansion_exec(s: &Vec<char>, i: usize) -> (r: Result<(usize, Expansion), Failure>)
    requires
        i <= s.len(),
    ensures
        agrees(r, dollar_expansion(s@, i as int), |v: Expansion| v@),
        r matches Ok((end, _)) ==> i < end <= s.len(),
{
    if char_at(s, i, '$') {
        match substitution_exec(s, i + 1) {
            Ok((end, sub)) => Ok((end, Expansion::Substitution(sub))),
            Err(f) => Err(f.commit()),
        }
    } else {
        Err(fail(false, i))
    }
}

fn quoted_part_exec(s: &Vec<char>, i: usize) -> (r: Result<(usize, ArgumentPart), Failure>)
    requires
        i <= s.len(),
    ensures
        agrees(r, quoted_part(s@, i as int), |v: ArgumentPart| v@),
        r matches Ok((end, _)) ==> i < end <= s.len(),
{
    let j = scan_exec(s, i, Class::QuotedText);
    if j > i {
        Ok((j, ArgumentPart::Text(text(s, i, j))))
    } else {
        match dollar_expansion_exec(s, i) {
            Ok((end, e)) => Ok((end, ArgumentPart::DollarExpansion(e))),
            Err(f) => Err(f),
        }
    }
}

fn doublequote_exec(s: &Vec<char>, i: usize) -> (r: Result<(usize, Argument), Failure>)
    requires
        i <= s.len(),
    ensures
        agrees(r, doublequote(s@, i as int), |v: Argument| argument_view(v@)),
        r matches Ok((end, _)) ==> i < end <= s.len(),
{
    if !char_at(s, i, '"') {
        return Err(fail(false, i));
    }
    let ghost elem = |j: int| quoted_part(s@, j);
    let ghost len = s@.len() as int;
    let mut parts: Argument = Vec::new();
    let mut cur = i + 1;
    assert(prepend(argument_view(parts@), many(len, cur as int, elem)) =~= many(len, cur as int, elem));
    loop
        invariant
            i < cur <= s.len(),
            at(s@, i as int, '"'),
            elem == (|j: int| quoted_part(s@, j)),
            len == s@.len(),
            prepend(argument_view(parts@), many(len, cur as int, elem)) == many(len, i + 1, elem),
        decreases s.len() - cur,
    {
        match quoted_part_exec(s, cur) {
            Ok((end, part)) => {
                proof {
                    lemma_many_step(len, cur as int, elem, argument_view(parts@));
                    lemma_argument_view_push(parts@, part);
                }
                parts.push(part);
                cur = end;
            },
            Err(f) => {
                if f.committed {
                    return Err(f);
                }
                proof {
                    lemma_many_stop(len, cur as int, elem, argument_view(parts@));
                }
                if char_at(s, cur, '"') {
                    return Ok((cur + 1, parts));
                } else {
                    return Err(fail(true, cur));
                }
            },
        }
    }
}

fn argument_part_exec(s: &Vec<char>, i: usize) -> (r: Result<(usize, ArgumentPart), Failure>)
    requires
        i <= s.len(),
    ensures
        agrees(r, argument_part(s@, i as int), |v: ArgumentPart| v@),
        r matches Ok((end, _)) ==> i < end <= s.len(),
{
    let j = scan_exec(s, i, Class::ArgText);
    if j > i {
        Ok((j, ArgumentPart::Text(text(s, i, j))))
    } else if char_at(s, i, '"') {
        match doublequote_exec(s, i) {
            Ok((end, parts)) => Ok((end, ArgumentPart::DoubleQuote(parts))),
            Err(f) => Err(f),
        }
    } else {
        match dollar_expansion_exec(s, i) {
            Ok((end, e)) => Ok((end, ArgumentPart::DollarExpansion(e))),
            Err(f) => Err(f),
        }
    }
}

fn argument_exec(s: &Vec<char>, i: usize) -> (r: Result<(usize, Argument), Failure>)
    requires
        i <= s.len(),
    ensures
        agrees(r, argument(s@, i as int), |v: Argument| argument_view(v@)),
        r matches Ok((end, _)) ==> i <= end <= s.len(),
        r matches Err(f) ==> f.committed,
{
    let ghost elem = |j: int| argument_part(s@, j);
    let ghost len = s@.len() as int;
    let mut parts: Argument = Vec::new();
    let mut cur = i;
    assert(prepend(argument_view(parts@), many(len, cur as int, elem)) =~= many(len, cur as int, elem));
    loop
        invariant
            i <= cur <= s.len(),
            elem == (|j: int| argument_part(s@, j)),
            len == s@.len(),
            prepend(argument_view(parts@), many(len, cur as int, elem)) == many(len, i as int, elem),
        decreases s.len() - cur,
    {
        match argument_part_exec(s, cur) {
            Ok((end, part)) => {
                proof {
                    lemma_many_step(len, cur as int, elem, argument_view(parts@));
                    lemma_argument_view_push(parts@, part);
                }
                parts.push(part);
                cur = end;
            },
            Err(f) => {
                if f.committed {
                    return Err(f);
                }
                proof {
                    lemma_many_stop(len, cur as int, elem, argument_view(parts@));
                }
                return Ok((cur, parts));
            },
        }
    }
}


/// A repetition that matches ends where its element fails without consuming
/// input.
proof fn lemma_many_end<T>(len: int, i: int, elem: spec_fn(int) -> Outcome<T>)
    ensures
        many(len, i, elem) matches Outcome::Done { end, .. } ==> elem(end).failed_uncommitted(),
    decreases len - i,
{
    if let Outcome::Done { end, .. } = elem(i) {
        if i < end <= len {
            lemma_many_end(len, end, elem);
        }
    }
}

proof fn lemma_case_part_fails(s: Seq<char>, k: int)
    requires
        0 <= k,
    ensures
        !(case_part(s, k) is Done),
{
    lemma_many_end(s.len() as int, k, |j: int| argument_part(s, j));
    if let Outcome::Done { end: j, .. } = argument(s, k) {
        lemma_many_bounds(s.len() as int, k, |j: int| argument_part(s, j));
        if at(s, j, ')') {
            lemma_scan_bounds(s, j + 1, Class::ArgText);
            assert(scan(s, j, Class::ArgText) > j);
        }
    }
}

proof fn lemma_case_parts_fail(s: Seq<char>, n: int)
    requires
        0 <= n,
    ensures
        !(case_parts(s, n) is Done),
{
    lemma_case_part_fails(s, n);
}

/// A case part never matches: its pattern runs up to a character that ends
/// an argument's text, and `)` is not one of them.  So a `case` statement is
/// always rejected, before its `esac`.
#[verifier::rlimit(40)]
pub proof fn lemma_case_never_matches(s: Seq<char>, i: int)
    requires
        0 <= i,
    ensures
        !(case_part(s, i) is Done),
        !(case(s, i) is Done),
{
    lemma_case_part_fails(s, i);
    if let Outcome::Done { end: j, .. } = keyword(s, i, kw_case()) {
        if blank_at(s, j) {
            if let Outcome::Done { end: k, .. } = argument(s, j + 1) {
                if blank_at(s, k) {
                    if let Outcome::Done { end: m, .. } = keyword(s, k + 1, kw_in()) {
                        lemma_scan_bounds(s, m + 1, Class::Blank);
                        lemma_case_parts_fail(s, scan(s, m + 1, Class::Blank));
                    }
                }
            }
        }
    }
}

/// An assignment never matches: a word runs up to a character that ends a
/// word, and `=` is not one of them.
pub proof fn lemma_variable_fails(s: Seq<char>, i: int)
    requires
        0 <= i,
    ensures
        variable(s, i) == match word(s, i) {
            Outcome::Done { end, .. } => Outcome::<SpecVariable>::Failed {
                committed: true,
                at: end,
                messages: seq![],
            },
            Outcome::Failed { committed, at, messages } => Outcome::<SpecVariable>::Failed {
                committed,
                at,
                messages,
            },
            Outcome::Diverges => Outcome::<SpecVariable>::Diverges,
        },
        variable(s, i) is Failed,
{
    lemma_scan_bounds(s, i, Class::Word);
}

fn variable_exec(s: &Vec<char>, i: usize) -> (f: Failure)
    requires
        i <= s.len(),
    ensures
        variable(s@, i as int) == f.outcome::<SpecVariable>(),
{
    proof {
        lemma_variable_fails(s@, i as int);
    }
    match word_exec(s, i) {
        Ok((end, _)) => fail(true, end),
        Err(f) => f,
    }
}

fn blank_argument_exec(s: &Vec<char>, i: usize) -> (r: Result<(usize, Argument), Failure>)
    requires
        i <= s.len(),
    ensures
        agrees(r, blank_argument(s@, i as int), |v: Argument| argument_view(v@)),
        r matches Ok((end, _)) ==> i < end <= s.len(),
{
    if blank_at_exec(s, i) {
        match argument_exec(s, i + 1) {
            Ok((end, a)) => Ok((end, a)),
            Err(f) => Err(f.commit()),
        }
    } else {
        Err(fail(false, i))
    }
}

fn separated_arguments_exec(s: &Vec<char>, i: usize) -> (r: Result<(usize, Vec<Argument>), Failure>)
    requires
        i <= s.len(),
    ensures
        agrees(r, separated_arguments(s@, i as int), |v: Vec<Argument>| arguments_view(v@)),
        r matches Ok((end, _)) ==> i <= end <= s.len(),
{
    let (first_end, first) = match argument_exec(s, i) {
        Ok(p) => p,
        Err(f) => {
            return Err(f);
        },
    };
    let ghost elem = |j: int| blank_argument(s@, j);
    let ghost len = s@.len() as int;
    let mut args: Vec<Argument> = Vec::new();
    proof {
        lemma_arguments_view_push(args@, first);
    }
    args.push(first);
    let mut cur = first_end;
    assert(arguments_view(args@) =~= seq![argument_view(first@)]);
    loop
        invariant
            i <= first_end <= cur <= s.len(),
            elem == (|j: int| blank_argument(s@, j)),
            len == s@.len(),
            prepend(arguments_view(args@), many(len, cur as int, elem)) == prepend(
                seq![argument_view(args@[0]@)],
                many(len, first_end as int, elem),
            ),
            args@.len() > 0,
            argument(s@, i as int) == (Outcome::Done {
                end: first_end as int,
                value: argument_view(args@[0]@),
            }),
        decreases s.len() - cur,
    {
        match blank_argument_exec(s, cur) {
            Ok((end, a)) => {
                proof {
                    lemma_many_step(len, cur as int, elem, arguments_view(args@));
                    lemma_arguments_view_push(args@, a);
                }
                args.push(a);
                cur = end;
            },
            Err(f) => {
                if f.committed {
                    return Err(f);
                }
                proof {
                    lemma_many_stop(len, cur as int, elem, arguments_view(args@));
                }
                return Ok((cur, args));
            },
        }
    }
}

fn command_exec(s: &Vec<char>, i: usize) -> (r: Result<(usize, Command), Failure>)
    requires
        i <= s.len(),
    ensures
        agrees(r, command(s@, i as int), |v: Command| command_view(v)),
        r matches Ok((end, _)) ==> i < end <= s.len(),
{
    let (j, program) = match argument_exec(s, i) {
        Ok(p) => p,
        Err(f) => {
            return Err(f);
        },
    };
    if !blank_at_exec(s, j) {
        return Err(fail(j > i, j));
    }
    let (k, arguments) = match separated_arguments_exec(s, j + 1) {
        Ok(p) => p,
        Err(f) => {
            return Err(f.commit());
        },
    };
    if char_at(s, k, ';') || char_at(s, k, '\n') {
        Ok((k + 1, Command { program, arguments }))
    } else {
        Err(fail(true, k))
    }
}


proof fn lemma_statements_step(s: Seq<char>, i: int, acc: Seq<SpecStatement>)
    requires
        statement(s, i) matches Outcome::Done { end, .. } && i < end <= s.len(),
    ensures
        prepend(acc, statements(s, i)) == prepend(
            acc.push(statement(s, i)->value),
            statements(s, statement(s, i)->end),
        ),
{
    let v = statement(s, i)->value;
    let end = statement(s, i)->end;
    if let Outcome::Done { end: e, value: rest } = statements(s, end) {
        assert(acc + (seq![v] + rest) =~= acc.push(v) + rest);
    }
}

proof fn lemma_statements_stop(s: Seq<char>, i: int, acc: Seq<SpecStatement>)
    requires
        statement(s, i).failed_uncommitted(),
    ensures
        prepend(acc, statements(s, i)) == (Outcome::Done { end: i, value: acc }),
{
    assert(acc + Seq::<SpecStatement>::empty() =~= acc);
}

proof fn lemma_case_parts_step(
    s: Seq<char>,
    i: int,
    acc: Seq<(Seq<SpecArgumentPart>, Option<Seq<SpecStatement>>)>,
)
    requires
        case_part(s, i) matches Outcome::Done { end, .. } && i < end <= s.len(),
    ensures
        prepend(acc, case_parts_rest(s, i)) == prepend(
            acc.push(case_part(s, i)->value),
            case_parts_rest(s, case_part(s, i)->end),
        ),
{
    let v = case_part(s, i)->value;
    let end = case_part(s, i)->end;
    if let Outcome::Done { end: e, value: rest } = case_parts_rest(s, end) {
        assert(acc + (seq![v] + rest) =~= acc.push(v) + rest);
    }
}

proof fn lemma_case_parts_stop(
    s: Seq<char>,
    i: int,
    acc: Seq<(Seq<SpecArgumentPart>, Option<Seq<SpecStatement>>)>,
)
    requires
        case_part(s, i).failed_uncommitted(),
    ensures
        prepend(acc, case_parts_rest(s, i)) == (Outcome::Done { end: i, value: acc }),
{
    assert(acc + Seq::<(Seq<SpecArgumentPart>, Option<Seq<SpecStatement>>)>::empty() =~= acc);
}

fn statements_exec(s: &Vec<char>, i: usize) -> (r: Result<(usize, Vec<Statement>), Failure>)
    requires
        i <= s.len(),
    ensures
        agrees(r, statements(s@, i as int), |v: Vec<Statement>| statements_view(v@)),
        r matches Ok((end, _)) ==> i <= end <= s.len(),
        r matches Err(f) ==> f.committed,
    decreases s@.len() - i, 5int,
{
    let mut body: Vec<Statement> = Vec::new();
    let mut cur = i;
    assert(prepend(statements_view(body@), statements(s@, cur as int)) =~= statements(
        s@,
        cur as int,
    ));
    loop
        invariant
            i <= cur <= s.len(),
            prepend(statements_view(body@), statements(s@, cur as int)) == statements(
                s@,
                i as int,
            ),
        decreases s.len() - cur,
    {
        match statement_exec(s, cur) {
            Ok((end, st)) => {
                proof {
                    lemma_statements_step(s@, cur as int, statements_view(body@));
                    lemma_statements_view_push(body@, st);
                }
                body.push(st);
                cur = end;
            },
            Err(f) => {
                if f.committed {
                    return Err(f);
                }
                proof {
                    lemma_statements_stop(s@, cur as int, statements_view(body@));
                }
                return Ok((cur, body));
            },
        }
    }
}

fn statement_exec(s: &Vec<char>, i: usize) -> (r: Result<(usize, Statement), Failure>)
    requires
        i <= s.len(),
    ensures
        agrees(r, statement(s@, i as int), |v: Statement| v@),
        r matches Ok((end, _)) ==> i < end <= s.len(),
    decreases s@.len() - i, 4int,
{
    let j = scan_exec(s, i, Class::Space);
    let spaced = j > i;
    let p1 = match comment_block_exec(s, j) {
        Ok((end, c)) => {
            return Ok((end, Statement::CommentBlock(c)));
        },
        Err(f) => {
            if f.committed {
                return Err(f);
            }
            f
        },
    };
    let p2 = match case_exec(s, j) {
        Ok((end, c)) => {
            return Ok((end, Statement::Case(c)));
        },
        Err(f) => {
            if f.committed {
                return Err(f);
            }
            f
        },
    };
    let p3 = match parse_if_exec(s, j) {
        Ok((end, c)) => {
            return Ok((end, Statement::If(c)));
        },
        Err(f) => {
            if f.committed {
                return Err(f);
            }
            f
        },
    };
    let v = variable_exec(s, j);
    let p4 = Failure { committed: false, at: v.at, messages: v.messages };
    let p5 = match function_exec(s, j) {
        Ok((end, c)) => {
            return Ok((end, Statement::Function(c)));
        },
        Err(f) => {
            if f.committed {
                return Err(f);
            }
            f
        },
    };
    let f = merge(p1, merge(p2, merge(p3, merge(p4, p5))));
    if spaced {
        Err(f.commit())
    } else {
        Err(f)
    }
}

fn function_exec(s: &Vec<char>, i: usize) -> (r: Result<(usize, Function), Failure>)
    requires
        i <= s.len(),
    ensures
        agrees(
            r,
            function(s@, i as int),
            |v: Function| SpecFunction { name: v.name@, statements: statements_view(v.statements@) },
        ),
        r matches Ok((end, _)) ==> i < end <= s.len(),
    decreases s@.len() - i, 3int,
{
    let (k, name) = match word_exec(s, i) {
        Ok(p) => p,
        Err(f) => {
            return Err(f);
        },
    };
    let a = scan_exec(s, k, Class::Space);
    if !char_at(s, a, '(') {
        return Err(fail(true, a));
    }
    let b = scan_exec(s, a + 1, Class::Space);
    if !char_at(s, b, ')') {
        return Err(fail(true, b));
    }
    let c = scan_exec(s, b + 1, Class::Space);
    if !char_at(s, c, '{') {
        return Err(fail(true, c));
    }
    if !char_at(s, c + 1, '\n') {
        return Err(fail(true, c + 1));
    }
    let (d, statements) = match statements_exec(s, c + 2) {
        Ok(p) => p,
        Err(f) => {
            return Err(f.commit());
        },
    };
    if !char_at(s, d, '}') {
        return Err(fail(true, d));
    }
    if !char_at(s, d + 1, '\n') {
        return Err(fail(true, d + 1));
    }
    Ok((d + 2, Function { name, statements }))
}

fn parse_if_exec(s: &Vec<char>, i: usize) -> (r: Result<(usize, If), Failure>)
    requires
        i <= s.len(),
    ensures
        agrees(r, parse_if(s@, i as int), |v: If| if_view(v)),
        r matches Ok((end, _)) ==> i < end <= s.len(),
    decreases s@.len() - i, 3int,
{
    let kw_if_chars: [char; 2] = ['i', 'f'];
    let kw_then_chars: [char; 4] = ['t', 'h', 'e', 'n'];
    let kw_fi_chars: [char; 2] = ['f', 'i'];
    assert(kw_if_chars@ =~= kw_if());
    assert(kw_then_chars@ =~= kw_then());
    assert(kw_fi_chars@ =~= kw_fi());
    let j = match keyword_exec(s, i, &kw_if_chars) {
        Ok(j) => j,
        Err(f) => {
            return Err(f);
        },
    };
    if !blank_at_exec(s, j) {
        return Err(fail(true, j));
    }
    let (k, condition) = match command_exec(s, j + 1) {
        Ok(p) => p,
        Err(f) => {
            return Err(f.commit());
        },
    };
    let m = match keyword_exec(s, k, &kw_then_chars) {
        Ok(m) => m,
        Err(f) => {
            return Err(f.commit());
        },
    };
    if !char_at(s, m, '\n') {
        return Err(fail(true, m));
    }
    let (n, statements) = match statements_exec(s, m + 1) {
        Ok(p) => p,
        Err(f) => {
            return Err(f.commit());
        },
    };
    match keyword_exec(s, n, &kw_fi_chars) {
        Ok(p) => Ok((p, If::If { condition, statements, next: None })),
        Err(f) => Err(f.commit()),
    }
}

fn case_exec(s: &Vec<char>, i: usize) -> (r: Result<(usize, Case), Failure>)
    requires
        i <= s.len(),
    ensures
        agrees(
            r,
            case(s@, i as int),
            |v: Case| SpecCase { argument: argument_view(v.argument@), parts: case_parts_view(v.parts@) },
        ),
        r matches Ok((end, _)) ==> i < end <= s.len(),
    decreases s@.len() - i, 3int,
{
    let kw_case_chars: [char; 4] = ['c', 'a', 's', 'e'];
    let kw_in_chars: [char; 2] = ['i', 'n'];
    let kw_esac_chars: [char; 4] = ['e', 's', 'a', 'c'];
    assert(kw_case_chars@ =~= kw_case());
    assert(kw_in_chars@ =~= kw_in());
    assert(kw_esac_chars@ =~= kw_esac());
    let j = match keyword_exec(s, i, &kw_case_chars) {
        Ok(j) => j,
        Err(f) => {
            return Err(f);
        },
    };
    if !blank_at_exec(s, j) {
        return Err(fail(true, j));
    }
    let (k, argument) = match argument_exec(s, j + 1) {
        Ok(p) => p,
        Err(f) => {
            return Err(f.commit().explained(CaseMessage::Argument));
        },
    };
    if !blank_at_exec(s, k) {
        return Err(fail(true, k));
    }
    let m = match keyword_exec(s, k + 1, &kw_in_chars) {
        Ok(m) => m,
        Err(f) => {
            return Err(f.commit().explained(CaseMessage::InKeyword));
        },
    };
    if !(char_at(s, m, ';') || char_at(s, m, '\n')) {
        return Err(fail(true, m).explained(CaseMessage::Separator));
    }
    let n = scan_exec(s, m + 1, Class::Blank);
    let (p, parts) = match case_parts_exec(s, n) {
        Ok(p) => p,
        Err(f) => {
            if f.committed {
                return Err(f);
            }
            return Err(f.commit().explained(CaseMessage::Pattern));
        },
    };
    match keyword_exec(s, p, &kw_esac_chars) {
        Ok(q) => Ok((q, Case { argument, parts })),
        Err(f) => Err(f.commit().explained(CaseMessage::Esac)),
    }
}

fn case_parts_exec(s: &Vec<char>, i: usize) -> (r: Result<
    (usize, Vec<(Argument, Option<Vec<Statement>>)>),
    Failure,
>)
    requires
        i <= s.len(),
    ensures
        agrees(
            r,
            case_parts(s@, i as int),
            |v: Vec<(Argument, Option<Vec<Statement>>)>| case_parts_view(v@),
        ),
        r matches Ok((end, _)) ==> i <= end <= s.len(),
    decreases s@.len() - i, 2int,
{
    let mut parts: Vec<(Argument, Option<Vec<Statement>>)> = Vec::new();
    let mut cur = i;
    assert(prepend(case_parts_view(parts@), case_parts_rest(s@, cur as int)) =~= case_parts_rest(
        s@,
        cur as int,
    ));
    loop
        invariant
            i <= cur <= s.len(),
            prepend(case_parts_view(parts@), case_parts_rest(s@, cur as int)) == case_parts_rest(
                s@,
                i as int,
            ),
            cur == i ==> parts@.len() == 0,
            cur > i ==> !case_part(s@, i as int).failed_uncommitted(),
        decreases s.len() - cur,
    {
        match case_part_exec(s, cur) {
            Ok((end, part)) => {
                proof {
                    lemma_case_parts_step(s@, cur as int, case_parts_view(parts@));
                    lemma_case_parts_view_push(parts@, part);
                }
                parts.push(part);
                cur = end;
            },
            Err(f) => {
                if f.committed || cur == i {
                    return Err(f);
                }
                proof {
                    lemma_case_parts_stop(s@, cur as int, case_parts_view(parts@));
                }
                return Ok((cur, parts));
            },
        }
    }
}

#[verifier::spinoff_prover]
#[verifier::rlimit(40)]
fn case_part_exec(s: &Vec<char>, i: usize) -> (r: Result<
    (usize, (Argument, Option<Vec<Statement>>)),
    Failure,
>)
    requires
        i <= s.len(),
    ensures
        agrees(
            r,
            case_part(s@, i as int),
            |v: (Argument, Option<Vec<Statement>>)| case_part_view(v),
        ),
        r matches Ok((end, _)) ==> i < end <= s.len(),
    decreases s@.len() - i, 0int,
{
    let (j, pattern) = match argument_exec(s, i) {
        Ok(p) => p,
        Err(f) => {
            return Err(f.explained(CaseMessage::Pattern));
        },
    };
    if !char_at(s, j, ')') {
        if j > i {
            return Err(fail(true, j).explained(CaseMessage::EndParenthesis));
        }
        return Err(fail(false, j));
    }
    if !char_at(s, j + 1, '\n') {
        return Err(fail(true, j + 1).explained(CaseMessage::EndParenthesis));
    }
    let (k, body) = match statements_exec(s, j + 2) {
        Ok((k, body)) => (k, Some(body)),
        Err(f) => {
            return Err(f.commit());
        },
    };
    let kw_dsemi_chars: [char; 2] = [';', ';'];
    assert(kw_dsemi_chars@ =~= kw_dsemi());
    let w = scan_exec(s, k, Class::BlankOrNewline);
    match keyword_exec(s, w, &kw_dsemi_chars) {
        Ok(m) => Ok((scan_exec(s, m, Class::BlankOrNewline), (pattern, body))),
        Err(f) => Err(f.commit()),
    }
}


/// The number of bytes that UTF-8 takes for `c`.
pub open spec fn utf8_width(c: char) -> int {
    if c <= '\u{7f}' {
        1
    } else if c <= '\u{7ff}' {
        2
    } else if c <= '\u{ffff}' {
        3
    } else {
        4
    }
}

/// The number of bytes that UTF-8 takes for the characters of `s`.
pub open spec fn utf8_len(s: Seq<char>) -> int
    decreases s.len(),
{
    if s.len() == 0 {
        0
    } else {
        utf8_len(s.subrange(0, s.len() - 1)) + utf8_width(s[s.len() - 1])
    }
}

/// Where the input was rejected, counted in characters from its start, and
/// the messages of the rules that explain the rejection.
#[derive(Debug, Clone, PartialEq, Eq)]
pub struct ParseError {
    pub position: usize,
    pub messages: Vec<CaseMessage>,
}

impl ParseError {
    /// The position of the error as a byte offset into `src`: the UTF-8 length
    /// of the characters before it (of all of `src` where the position lies
    /// past its end), or `usize::MAX` where that does not fit.
    pub fn translate_position(&self, src: &str) -> (offset: usize)
        ensures
            offset == min_usize(
                utf8_len(
                    src@.take(
                        if self.position <= src@.len() {
                            self.position as int
                        } else {
                            src@.len() as int
                        },
                    ),
                ),
            ),
    {
        let chars = chars_of(src);
        let mut offset: usize = 0;
        let mut k: usize = 0;
        assert(src@.take(0) =~= Seq::<char>::empty());
        while k < self.position && k < chars.len()
            invariant
                k <= self.position,
                k <= chars@.len(),
                chars@ == src@,
                offset == min_usize(utf8_len(src@.take(k as int))),
            decreases self.position - k,
        {
            let c = chars[k];
            let w: usize = if c <= '\u{7f}' {
                1
            } else if c <= '\u{7ff}' {
                2
            } else if c <= '\u{ffff}' {
                3
            } else {
                4
            };
            proof {
                assert(src@.take(k + 1).subrange(0, k as int) =~= src@.take(k as int));
                lemma_utf8_len_nonneg(src@.take(k as int));
            }
            offset = if offset > usize::MAX - w {
                usize::MAX
            } else {
                offset + w
            };
            k = k + 1;
        }
        assert(k == if self.position <= src@.len() {
            self.position as int
        } else {
            src@.len() as int
        });
        offset
    }
}

/// `n`, or `usize::MAX` where `n` is larger.
pub open spec fn min_usize(n: int) -> int {
    if n <= usize::MAX {
        n
    } else {
        usize::MAX as int
    }
}

proof fn lemma_utf8_len_nonneg(s: Seq<char>)
    ensures
        utf8_len(s) >= 0,
    decreases s.len(),
{
    if s.len() > 0 {
        lemma_utf8_len_nonneg(s.subrange(0, s.len() - 1));
    }
}

/// Parses the statements at the start of `src`.  On success it returns them
/// and the rest of the input that no statement took; parsing fails exactly
/// where the grammar fails, with the messages that the grammar gives that
/// failure, and it never runs forever.
pub fn parse<'a>(src: &'a str) -> (r: Result<(Vec<Statement>, &'a str), ParseError>)
    ensures
        !(script(src@) is Diverges),
        match r {
            Ok((tree, rest)) => script(src@) matches Outcome::Done { end, value } && value
                == statements_view(tree@) && rest@ == src@.skip(end),
            Err(e) => script(src@) == (Outcome::<Seq<SpecStatement>>::Failed {
                committed: true,
                at: e.position as int,
                messages: e.messages@,
            }),
        },
{
    let chars = chars_of(src);
    match statements_exec(&chars, 0) {
        Ok((end, tree)) => {
            let rest = src.substring_char(end, chars.len());
            assert(rest@ =~= src@.skip(end as int));
            Ok((tree, rest))
        },
        Err(f) => Err(ParseError { position: f.at, messages: f.messages }),
    }
}

} // verus!
