//! What the grammar accepts, stated over the characters of the input alone:
//! function definitions by any name, comment lines of any text, and the
//! pieces of arguments and commands, and the messages of a rejected `case`.
use vstd::prelude::*;

use super::grammar::{
    argument, argument_part, at, blank_argument, case, case_part, case_parts, command,
    comment_block, comment_line, concat, dollar_expansion, doublequote, keyword, kw_case, kw_if,
    kw_in, lemma_scan_bounds, many, many1, quoted_part, scan, script, separated_arguments,
    statement, statements, substitution, word, wrap_case, wrap_comment, CaseMessage, Class,
    Outcome,
};
use super::tree::{
    SpecArgumentPart, SpecCommand, SpecExpansion, SpecFunction, SpecStatement, SpecSubstitution,
};

verus! {

/// A character that may stand in a word: none of `$ ' " ` ( ) space tab ; }`.
pub open spec fn word_char(c: char) -> bool {
    c != '$' && c != '\'' && c != '"' && c != '`' && c != '(' && c != ')' && c != ' ' && c
        != '\t' && c != ';' && c != '}'
}

/// A word is the longest non-empty run of word characters: where `n` is made
/// of word characters and is followed by a character that is not one (or by
/// the end of the input), the word at `i` is `n`.
pub proof fn law_word(s: Seq<char>, i: int, n: Seq<char>)
    requires
        0 <= i,
        n.len() > 0,
        i + n.len() <= s.len(),
        s.subrange(i, i + n.len()) == n,
        forall|k: int| 0 <= k < n.len() ==> word_char(#[trigger] n[k]),
        i + n.len() == s.len() || !word_char(s[i + n.len()]),
    ensures
        word(s, i) == (Outcome::Done { end: i + n.len(), value: n }),
{
    let e = scan(s, i, Class::Word);
    lemma_scan_bounds(s, i, Class::Word);
    if e < i + n.len() {
        assert(s[e] == n[e - i]);
        assert(word_char(n[e - i]));
    }
    if e > i + n.len() {
        assert(i <= i + n.len() < e);
    }
    assert(e == i + n.len());
}

/// No statement starts at the end of the input or at a `}`: the statements
/// there are none.
proof fn lemma_no_statement(s: Seq<char>, i: int)
    requires
        0 <= i <= s.len(),
        i == s.len() || s[i] == '}',
    ensures
        statement(s, i).failed_uncommitted(),
        statements(s, i) == (Outcome::Done { end: i, value: Seq::<SpecStatement>::empty() }),
{
    lemma_scan_bounds(s, i, Class::Space);
    lemma_scan_bounds(s, i, Class::Word);
    assert(scan(s, i, Class::Space) == i);
    assert(scan(s, i, Class::Word) == i);
    assert(comment_line(s, i).failed_uncommitted());
    assert(comment_block(s, i).failed_uncommitted());
    if i + 4 <= s.len() {
        assert(s.subrange(i, i + 4)[0] != kw_case()[0]);
    }
    if i + 2 <= s.len() {
        assert(s.subrange(i, i + 2)[0] != kw_if()[0]);
    }
    assert(word(s, i).failed_uncommitted());
    assert(statement(s, i).failed_uncommitted());
}

/// `k` copies of `c`.
pub open spec fn run_of(c: char, k: nat) -> Seq<char> {
    Seq::new(k, |_j: int| c)
}

/// The spaces from `i` to `i + k`, followed by something else, are skipped.
proof fn lemma_scan_spaces(s: Seq<char>, i: int, k: int)
    requires
        0 <= i,
        0 <= k,
        i + k < s.len(),
        forall|m: int| i <= m < i + k ==> #[trigger] s[m] == ' ',
        s[i + k] != ' ',
    ensures
        scan(s, i, Class::Space) == i + k,
{
    let e = scan(s, i, Class::Space);
    lemma_scan_bounds(s, i, Class::Space);
    if e < i + k {
        assert(s[e] == ' ');
    }
    if e > i + k {
        assert(i <= i + k < e);
    }
}

/// A function definition with an empty body: `a` spaces, the name `n`, `b`
/// spaces, `(`, `c` spaces, `)`, `d` spaces, `{`, newline, `}`, newline.
pub open spec fn empty_function(n: Seq<char>, a: nat, b: nat, c: nat, d: nat) -> Seq<char> {
    run_of(' ', a) + n + run_of(' ', b) + seq!['('] + run_of(' ', c) + seq![')'] + run_of(' ', d)
        + seq!['{', '\n', '}', '\n']
}

/// A function named by any word that starts with none of `#`, `c` and `i`
/// (which begin a comment, or the keywords `case` and `if`, and commit to
/// them) is accepted with an empty body, with any spaces before it, before
/// `(`, between `(` and `)` and before `{`, and the whole input is taken.
#[verifier::spinoff_prover]
#[verifier::rlimit(80)]
pub proof fn law_function_definition(n: Seq<char>, a: nat, b: nat, c: nat, d: nat)
    requires
        n.len() > 0,
        forall|k: int| 0 <= k < n.len() ==> word_char(#[trigger] n[k]),
        n[0] != '#' && n[0] != 'c' && n[0] != 'i',
    ensures
        script(empty_function(n, a, b, c, d)) == (Outcome::Done {
            end: (a + n.len() + b + c + d + 6) as int,
            value: seq![SpecStatement::Function(SpecFunction { name: n, statements: seq![] })],
        }),
{
    let s = empty_function(n, a, b, c, d);
    let l: int = a + n.len() as int;
    let o: int = l + b;
    let q: int = o + 1 + c;
    let r: int = q + 1 + d;
    assert(s.len() == r + 4);
    assert forall|m: int| 0 <= m < a implies #[trigger] s[m] == ' ' by {}
    assert forall|m: int| 0 <= m < n.len() implies #[trigger] s[a + m] == n[m] by {}
    assert forall|m: int| l <= m < o implies #[trigger] s[m] == ' ' by {}
    assert forall|m: int| o + 1 <= m < q implies #[trigger] s[m] == ' ' by {}
    assert forall|m: int| q + 1 <= m < r implies #[trigger] s[m] == ' ' by {}
    assert(s[o] == '(' && s[q] == ')' && s[r] == '{');
    assert(s[r + 1] == '\n' && s[r + 2] == '}' && s[r + 3] == '\n');
    assert(s.subrange(a as int, l) =~= n);
    assert(s[a as int] == n[0]);
    assert(word_char(n[0]));
    assert(l == s.len() || !word_char(s[l]));
    law_word(s, a as int, n);
    lemma_scan_spaces(s, 0, a as int);
    lemma_scan_spaces(s, l, b as int);
    lemma_scan_spaces(s, o + 1, c as int);
    lemma_scan_spaces(s, q + 1, d as int);
    lemma_no_statement(s, r + 2);
    lemma_no_statement(s, r + 4);
    assert(comment_line(s, a as int).failed_uncommitted());
    assert(comment_block(s, a as int).failed_uncommitted());
    if a + 4 <= s.len() {
        assert(s.subrange(a as int, a as int + 4)[0] != kw_case()[0]);
    }
    assert(s.subrange(a as int, a as int + 2)[0] != kw_if()[0]);
    let f = SpecStatement::Function(SpecFunction { name: n, statements: seq![] });
    assert(statement(s, 0) == (Outcome::Done { end: r + 4, value: f }));
    assert(seq![f] + Seq::<SpecStatement>::empty() =~= seq![f]);
}

/// A comment line of any text without a newline, then `k` empty lines:
/// `#`, the text, a newline, `k` newlines.
pub open spec fn comment_of(t: Seq<char>, k: nat) -> Seq<char> {
    seq!['#'] + t + seq!['\n'] + run_of('\n', k)
}

/// A comment line is taken whole, whatever its text, and so are the empty
/// lines after it: `#` and a text `t` without a newline, then a newline, is
/// a comment line whose value is `t` and the newline; followed by `k`
/// newlines it is one comment block of that value, and the whole input is
/// taken.
pub proof fn law_comment_line(t: Seq<char>, k: nat)
    requires
        forall|m: int| 0 <= m < t.len() ==> #[trigger] t[m] != '\n',
    ensures
        comment_line(comment_of(t, k), 0) == (Outcome::Done {
            end: t.len() as int + 2,
            value: t.push('\n'),
        }),
        script(comment_of(t, k)) == (Outcome::Done {
            end: (t.len() + 2 + k) as int,
            value: seq![SpecStatement::CommentBlock(t.push('\n'))],
        }),
{
    let s = comment_of(t, k);
    let l = t.len() as int;
    assert(s.len() == l + 2 + k);
    assert(s[0] == '#' && s[l + 1] == '\n');
    assert forall|m: int| 0 <= m < l implies #[trigger] s[m + 1] == t[m] by {}
    assert forall|m: int| l + 2 <= m < s.len() implies #[trigger] s[m] == '\n' by {}
    let e = scan(s, 1, Class::NotNewline);
    lemma_scan_bounds(s, 1, Class::NotNewline);
    if e < l + 1 {
        assert(s[e] == t[e - 1]);
    }
    assert(e == l + 1);
    assert(s.subrange(1, l + 1) =~= t);
    assert(comment_line(s, 0) == (Outcome::Done { end: l + 2, value: t.push('\n') }));
    let elem = |j: int| comment_line(s, j);
    assert(comment_line(s, l + 2).failed_uncommitted());
    assert(many(s.len() as int, l + 2, elem) == (Outcome::Done {
        end: l + 2,
        value: Seq::<Seq<char>>::empty(),
    }));
    assert(seq![t.push('\n')] + Seq::<Seq<char>>::empty() =~= seq![t.push('\n')]);
    assert(many1(s.len() as int, 0, elem) == (Outcome::Done {
        end: l + 2,
        value: seq![t.push('\n')],
    }));
    assert(seq![t.push('\n')].subrange(0, 0) =~= Seq::<Seq<char>>::empty());
    assert(concat(Seq::<Seq<char>>::empty()) == Seq::<char>::empty());
    assert(concat(seq![t.push('\n')]) =~= t.push('\n'));
    let f = scan(s, l + 2, Class::Newline);
    lemma_scan_bounds(s, l + 2, Class::Newline);
    if f < s.len() {
        assert(s[f] == '\n');
    }
    assert(f == s.len());
    assert(comment_block(s, 0) == (Outcome::Done { end: s.len() as int, value: t.push('\n') }));
    lemma_no_statement(s, s.len() as int);
    lemma_scan_bounds(s, 0, Class::Space);
    assert(scan(s, 0, Class::Space) == 0);
    let c = SpecStatement::CommentBlock(t.push('\n'));
    assert(statement(s, 0) == (Outcome::Done { end: s.len() as int, value: c }));
    assert(seq![c] + Seq::<SpecStatement>::empty() =~= seq![c]);
}

/// A character of plain argument text: none of `" $ ' \ ` ; newline space tab`.
pub open spec fn arg_text_char(c: char) -> bool {
    c != '"' && c != '$' && c != '\'' && c != '\\' && c != '`' && c != ';' && c != '\n' && c
        != ' ' && c != '\t'
}

/// A character that ends an argument without starting another piece of it:
/// `' \ ` ; newline space tab`.
pub open spec fn ends_argument(c: char) -> bool {
    c == '\'' || c == '\\' || c == '`' || c == ';' || c == '\n' || c == ' ' || c == '\t'
}

/// Plain text is one piece of an argument, as long as it runs: where `t` is
/// made of plain text characters and is followed by the end of the input or
/// by a character that ends an argument, the argument at `i` is `t`.
pub proof fn law_argument_text(s: Seq<char>, i: int, t: Seq<char>)
    requires
        0 <= i,
        t.len() > 0,
        i + t.len() <= s.len(),
        s.subrange(i, i + t.len()) == t,
        forall|k: int| 0 <= k < t.len() ==> arg_text_char(#[trigger] t[k]),
        i + t.len() == s.len() || ends_argument(s[i + t.len()]),
    ensures
        argument_part(s, i) == (Outcome::Done { end: i + t.len(), value: SpecArgumentPart::Text(t) }),
        argument(s, i) == (Outcome::Done {
            end: i + t.len(),
            value: seq![SpecArgumentPart::Text(t)],
        }),
{
    let e = i + t.len();
    let j = scan(s, i, Class::ArgText);
    lemma_scan_bounds(s, i, Class::ArgText);
    if j < e {
        assert(s[j] == t[j - i]);
        assert(arg_text_char(t[j - i]));
    }
    if j > e {
        assert(i <= e < j);
    }
    assert(j == e);
    lemma_scan_bounds(s, e, Class::ArgText);
    assert(scan(s, e, Class::ArgText) == e);
    assert(argument_part(s, e).failed_uncommitted());
    let v = SpecArgumentPart::Text(t);
    assert(seq![v] + Seq::<SpecArgumentPart>::empty() =~= seq![v]);
    let elem = |m: int| argument_part(s, m);
    assert(elem(i) == (Outcome::Done { end: e, value: v }));
    assert(elem(e).failed_uncommitted());
    assert(many(s.len() as int, e, elem) == (Outcome::Done {
        end: e,
        value: Seq::<SpecArgumentPart>::empty(),
    }));
    assert(many(s.len() as int, i, elem) == (Outcome::Done { end: e, value: seq![v] }));
}

/// A double-quoted string of plain text (none of `" $ ``) is one piece, the
/// text in quotes.
pub proof fn law_doublequote(s: Seq<char>, i: int, q: Seq<char>)
    requires
        0 <= i,
        q.len() > 0,
        i + q.len() + 2 <= s.len(),
        s[i] == '"',
        s.subrange(i + 1, i + 1 + q.len()) == q,
        forall|k: int| 0 <= k < q.len() ==> #[trigger] q[k] != '"' && q[k] != '$' && q[k] != '`',
        s[i + 1 + q.len()] == '"',
    ensures
        argument_part(s, i) == (Outcome::Done {
            end: i + q.len() + 2,
            value: SpecArgumentPart::DoubleQuote(seq![SpecArgumentPart::Text(q)]),
        }),
{
    let e = i + 1 + q.len();
    lemma_scan_bounds(s, i, Class::ArgText);
    assert(scan(s, i, Class::ArgText) == i);
    let j = scan(s, i + 1, Class::QuotedText);
    lemma_scan_bounds(s, i + 1, Class::QuotedText);
    if j < e {
        assert(s[j] == q[j - i - 1]);
    }
    if j > e {
        assert(i + 1 <= e < j);
    }
    assert(j == e);
    lemma_scan_bounds(s, e, Class::QuotedText);
    assert(scan(s, e, Class::QuotedText) == e);
    assert(quoted_part(s, e).failed_uncommitted());
    let v = SpecArgumentPart::Text(q);
    assert(seq![v] + Seq::<SpecArgumentPart>::empty() =~= seq![v]);
    let elem = |m: int| quoted_part(s, m);
    assert(elem(i + 1) == (Outcome::Done { end: e, value: v }));
    assert(elem(e).failed_uncommitted());
    assert(many(s.len() as int, e, elem) == (Outcome::Done {
        end: e,
        value: Seq::<SpecArgumentPart>::empty(),
    }));
    assert(many(s.len() as int, i + 1, elem) == (Outcome::Done {
        end: e,
        value: seq![v],
    }));
}

/// `$` and a decimal digit is the variable of that digit, whatever follows.
pub proof fn law_digit_variable(s: Seq<char>, i: int)
    requires
        0 <= i,
        i + 2 <= s.len(),
        s[i] == '$',
        '0' <= s[i + 1] <= '9',
    ensures
        dollar_expansion(s, i) == (Outcome::Done {
            end: i + 2,
            value: SpecExpansion::Substitution(SpecSubstitution::Variable(seq![s[i + 1]])),
        }),
{
}

/// A command of a program and one argument, both plain text, separated by a
/// space or a tab and ended by `;` or a newline.
pub proof fn law_simple_command(s: Seq<char>, i: int, p: Seq<char>, a: Seq<char>)
    requires
        0 <= i,
        p.len() > 0,
        a.len() > 0,
        i + p.len() + a.len() + 2 <= s.len(),
        s.subrange(i, i + p.len()) == p,
        s[i + p.len()] == ' ' || s[i + p.len()] == '\t',
        s.subrange(i + p.len() + 1, i + p.len() + 1 + a.len()) == a,
        s[i + p.len() + 1 + a.len()] == ';' || s[i + p.len() + 1 + a.len()] == '\n',
        forall|k: int| 0 <= k < p.len() ==> arg_text_char(#[trigger] p[k]),
        forall|k: int| 0 <= k < a.len() ==> arg_text_char(#[trigger] a[k]),
    ensures
        command(s, i) == (Outcome::Done {
            end: i + p.len() + a.len() + 2,
            value: SpecCommand {
                program: seq![SpecArgumentPart::Text(p)],
                arguments: seq![seq![SpecArgumentPart::Text(a)]],
            },
        }),
{
    let j = i + p.len();
    let k = j + 1 + a.len();
    law_argument_text(s, i, p);
    law_argument_text(s, j + 1, a);
    assert(blank_argument(s, k).failed_uncommitted());
    let va = seq![SpecArgumentPart::Text(a)];
    assert(many(s.len() as int, k, |m: int| blank_argument(s, m)) == (Outcome::Done {
        end: k,
        value: Seq::<Seq<SpecArgumentPart>>::empty(),
    }));
    assert(seq![va] + Seq::<Seq<SpecArgumentPart>>::empty() =~= seq![va]);
    assert(separated_arguments(s, j + 1) == (Outcome::Done { end: k, value: seq![va] }));
}

/// `${`, a word, `}` is the variable of that word.
pub proof fn law_braced_variable(s: Seq<char>, i: int, w: Seq<char>)
    requires
        0 <= i,
        w.len() > 0,
        i + w.len() + 3 <= s.len(),
        s[i] == '$',
        s[i + 1] == '{',
        s.subrange(i + 2, i + 2 + w.len()) == w,
        forall|k: int| 0 <= k < w.len() ==> word_char(#[trigger] w[k]),
        s[i + 2 + w.len()] == '}',
    ensures
        dollar_expansion(s, i) == (Outcome::Done {
            end: i + w.len() + 3,
            value: SpecExpansion::Substitution(SpecSubstitution::Variable(w)),
        }),
{
    law_word(s, i + 2, w);
}

/// A blank: a space or a tab.
pub open spec fn blank(c: char) -> bool {
    c == ' ' || c == '\t'
}

/// The start of a `case` statement: `case`, a blank `b1`, the argument `t`,
/// a blank `b2`.
pub open spec fn case_head(b1: char, t: Seq<char>, b2: char) -> Seq<char> {
    seq!['c', 'a', 's', 'e', b1] + t + seq![b2]
}

/// Where a `case` statement at the start of the input fails, the script
/// fails there, with its messages.
proof fn lemma_script_of_case(s: Seq<char>)
    requires
        s.len() > 0,
        s[0] == 'c',
        case(s, 0) matches Outcome::Failed { committed: true, .. },
    ensures
        script(s) == (Outcome::<Seq<SpecStatement>>::Failed {
            committed: true,
            at: case(s, 0)->at,
            messages: case(s, 0)->messages,
        }),
{
    lemma_scan_bounds(s, 0, Class::Space);
    assert(scan(s, 0, Class::Space) == 0);
    assert(comment_line(s, 0).failed_uncommitted());
    assert(comment_block(s, 0).failed_uncommitted());
    assert(wrap_comment(comment_block(s, 0)).failed_uncommitted());
    let f = Outcome::<SpecStatement>::Failed {
        committed: true,
        at: case(s, 0)->at,
        messages: case(s, 0)->messages,
    };
    assert(wrap_case(case(s, 0)) == f);
    assert(statement(s, 0) == f);
    assert(statements(s, 0) == (Outcome::<Seq<SpecStatement>>::Failed {
        committed: true,
        at: case(s, 0)->at,
        messages: case(s, 0)->messages,
    }));
}

proof fn lemma_case_head(s: Seq<char>, b1: char, t: Seq<char>, b2: char)
    requires
        blank(b1),
        blank(b2),
        t.len() as int > 0,
        forall|k: int| 0 <= k < t.len() as int ==> arg_text_char(#[trigger] t[k]),
        s.len() >= t.len() as int + 6,
        s.subrange(0, t.len() as int + 6) == case_head(b1, t, b2),
    ensures
        keyword(s, 0, kw_case()) == (Outcome::Done { end: 4, value: () }),
        argument(s, 5) == (Outcome::Done {
            end: 5 + t.len() as int,
            value: seq![SpecArgumentPart::Text(t)],
        }),
        s[4] == b1,
        s[5 + t.len() as int] == b2,
{
    let h = case_head(b1, t, b2);
    assert(s.subrange(0, 4) =~= kw_case()) by {
        assert forall|k: int| 0 <= k < 4 implies s[k] == h[k] by {
            assert(s.subrange(0, t.len() as int + 6)[k] == s[k]);
        }
    }
    assert forall|k: int| 0 <= k < t.len() as int + 6 implies s[k] == h[k] by {
        assert(s.subrange(0, t.len() as int + 6)[k] == s[k]);
    }
    assert(s.subrange(5, 5 + t.len() as int) =~= t) by {
        assert forall|k: int| 0 <= k < t.len() as int implies s[5 + k] == t[k] by {
            assert(h[5 + k] == t[k]);
        }
    }
    law_argument_text(s, 5, t);
}

/// A `case` statement whose argument is not followed by the keyword `in` is
/// rejected there, explained by the message of `in`.
#[verifier::spinoff_prover]
#[verifier::rlimit(80)]
pub proof fn law_case_without_in(b1: char, t: Seq<char>, b2: char, r: Seq<char>)
    requires
        blank(b1),
        blank(b2),
        t.len() as int > 0,
        forall|k: int| 0 <= k < t.len() as int ==> arg_text_char(#[trigger] t[k]),
        r.len() == 0 || r[0] != 'i',
    ensures
        script(case_head(b1, t, b2) + r) == (Outcome::<Seq<SpecStatement>>::Failed {
            committed: true,
            at: t.len() as int + 6,
            messages: seq![CaseMessage::InKeyword],
        }),
{
    let s = case_head(b1, t, b2) + r;
    let k = t.len() as int + 5;
    assert(s.subrange(0, t.len() as int + 6) =~= case_head(b1, t, b2));
    lemma_case_head(s, b1, t, b2);
    if k + 3 <= s.len() {
        assert(s.subrange(k + 1, k + 3)[0] == s[k + 1]);
        assert(s[k + 1] == r[0]);
    }
    if k + 1 < s.len() {
        assert(s[k + 1] == r[0]);
    }
    assert(keyword(s, k + 1, kw_in()) matches Outcome::Failed { committed: false, .. });
    assert(Seq::<CaseMessage>::empty().push(CaseMessage::InKeyword) =~= seq![
        CaseMessage::InKeyword,
    ]);
    lemma_script_of_case(s);
}

/// A `case` statement whose `in` is not followed by `;` or a newline is
/// rejected after `in`, explained by the message of that separator.
#[verifier::spinoff_prover]
#[verifier::rlimit(80)]
pub proof fn law_case_without_separator(b1: char, t: Seq<char>, b2: char, r: Seq<char>)
    requires
        blank(b1),
        blank(b2),
        t.len() as int > 0,
        forall|k: int| 0 <= k < t.len() as int ==> arg_text_char(#[trigger] t[k]),
        r.len() == 0 || (r[0] != ';' && r[0] != '\n'),
    ensures
        script(case_head(b1, t, b2) + seq!['i', 'n'] + r) == (Outcome::<
            Seq<SpecStatement>,
        >::Failed { committed: true, at: t.len() as int + 8, messages: seq![CaseMessage::Separator] }),
{
    let s = case_head(b1, t, b2) + seq!['i', 'n'] + r;
    let k = t.len() as int + 5;
    assert(s.subrange(0, t.len() as int + 6) =~= case_head(b1, t, b2));
    lemma_case_head(s, b1, t, b2);
    assert(s.subrange(k + 1, k + 3) =~= kw_in());
    if k + 3 < s.len() {
        assert(s[k + 3] == r[0]);
    }
    lemma_script_of_case(s);
}

/// A character that ends an argument and is not a blank: one of
/// `' \ ` ; newline`.
pub open spec fn ends_pattern(c: char) -> bool {
    c == '\'' || c == '\\' || c == '`' || c == ';' || c == '\n'
}

/// A case part where no pattern starts fails without consuming input, and
/// so do the case parts there.
proof fn lemma_no_pattern(s: Seq<char>, n: int)
    requires
        0 <= n <= s.len(),
        n == s.len() || ends_pattern(s[n]),
    ensures
        case_parts(s, n) matches Outcome::Failed { committed: false, at, messages } && at == n
            && messages.len() == 0,
{
    lemma_scan_bounds(s, n, Class::ArgText);
    assert(scan(s, n, Class::ArgText) == n);
    assert(argument_part(s, n).failed_uncommitted());
    assert(argument(s, n) == (Outcome::Done { end: n, value: Seq::<SpecArgumentPart>::empty() }));
    assert(case_part(s, n) == (Outcome::<
        (Seq<SpecArgumentPart>, Option<Seq<SpecStatement>>),
    >::Failed { committed: false, at: n, messages: seq![] }));
}

/// A plain text pattern not followed by `)` fails after the pattern, with
/// the message of the end-parenthesis, and so do the case parts there.
proof fn lemma_pattern_without_parenthesis(s: Seq<char>, n: int, p: Seq<char>)
    requires
        0 <= n,
        p.len() > 0,
        n + p.len() <= s.len(),
        s.subrange(n, n + p.len()) == p,
        forall|m: int| 0 <= m < p.len() ==> arg_text_char(#[trigger] p[m]),
        n + p.len() == s.len() || ends_argument(s[n + p.len()]),
    ensures
        case_parts(s, n) == (Outcome::<
            Seq<(Seq<SpecArgumentPart>, Option<Seq<SpecStatement>>)>,
        >::Failed {
            committed: true,
            at: n + p.len(),
            messages: seq![CaseMessage::EndParenthesis],
        }),
{
    law_argument_text(s, n, p);
    assert(case_part(s, n) == (Outcome::<
        (Seq<SpecArgumentPart>, Option<Seq<SpecStatement>>),
    >::Failed {
        committed: true,
        at: n + p.len(),
        messages: seq![CaseMessage::EndParenthesis],
    }));
}

/// A `case` statement whose first part has no pattern (after `in`, its
/// separator and any blanks, the input ends or holds a character that ends
/// an argument) is rejected there, explained by the message of the pattern.
#[verifier::spinoff_prover]
#[verifier::rlimit(100)]
pub proof fn law_case_without_pattern(
    b1: char,
    t: Seq<char>,
    b2: char,
    sep: char,
    k: nat,
    r: Seq<char>,
)
    requires
        blank(b1),
        blank(b2),
        t.len() as int > 0,
        forall|m: int| 0 <= m < t.len() as int ==> arg_text_char(#[trigger] t[m]),
        sep == ';' || sep == '\n',
        r.len() == 0 || ends_pattern(r[0]),
    ensures
        script(case_head(b1, t, b2) + seq!['i', 'n', sep] + run_of(' ', k) + r) == (Outcome::<
            Seq<SpecStatement>,
        >::Failed {
            committed: true,
            at: t.len() as int + 9 + k,
            messages: seq![CaseMessage::Pattern],
        }),
{
    let s = case_head(b1, t, b2) + seq!['i', 'n', sep] + run_of(' ', k) + r;
    let m = t.len() as int + 8;
    let n = m + 1 + k;
    assert(s.subrange(0, t.len() as int + 6) =~= case_head(b1, t, b2));
    lemma_case_head(s, b1, t, b2);
    assert(s.subrange(m - 2, m) =~= kw_in());
    assert(s[m] == sep);
    assert forall|j: int| m + 1 <= j < n implies #[trigger] s[j] == ' ' by {}
    if n < s.len() {
        assert(s[n] == r[0]);
    }
    let e = scan(s, m + 1, Class::Blank);
    lemma_scan_bounds(s, m + 1, Class::Blank);
    if e < n {
        assert(s[e] == ' ');
    }
    if e > n {
        assert(m + 1 <= n < e);
    }
    assert(e == n);
    lemma_no_pattern(s, n);
    assert(Seq::<CaseMessage>::empty().push(CaseMessage::Pattern) =~= seq![CaseMessage::Pattern]);
    lemma_script_of_case(s);
}

/// A `case` statement whose first pattern is plain text not followed by `)`
/// and a newline is rejected after the pattern, explained by the message of
/// the end-parenthesis.
#[verifier::spinoff_prover]
#[verifier::rlimit(100)]
pub proof fn law_case_without_parenthesis(
    b1: char,
    t: Seq<char>,
    b2: char,
    sep: char,
    p: Seq<char>,
    r: Seq<char>,
)
    requires
        blank(b1),
        blank(b2),
        t.len() as int > 0,
        forall|m: int| 0 <= m < t.len() as int ==> arg_text_char(#[trigger] t[m]),
        sep == ';' || sep == '\n',
        p.len() as int > 0,
        !blank(p[0]),
        forall|m: int| 0 <= m < p.len() as int ==> arg_text_char(#[trigger] p[m]),
        r.len() == 0 || ends_argument(r[0]),
    ensures
        script(case_head(b1, t, b2) + seq!['i', 'n', sep] + p + r) == (Outcome::<
            Seq<SpecStatement>,
        >::Failed {
            committed: true,
            at: t.len() as int + 9 + p.len() as int,
            messages: seq![CaseMessage::EndParenthesis],
        }),
{
    let s = case_head(b1, t, b2) + seq!['i', 'n', sep] + p + r;
    let m = t.len() as int + 8;
    let n = m + 1;
    assert(s.subrange(0, t.len() as int + 6) =~= case_head(b1, t, b2));
    lemma_case_head(s, b1, t, b2);
    assert(s.subrange(m - 2, m) =~= kw_in());
    assert(s[m] == sep);
    assert(s[n] == p[0]);
    lemma_scan_bounds(s, n, Class::Blank);
    assert(scan(s, n, Class::Blank) == n);
    assert(s.subrange(n, n + p.len() as int) =~= p);
    if n + (p.len() as int) < s.len() {
        assert(s[n + p.len() as int] == r[0]);
    }
    lemma_pattern_without_parenthesis(s, n, p);
    lemma_script_of_case(s);
}

} // verus!
