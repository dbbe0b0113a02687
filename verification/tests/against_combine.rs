//! The shell grammar expressed with the `combine` parser combinators, as an
//! independent reference; the library's parser is compared with it on many inputs.
use combine::easy;
use combine::parser::char::{char, digit, string};
use combine::parser::repeat::take_until;
use combine::{
    attempt, many, many1, none_of, optional, parser, sep_by, EasyParser, Parser, Stream,
    StdParseResult,
};
use lmsh::repl::parser::parse;
use lmsh::repl::tree::{
    Argument, ArgumentPart, Case, Command, Expansion, Function, If, Statement, Substitution,
    Variable,
};

fn comment_block<Input>() -> impl Parser<Input, Output = String>
where
    Input: Stream<Token = char>,
{
    many1(
        char('#')
            .with(take_until(char('\n')))
            .and(char('\n'))
            .map(|(mut left, right): (String, char)| {
                left.push(right);
                left
            }),
    )
    .skip(many::<Vec<_>, _, _>(char('\n')))
}

fn word<Input>() -> impl Parser<Input, Output = String>
where
    Input: Stream<Token = char>,
{
    many1(none_of(vec!['$', '\'', '"', '`', '(', ')', ' ', '\t', ';', '}']))
}

fn function<Input>() -> impl Parser<Input, Output = Function>
where
    Input: Stream<Token = char>,
{
    word()
        .skip(
            many::<Vec<_>, _, _>(char(' '))
                .with(char('('))
                .with(many::<Vec<_>, _, _>(char(' ')))
                .with(char(')'))
                .with(many::<Vec<_>, _, _>(char(' ')))
                .with(char('{'))
                .with(char('\n')),
        )
        .and(statements())
        .skip(char('}').with(char('\n')))
        .map(|(name, statements)| Function { name, statements })
}

fn doublequote<Input>() -> impl Parser<Input, Output = Argument>
where
    Input: Stream<Token = char>,
{
    char('"')
        .with(many(
            many1(none_of(vec!['"', '$', '`']))
                .map(ArgumentPart::Text)
                .or(dollar_expansion().map(ArgumentPart::DollarExpansion)),
        ))
        .skip(char('"'))
}

fn substitution<Input>() -> impl Parser<Input, Output = Substitution>
where
    Input: Stream<Token = char>,
{
    digit()
        .map(|d| Substitution::Variable(String::from(d)))
        .or(char('{')
            .with(word())
            .skip(char('}'))
            .or(word())
            .map(Substitution::Variable))
}

fn dollar_expansion<Input>() -> impl Parser<Input, Output = Expansion>
where
    Input: Stream<Token = char>,
{
    char('$').with(substitution().map(Expansion::Substitution))
}

fn argument<Input>() -> impl Parser<Input, Output = Argument>
where
    Input: Stream<Token = char>,
{
    many(
        many1(none_of(vec!['"', '$', '\'', '\\', '`', ';', '\n', ' ', '\t']))
            .map(ArgumentPart::Text)
            .or(doublequote()
                .map(ArgumentPart::DoubleQuote)
                .or(dollar_expansion().map(ArgumentPart::DollarExpansion))),
    )
}

fn variable<Input>() -> impl Parser<Input, Output = Variable>
where
    Input: Stream<Token = char>,
{
    word()
        .skip(char('='))
        .and(many1(argument()))
        .map(|(name, content)| Variable { name, content })
}

fn command<Input>() -> impl Parser<Input, Output = Command>
where
    Input: Stream<Token = char>,
{
    argument()
        .skip(char(' ').or(char('\t')))
        .and(sep_by(argument(), char(' ').or(char('\t'))))
        .skip(char(';').or(char('\n')))
        .map(|(program, arguments)| Command { program, arguments })
}

fn parse_if<Input>() -> impl Parser<Input, Output = If>
where
    Input: Stream<Token = char>,
{
    string("if")
        .with(char(' ').or(char('\t')))
        .with(command())
        .skip(string("then").with(char('\n')))
        .and(statements())
        .skip(string("fi"))
        .map(|(condition, statements)| If::If { condition, statements, next: None })
}

fn case<Input>() -> impl Parser<Input, Output = Case>
where
    Input: Stream<Token = char>,
{
    string("case")
        .with(char(' ').or(char('\t')))
        .with(argument().message("case requires an argument"))
        .skip(char(' ').or(char('\t')))
        .skip(string("in").message("case requires the in keyword"))
        .skip(
            char(';')
                .or(char('\n'))
                .message("case requires a newline or semicolon after the in keyword"),
        )
        .skip(many::<String, _, _>(char(' ').or(char('\t'))))
        .and(many1(
            argument()
                .message("case requries a pattern to match")
                .skip(char(')').with(char('\n')).message("case requires an end-parenthasis"))
                .and(optional(statements()))
                .skip(
                    many::<String, _, _>(char(' ').or(char('\t').or(char('\n'))))
                        .with(string(";;"))
                        .skip(many::<String, _, _>(char(' ').or(char('\t').or(char('\n'))))),
                ),
        ))
        .skip(string("esac").message("case must be closed with an esac"))
        .map(|(argument, parts)| Case { argument, parts })
}

fn statement<Input>() -> impl Parser<Input, Output = Statement>
where
    Input: Stream<Token = char>,
{
    many::<Vec<_>, _, _>(char(' ')).with(
        comment_block().map(Statement::CommentBlock).or(case().map(Statement::Case).or(
            parse_if().map(Statement::If).or(
                attempt(variable().map(Statement::Variable))
                    .or(function().map(Statement::Function)),
            ),
        )),
    )
}

fn statements_fn<Input>(input: &mut Input) -> StdParseResult<Vec<Statement>, Input>
where
    Input: Stream<Token = char>,
{
    many(statement()).parse_stream(input).into_result()
}

fn statements<Input>() -> impl Parser<Input, Output = Vec<Statement>>
where
    Input: Stream<Token = char>,
{
    parser(statements_fn::<Input>)
}

/// Both parsers on `src`: the same statements and rest, or both reject it.
fn compare(src: &str) {
    let theirs = statements().easy_parse(src);
    let ours = parse(src);
    match (&theirs, &ours) {
        (Ok((t, t_rest)), Ok((o, o_rest))) => {
            assert_eq!(format!("{:?}", t), format!("{:?}", o), "trees differ on {:?}", src);
            assert_eq!(t_rest, o_rest, "rest differs on {:?}", src);
        }
        (Err(t), Err(o)) => {
            assert_eq!(
                t.position.translate_position(src),
                o.translate_position(src),
                "position differs on {:?}",
                src
            );
            let theirs: Vec<String> = t
                .errors
                .iter()
                .filter_map(|e| match e {
                    easy::Error::Message(m) => Some(format!("{}", m)),
                    _ => None,
                })
                .collect();
            let ours: Vec<String> = o.messages.iter().map(|m| m.as_str().to_string()).collect();
            assert_eq!(theirs, ours, "messages differ on {:?}", src);
        }
        _ => panic!(
            "outcomes differ on {:?}: combine {:?}, library {:?}",
            src,
            theirs.is_ok(),
            ours.is_ok()
        ),
    }
}

const SAMPLES: &[&str] = &[
    "",
    "# hello\n# world\n\n)x",
    "f() {\n# body\n}\n",
    "  outer ( ) {\nnested(){\n}\n}\n# end\n",
    "ls\n",
    "a=b\n",
    "if x y;then\nfi",
    "if true;then\nfi\n",
    "if a \"b$c",
    "if a ${b;then\n",
    "case x in\nx)\n;;\nesac\n",
    "# no newline",
    "   ",
    "f() {\n",
    "é\n",
    "inner(){\n}\n",
    "cat(){\n}\n",
    "#\n#\n\n\n}",
    "g(){\n#a\n}\n}",
    "if $1 \"x\";then\n",
    "case $x in;  y)\n",
    "\t",
    "(",
    ")",
    "#",
    "x( ) {\n}\n# c\n",
    "casex\n",
    "case $ in\n",
    "case \"x in\n",
    "case x\n",
    "case x foo\n",
    "case x ix\n",
    "case x in x\n",
    "case x in\n;;\nesac\n",
    "case x in\n",
    "case x in\n  \n",
    "case x in\n$ )\n",
    "case x in\nfoo\n",
    "case x in;\"a\")\n",
    "f() {\ncase x foo\n}\n",
    "case x in\n\"a\n",
    "case x in\n${a )\n",
    "case x in\n'\n",
    "case ${ in\n",
    "case  in\n",
    "case x in",
    "if a b;then\ncase x in\n\tfoo\n",
];

#[test]
fn samples_agree_with_combine() {
    for src in SAMPLES {
        compare(src);
    }
}

#[test]
fn generated_inputs_agree_with_combine() {
    let alphabet: Vec<char> = "#\n (){}$\"`;=\tfixcaesnth1'\\".chars().collect();
    let mut state: u64 = 0x2545_f491_4f6c_dd1d;
    for _ in 0..20000 {
        state = state.wrapping_mul(6364136223846793005).wrapping_add(1442695040888963407);
        let len = ((state >> 33) % 14) as usize;
        let mut src = String::new();
        for _ in 0..len {
            state = state.wrapping_mul(6364136223846793005).wrapping_add(1442695040888963407);
            src.push(alphabet[((state >> 33) as usize) % alphabet.len()]);
        }
        compare(&src);
    }
}

#[test]
fn generated_programs_agree_with_combine() {
    let pieces = [
        "# c\n", "f() {\n", "}\n", "if a b;then\n", "fi", "g (){\n", "#\n\n", "case x in\n",
        "x)\n", ";;\n", "esac\n", " ", "$1", "\"q\"", "${v}", "h() {\n}\n",
    ];
    let mut state: u64 = 7;
    for _ in 0..20000 {
        state = state.wrapping_mul(6364136223846793005).wrapping_add(1442695040888963407);
        let len = ((state >> 33) % 7) as usize;
        let mut src = String::new();
        for _ in 0..len {
            state = state.wrapping_mul(6364136223846793005).wrapping_add(1442695040888963407);
            src.push_str(pieces[((state >> 33) as usize) % pieces.len()]);
        }
        compare(&src);
    }
}

