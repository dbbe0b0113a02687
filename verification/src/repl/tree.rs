use vstd::prelude::*;

verus! {

/// A shell function definition: `name() {` followed by its body and `}`.
#[derive(Debug)]
pub struct Function {
    pub name: String,
    pub statements: Vec<Statement>,
}

/// The parameter expansions of the shell language.
#[derive(Debug)]
pub enum Substitution {
    /// `${var}`: the value of `var`.
    Variable(String),
    /// `${var:-word}`: `word` when `var` is null or unset; `var` does not change.
    VariableAElseB(String, String),
    /// `${var:=word}`: when `var` is null or unset, `var` is set to `word`.
    VariableAElseBSet(String, String),
    /// `${var:?message}`: when `var` is null or unset, `message` goes to standard error.
    VariableAElseMessage(String, String),
    /// `${var:+word}`: `word` when `var` is set; `var` does not change.
    NotVariableAElseB(String, String),
}

/// What follows a `$`.
#[derive(Debug)]
pub enum Expansion {
    Statement(Statement),
    Substitution(Substitution),
}

/// The backslash escapes of a string.
#[derive(Debug, Clone, Copy, PartialEq, Eq, Structural)]
pub enum StringEscapes {
    Backslash,
    Alert,
    Backspace,
    SuppressTrailingNewline,
    FormFeed,
    NewLine,
    CarriageReturn,
    HorizontalTab,
    VerticalTab,
}

/// One piece of a word on a command line.
#[derive(Debug)]
pub enum ArgumentPart {
    Text(String),
    Escape(StringEscapes),
    DollarExpansion(Expansion),
    TildeExpansion(Statement),
    DoubleQuote(Argument),
    SingleQuote(Argument),
}

/// A word on a command line, as the sequence of its pieces.
pub type Argument = Vec<ArgumentPart>;

/// `case word in pattern) statements ;; ... esac`
#[derive(Debug)]
pub struct Case {
    pub argument: Argument,
    pub parts: Vec<(Argument, Option<Vec<Statement>>)>,
}

/// A simple command: the program and its arguments.
#[derive(Debug)]
pub struct Command {
    pub program: Argument,
    pub arguments: Vec<Argument>,
}

/// `if condition; then statements fi`, with an optional chain of further branches.
#[derive(Debug)]
pub enum If {
    If { condition: Command, statements: Vec<Statement>, next: Option<Box<If>> },
    Else { statements: Vec<Statement> },
}

/// `name=value`
#[derive(Debug)]
pub struct Variable {
    pub name: String,
    pub content: Vec<Argument>,
}

/// A statement of a shell script.
#[derive(Debug)]
pub enum Statement {
    CommentBlock(String),
    Function(Function),
    Case(Case),
    If(If),
    Command(Command),
    Variable(Variable),
}

// ---------------------------------------------------------------------------
// Mathematical model of the syntax tree: strings become `Seq<char>`, vectors
// become `Seq`.
pub struct SpecFunction {
    pub name: Seq<char>,
    pub statements: Seq<SpecStatement>,
}

pub enum SpecSubstitution {
    Variable(Seq<char>),
    VariableAElseB(Seq<char>, Seq<char>),
    VariableAElseBSet(Seq<char>, Seq<char>),
    VariableAElseMessage(Seq<char>, Seq<char>),
    NotVariableAElseB(Seq<char>, Seq<char>),
}

pub enum SpecExpansion {
    Statement(Box<SpecStatement>),
    Substitution(SpecSubstitution),
}

pub enum SpecArgumentPart {
    Text(Seq<char>),
    Escape(StringEscapes),
    DollarExpansion(SpecExpansion),
    TildeExpansion(Box<SpecStatement>),
    DoubleQuote(Seq<SpecArgumentPart>),
    SingleQuote(Seq<SpecArgumentPart>),
}

pub struct SpecCase {
    pub argument: Seq<SpecArgumentPart>,
    pub parts: Seq<(Seq<SpecArgumentPart>, Option<Seq<SpecStatement>>)>,
}

pub struct SpecCommand {
    pub program: Seq<SpecArgumentPart>,
    pub arguments: Seq<Seq<SpecArgumentPart>>,
}

pub enum SpecIf {
    If { condition: SpecCommand, statements: Seq<SpecStatement>, next: Option<Box<SpecIf>> },
    Else { statements: Seq<SpecStatement> },
}

pub struct SpecVariable {
    pub name: Seq<char>,
    pub content: Seq<Seq<SpecArgumentPart>>,
}

pub enum SpecStatement {
    CommentBlock(Seq<char>),
    Function(SpecFunction),
    Case(SpecCase),
    If(SpecIf),
    Command(SpecCommand),
    Variable(SpecVariable),
}

pub open spec fn substitution_view(s: Substitution) -> SpecSubstitution {
    match s {
        Substitution::Variable(a) => SpecSubstitution::Variable(a@),
        Substitution::VariableAElseB(a, b) => SpecSubstitution::VariableAElseB(a@, b@),
        Substitution::VariableAElseBSet(a, b) => SpecSubstitution::VariableAElseBSet(a@, b@),
        Substitution::VariableAElseMessage(a, b) => SpecSubstitution::VariableAElseMessage(
            a@,
            b@,
        ),
        Substitution::NotVariableAElseB(a, b) => SpecSubstitution::NotVariableAElseB(a@, b@),
    }
}

pub open spec fn expansion_view(e: Expansion) -> SpecExpansion
    decreases e,
{
    match e {
        Expansion::Statement(s) => SpecExpansion::Statement(Box::new(statement_view(s))),
        Expansion::Substitution(s) => SpecExpansion::Substitution(substitution_view(s)),
    }
}

pub open spec fn part_view(p: ArgumentPart) -> SpecArgumentPart
    decreases p,
{
    match p {
        ArgumentPart::Text(t) => SpecArgumentPart::Text(t@),
        ArgumentPart::Escape(e) => SpecArgumentPart::Escape(e),
        ArgumentPart::DollarExpansion(e) => SpecArgumentPart::DollarExpansion(expansion_view(e)),
        ArgumentPart::TildeExpansion(s) => SpecArgumentPart::TildeExpansion(
            Box::new(statement_view(s)),
        ),
        ArgumentPart::DoubleQuote(a) => SpecArgumentPart::DoubleQuote(argument_view(a@)),
        ArgumentPart::SingleQuote(a) => SpecArgumentPart::SingleQuote(argument_view(a@)),
    }
}

/// The model of an argument (the sequence of its pieces).
pub open spec fn argument_view(a: Seq<ArgumentPart>) -> Seq<SpecArgumentPart>
    decreases a,
{
    if a.len() == 0 {
        Seq::empty()
    } else {
        argument_view(a.subrange(0, a.len() - 1)).push(part_view(a[a.len() - 1]))
    }
}

pub open spec fn arguments_view(v: Seq<Argument>) -> Seq<Seq<SpecArgumentPart>>
    decreases v,
{
    if v.len() == 0 {
        Seq::empty()
    } else {
        arguments_view(v.subrange(0, v.len() - 1)).push(argument_view(v[v.len() - 1]@))
    }
}

pub open spec fn case_part_view(p: (Argument, Option<Vec<Statement>>)) -> (
    Seq<SpecArgumentPart>,
    Option<Seq<SpecStatement>>,
)
    decreases p,
{
    (
        argument_view(p.0@),
        match p.1 {
            Some(body) => Some(statements_view(body@)),
            None => None,
        },
    )
}

pub open spec fn case_parts_view(v: Seq<(Argument, Option<Vec<Statement>>)>) -> Seq<
    (Seq<SpecArgumentPart>, Option<Seq<SpecStatement>>),
>
    decreases v,
{
    if v.len() == 0 {
        Seq::empty()
    } else {
        case_parts_view(v.subrange(0, v.len() - 1)).push(case_part_view(v[v.len() - 1]))
    }
}

pub open spec fn command_view(c: Command) -> SpecCommand
    decreases c,
{
    SpecCommand { program: argument_view(c.program@), arguments: arguments_view(c.arguments@) }
}

pub open spec fn if_view(i: If) -> SpecIf
    decreases i,
{
    match i {
        If::If { condition, statements, next } => SpecIf::If {
            condition: command_view(condition),
            statements: statements_view(statements@),
            next: match next {
                Some(b) => Some(Box::new(if_view(*b))),
                None => None,
            },
        },
        If::Else { statements } => SpecIf::Else { statements: statements_view(statements@) },
    }
}

pub open spec fn statement_view(s: Statement) -> SpecStatement
    decreases s,
{
    match s {
        Statement::CommentBlock(c) => SpecStatement::CommentBlock(c@),
        Statement::Function(f) => SpecStatement::Function(
            SpecFunction { name: f.name@, statements: statements_view(f.statements@) },
        ),
        Statement::Case(c) => SpecStatement::Case(
            SpecCase { argument: argument_view(c.argument@), parts: case_parts_view(c.parts@) },
        ),
        Statement::If(i) => SpecStatement::If(if_view(i)),
        Statement::Command(c) => SpecStatement::Command(command_view(c)),
        Statement::Variable(v) => SpecStatement::Variable(
            SpecVariable { name: v.name@, content: arguments_view(v.content@) },
        ),
    }
}

/// The model of a sequence of statements.
pub open spec fn statements_view(v: Seq<Statement>) -> Seq<SpecStatement>
    decreases v,
{
    if v.len() == 0 {
        Seq::empty()
    } else {
        statements_view(v.subrange(0, v.len() - 1)).push(statement_view(v[v.len() - 1]))
    }
}

impl View for Statement {
    type V = SpecStatement;

    open spec fn view(&self) -> SpecStatement {
        statement_view(*self)
    }
}

impl View for ArgumentPart {
    type V = SpecArgumentPart;

    open spec fn view(&self) -> SpecArgumentPart {
        part_view(*self)
    }
}

impl View for Command {
    type V = SpecCommand;

    open spec fn view(&self) -> SpecCommand {
        command_view(*self)
    }
}

impl View for If {
    type V = SpecIf;

    open spec fn view(&self) -> SpecIf {
        if_view(*self)
    }
}

impl View for Substitution {
    type V = SpecSubstitution;

    open spec fn view(&self) -> SpecSubstitution {
        substitution_view(*self)
    }
}

impl View for Expansion {
    type V = SpecExpansion;

    open spec fn view(&self) -> SpecExpansion {
        expansion_view(*self)
    }
}

pub proof fn lemma_statements_view_push(v: Seq<Statement>, s: Statement)
    ensures
        statements_view(v.push(s)) == statements_view(v).push(statement_view(s)),
{
    assert(v.push(s).subrange(0, v.len() as int) =~= v);
}

pub proof fn lemma_argument_view_push(v: Seq<ArgumentPart>, p: ArgumentPart)
    ensures
        argument_view(v.push(p)) == argument_view(v).push(part_view(p)),
{
    assert(v.push(p).subrange(0, v.len() as int) =~= v);
}

pub proof fn lemma_arguments_view_push(v: Seq<Argument>, a: Argument)
    ensures
        arguments_view(v.push(a)) == arguments_view(v).push(argument_view(a@)),
{
    assert(v.push(a).subrange(0, v.len() as int) =~= v);
}

pub proof fn lemma_case_parts_view_push(
    v: Seq<(Argument, Option<Vec<Statement>>)>,
    p: (Argument, Option<Vec<Statement>>),
)
    ensures
        case_parts_view(v.push(p)) == case_parts_view(v).push(case_part_view(p)),
{
    assert(v.push(p).subrange(0, v.len() as int) =~= v);
}

} // verus!
