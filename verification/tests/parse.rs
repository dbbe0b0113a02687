use lmsh::repl::grammar::CaseMessage;
use lmsh::repl::parser::{parse, ParseError};
use lmsh::repl::tree::Statement;
use lmsh::repl::{eval, evaluation_outcome, syntax_error_message, Evaluation, ReplError};

#[test]
fn empty_script_has_no_statements() {
    let (tree, rest) = parse("").unwrap();
    assert!(tree.is_empty());
    assert_eq!(rest, "");
}

#[test]
fn comment_block_keeps_its_lines() {
    let (tree, rest) = parse("# hello\n# world\n\n)x").unwrap();
    assert_eq!(tree.len(), 1);
    match &tree[0] {
        Statement::CommentBlock(text) => assert_eq!(text, " hello\n world\n"),
        other => panic!("unexpected statement {:?}", other),
    }
    assert_eq!(rest, ")x");
}

#[test]
fn function_with_a_comment_body() {
    let (tree, rest) = parse("f() {\n# body\n}\n").unwrap();
    assert_eq!(tree.len(), 1);
    match &tree[0] {
        Statement::Function(f) => {
            assert_eq!(f.name, "f");
            assert_eq!(f.statements.len(), 1);
            assert!(matches!(&f.statements[0], Statement::CommentBlock(t) if t == " body\n"));
        }
        other => panic!("unexpected statement {:?}", other),
    }
    assert_eq!(rest, "");
}

#[test]
fn nested_functions_and_spaces() {
    let (tree, rest) = parse("  outer ( ) {\nnested(){\n}\n}\n# end\n").unwrap();
    assert_eq!(tree.len(), 2);
    match &tree[0] {
        Statement::Function(f) => {
            assert_eq!(f.name, "outer");
            assert_eq!(f.statements.len(), 1);
            match &f.statements[0] {
                Statement::Function(g) => {
                    assert_eq!(g.name, "nested");
                    assert!(g.statements.is_empty());
                }
                other => panic!("unexpected statement {:?}", other),
            }
        }
        other => panic!("unexpected statement {:?}", other),
    }
    assert!(matches!(&tree[1], Statement::CommentBlock(t) if t == " end\n"));
    assert_eq!(rest, "");
}

#[test]
fn plain_command_is_rejected_where_the_word_ends() {
    assert_eq!(parse("ls\n").unwrap_err(), ParseError { position: 3, messages: vec![] });
}

#[test]
fn assignment_is_not_a_statement() {
    // the word takes the `=` and the rest of the line
    assert_eq!(parse("a=b\n").unwrap_err(), ParseError { position: 4, messages: vec![] });
}

#[test]
fn if_statement_cannot_reach_fi() {
    assert_eq!(parse("if x y;then\nfi").unwrap_err(), ParseError { position: 14, messages: vec![] });
}

#[test]
fn if_needs_a_blank_after_the_program() {
    assert_eq!(parse("if true;then\nfi\n").unwrap_err(), ParseError { position: 7, messages: vec![] });
}

#[test]
fn unterminated_double_quote_in_a_condition() {
    assert_eq!(parse("if a \"b$c").unwrap_err(), ParseError { position: 9, messages: vec![] });
}

#[test]
fn expansion_needs_a_closing_brace() {
    assert_eq!(parse("if a ${b;then\n").unwrap_err(), ParseError { position: 8, messages: vec![] });
}

#[test]
fn words_that_start_like_a_keyword_are_rejected() {
    // `if` matches its first letter, then fails after consuming it
    assert_eq!(parse("inner(){\n}\n").unwrap_err(), ParseError { position: 0, messages: vec![] });
    assert_eq!(parse("cat(){\n}\n").unwrap_err(), ParseError { position: 0, messages: vec![] });
}

#[test]
fn case_statement_is_rejected() {
    // the pattern takes the `)`
    assert_eq!(
        parse("case x in\nx)\n;;\nesac\n").unwrap_err(),
        ParseError { position: 12, messages: vec![CaseMessage::EndParenthesis] }
    );
}

#[test]
fn comment_without_newline_is_rejected() {
    assert_eq!(parse("# no newline").unwrap_err(), ParseError { position: 12, messages: vec![] });
}

#[test]
fn spaces_alone_are_rejected() {
    assert_eq!(parse("   ").unwrap_err(), ParseError { position: 3, messages: vec![] });
}

#[test]
fn unclosed_function_body() {
    assert_eq!(parse("f() {\n").unwrap_err(), ParseError { position: 6, messages: vec![] });
}

#[test]
fn error_position_in_bytes() {
    let src = "é\n";
    let err = parse(src).unwrap_err();
    assert_eq!(err, ParseError { position: 2, messages: vec![] });
    assert_eq!(err.translate_position(src), 3);
    assert_eq!(ParseError { position: 1, messages: vec![] }.translate_position(src), 2);
    assert_eq!(ParseError { position: 9, messages: vec![] }.translate_position("a€"), 4);
}

#[test]
fn eval_reports_a_syntax_error_in_bytes() {
    let src = "ü\n";
    match eval(parse(src), src) {
        Evaluation::SyntaxError { offset, position, messages } => {
            assert_eq!(position, 2);
            assert_eq!(offset, 3);
            assert!(messages.is_empty());
        }
        other => panic!("unexpected evaluation {:?}", other),
    }
}

#[test]
fn eval_runs_parsed_statements() {
    let src = "# c\n)";
    match eval(parse(src), src) {
        Evaluation::Run { statements, rest } => {
            assert_eq!(statements.len(), 1);
            assert_eq!(rest, ")");
        }
        other => panic!("unexpected evaluation {:?}", other),
    }
}

#[test]
fn case_without_in_keyword() {
    let err = parse("case x foo\n").unwrap_err();
    assert_eq!(err.position, 7);
    assert_eq!(err.messages, vec![CaseMessage::InKeyword]);
    assert_eq!(err.messages[0].as_str(), "case requires the in keyword");
}

#[test]
fn case_messages_for_each_part() {
    let first = |src: &str| parse(src).unwrap_err().messages;
    assert_eq!(first("case $ in\n"), vec![CaseMessage::Argument]);
    assert_eq!(first("case x in x\n"), vec![CaseMessage::Separator]);
    assert_eq!(first("case x in\n;;\nesac\n"), vec![CaseMessage::Pattern]);
    assert_eq!(first("case x in\n\"a\n"), vec![CaseMessage::Pattern]);
    assert_eq!(first("case x in\nfoo\n"), vec![CaseMessage::EndParenthesis]);
    assert_eq!(first("case x\n"), vec![]);
    assert_eq!(first("f() {\ncase x foo\n}\n"), vec![CaseMessage::InKeyword]);
}

#[test]
fn message_texts() {
    assert_eq!(CaseMessage::Argument.as_str(), "case requires an argument");
    assert_eq!(
        CaseMessage::Separator.as_str(),
        "case requires a newline or semicolon after the in keyword"
    );
    assert_eq!(CaseMessage::Pattern.as_str(), "case requries a pattern to match");
    assert_eq!(CaseMessage::EndParenthesis.as_str(), "case requires an end-parenthasis");
    assert_eq!(CaseMessage::Esac.as_str(), "case must be closed with an esac");
}

#[test]
fn syntax_error_report() {
    assert_eq!(syntax_error_message(0, &vec![]), "syntax error at byte 0");
    assert_eq!(
        syntax_error_message(
            12,
            &vec![CaseMessage::InKeyword, CaseMessage::Esac]
        ),
        "syntax error at byte 12: case requires the in keyword: case must be closed with an esac"
    );
}

#[test]
fn file_outcome_of_a_syntax_error() {
    let src = "case x foo\n";
    let e = eval(parse(src), src);
    match evaluation_outcome(&e) {
        Err(ReplError::SyntaxError(m)) => {
            assert_eq!(m, "syntax error at byte 7: case requires the in keyword")
        }
        _ => panic!("a syntax error is reported"),
    }
    let ok = "# c\n";
    assert!(evaluation_outcome(&eval(parse(ok), ok)).is_ok());
}
