use vshell::command::Command;
use vshell::parser::{extract_redirect, parse_tokens, ParseError};
use vshell::redirect::{Reader, Writer};
use vshell::utils::vec_str_to_vec_string;

fn some3(a: &str, b: &str, c: &str) -> Option<(String, String, String)> {
    Some((a.to_string(), b.to_string(), c.to_string()))
}

#[test]
fn test_extract_redirect() {
    assert_eq!(extract_redirect("1>&2"), some3("1", ">", "2"));
    assert_eq!(extract_redirect("1>"), some3("1", ">", ""));
    assert_eq!(extract_redirect(">&2"), some3("", ">", "2"));
    assert_eq!(extract_redirect(">"), some3("", ">", ""));
    assert_eq!(extract_redirect("2>>&1"), some3("2", ">>", "1"));
    assert_eq!(extract_redirect("2>>&"), None);
    assert_eq!(extract_redirect(">>&"), None);
    assert_eq!(extract_redirect("1>&"), None);
}

#[test]
fn parser_test_extract_redirect() {
    assert_eq!(extract_redirect("1>&2"), some3("1", ">", "2"));
    assert_eq!(extract_redirect("1>"), some3("1", ">", ""));
    assert_eq!(extract_redirect(">&2"), some3("", ">", "2"));
    assert_eq!(extract_redirect(">"), some3("", ">", ""));
    assert_eq!(extract_redirect("2>>&1"), some3("2", ">>", "1"));
    assert_eq!(extract_redirect("2>>&"), None);
    assert_eq!(extract_redirect(">>&"), None);
    assert_eq!(extract_redirect("1>&"), None);
}

#[test]
fn three_stage_pipeline_wiring() {
    let tokens = vec_str_to_vec_string(&["a", "|", "b", "|", "c"]);
    let stages = parse_tokens(&tokens, &Vec::new()).unwrap();
    assert_eq!(stages.len(), 3);

    assert_eq!(stages[0].reader, Reader::Stdin);
    assert_eq!(stages[0].output_writer, Writer::Pipe(0));
    assert!(!stages[0].use_pipe);

    assert_eq!(stages[1].reader, Reader::Pipe(0));
    assert_eq!(stages[1].output_writer, Writer::Pipe(1));
    assert!(!stages[1].use_pipe);

    assert_eq!(stages[2].reader, Reader::Pipe(1));
    assert_eq!(stages[2].output_writer, Writer::Stdout);
    assert!(stages[2].use_pipe);

    for stage in &stages {
        assert_eq!(stage.error_writer, Writer::Stderr);
    }
}

#[test]
fn file_redirect_consumes_the_name_token() {
    let tokens = vec_str_to_vec_string(&["echo", "hi", ">", "out.txt"]);
    let stages = parse_tokens(&tokens, &Vec::new()).unwrap();
    assert_eq!(stages.len(), 1);
    assert_eq!(
        stages[0].output_writer,
        Writer::File {
            path: "out.txt".to_string(),
            append: false
        }
    );
    assert!(stages[0].use_pipe);
}

#[test]
fn append_redirect_on_stderr() {
    let tokens = vec_str_to_vec_string(&["x", "2>>", "log"]);
    let stages = parse_tokens(&tokens, &Vec::new()).unwrap();
    assert_eq!(stages.len(), 1);
    assert_eq!(
        stages[0].error_writer,
        Writer::File {
            path: "log".to_string(),
            append: true
        }
    );
    assert_eq!(stages[0].output_writer, Writer::Stdout);
}

#[test]
fn duplicate_redirect_rebinds_stdout_to_stderr() {
    let tokens = vec_str_to_vec_string(&["x", "1>&2"]);
    let stages = parse_tokens(&tokens, &Vec::new()).unwrap();
    assert_eq!(stages.len(), 1);
    assert_eq!(stages[0].output_writer, Writer::Stderr);
}

#[test]
fn dangling_redirect_is_a_syntax_error() {
    let tokens = vec_str_to_vec_string(&["echo", "hi", ">"]);
    assert_eq!(parse_tokens(&tokens, &Vec::new()), Err(ParseError::Syntax));
}

#[test]
fn unsupported_separators_are_refused() {
    let tokens = vec_str_to_vec_string(&["a", "&&", "b"]);
    assert_eq!(
        parse_tokens(&tokens, &Vec::new()),
        Err(ParseError::Unsupported("&&".to_string()))
    );
    let msg = ParseError::Unsupported("&&".to_string()).message();
    assert_eq!(msg, "unsupported separator: &&".to_string());
}

#[test]
fn builtin_argument_errors_abort_the_parse() {
    let tokens = vec_str_to_vec_string(&["type", ";", "echo", "hi"]);
    assert_eq!(
        parse_tokens(&tokens, &Vec::new()),
        Err(ParseError::Command(
            vshell::command::ParseCommandError::LessArgs("type".to_string(), vec![], 1)
        ))
    );
}

#[test]
fn separator_without_a_command_is_a_syntax_error() {
    let tokens = vec_str_to_vec_string(&["|", "b"]);
    assert_eq!(parse_tokens(&tokens, &Vec::new()), Err(ParseError::Syntax));
}

#[test]
fn semicolon_stages_block_the_read_loop() {
    let tokens = vec_str_to_vec_string(&["a", ";", "b"]);
    let stages = parse_tokens(&tokens, &Vec::new()).unwrap();
    assert_eq!(stages.len(), 2);
    assert!(stages[0].use_pipe);
    assert!(stages[1].use_pipe);
    assert_eq!(stages[1].reader, Reader::Stdin);
}

#[test]
fn pipeline_commands_keep_their_words() {
    let tokens = vec_str_to_vec_string(&["echo", "hi", "|", "nosuchcmd_xyz", "arg"]);
    let stages = parse_tokens(&tokens, &Vec::new()).unwrap();
    assert_eq!(stages.len(), 2);
    match &stages[0].command {
        Command::BuiltinCommand(b) => {
            assert_eq!(
                *b,
                vshell::builtin::BuiltinCommand::Echo("hi".to_string())
            );
        }
        other => panic!("expected a builtin, got {:?}", other),
    }
    match &stages[1].command {
        Command::Unknown(u) => {
            assert_eq!(u.command, "nosuchcmd_xyz".to_string());
            assert_eq!(u.args, vec!["arg".to_string()]);
        }
        other => panic!("expected an unknown command, got {:?}", other),
    }
}

#[test]
fn explicit_redirect_wins_over_the_pipe() {
    let tokens = vec_str_to_vec_string(&["a", ">", "file", "|", "b"]);
    let stages = parse_tokens(&tokens, &Vec::new()).unwrap();
    assert_eq!(stages.len(), 2);
    assert_eq!(
        stages[0].output_writer,
        Writer::File {
            path: "file".to_string(),
            append: false
        }
    );
    assert_eq!(stages[1].reader, Reader::Pipe(0));
}
