use vshell::builtin::{echo_output, BuiltinCommand};
use vshell::command::ParseCommandError;
use vshell::utils::vec_str_to_vec_string;

#[test]
fn test_parse_echo() {
    assert_eq!(
        BuiltinCommand::parse("echo", &Vec::new()).unwrap(),
        BuiltinCommand::Echo("\n".to_string())
    );
    assert_eq!(
        BuiltinCommand::parse(
            "echo",
            &vec!["abc".to_string(), "".to_string(), "123".to_string()]
        )
        .unwrap(),
        BuiltinCommand::Echo("abc  123".to_string())
    );
}

#[test]
fn test_parse_type_error() {
    assert_eq!(
        BuiltinCommand::parse("type", &Vec::new()).unwrap_err(),
        ParseCommandError::LessArgs("type".to_string(), vec![], 1)
    );
}

#[test]
fn test_parse_exit() {
    assert_eq!(
        BuiltinCommand::parse("exit", &Vec::new()).unwrap(),
        BuiltinCommand::Exit(0)
    );
    assert_eq!(
        BuiltinCommand::parse("exit", &vec!["123".to_string()]).unwrap(),
        BuiltinCommand::Exit(123)
    );
}

#[test]
fn mod_test_parse_echo() {
    assert_eq!(
        BuiltinCommand::parse("echo", &Vec::new()).unwrap(),
        BuiltinCommand::Echo("\n".to_string())
    );
    assert_eq!(
        BuiltinCommand::parse("echo", &vec_str_to_vec_string(&["abc", "", "123"])).unwrap(),
        BuiltinCommand::Echo("abc  123".to_string())
    );
}

#[test]
fn mod_test_parse_type_error() {
    assert_eq!(
        BuiltinCommand::parse("type", &Vec::new()).unwrap_err(),
        ParseCommandError::LessArgs("type".to_string(), vec![], 1)
    );
}

#[test]
fn mod_test_parse_exit() {
    assert_eq!(
        BuiltinCommand::parse("exit", &Vec::new()).unwrap(),
        BuiltinCommand::Exit(0)
    );
    assert_eq!(
        BuiltinCommand::parse("exit", &vec!["123".to_string()]).unwrap(),
        BuiltinCommand::Exit(123)
    );
}

#[test]
fn echo_with_no_arguments_is_one_newline() {
    assert_eq!(echo_output(&Vec::new()), "\n".to_string());
}

#[test]
fn echo_keeps_empty_arguments_as_double_spaces() {
    assert_eq!(
        echo_output(&vec_str_to_vec_string(&["a", "", "b"])),
        "a  b\n".to_string()
    );
}

#[test]
fn parse_history_forms() {
    assert_eq!(
        BuiltinCommand::parse("history", &Vec::new()).unwrap(),
        BuiltinCommand::History(-1)
    );
    assert_eq!(
        BuiltinCommand::parse("history", &vec!["5".to_string()]).unwrap(),
        BuiltinCommand::History(5)
    );
    assert_eq!(
        BuiltinCommand::parse("history", &vec!["x".to_string()]).unwrap_err(),
        ParseCommandError::InvalidNumber("history".to_string(), vec!["x".to_string()])
    );
}

#[test]
fn parse_pwd_rejects_arguments() {
    assert_eq!(
        BuiltinCommand::parse("pwd", &Vec::new()).unwrap(),
        BuiltinCommand::Pwd
    );
    assert_eq!(
        BuiltinCommand::parse("pwd", &vec!["x".to_string()]).unwrap_err(),
        ParseCommandError::MoreArgs("pwd".to_string(), vec!["x".to_string()], 0)
    );
}

#[test]
fn parse_cd_defaults_to_home() {
    assert_eq!(
        BuiltinCommand::parse("cd", &Vec::new()).unwrap(),
        BuiltinCommand::Cd("~".to_string())
    );
    assert_eq!(
        BuiltinCommand::parse("cd", &vec!["/tmp".to_string()]).unwrap(),
        BuiltinCommand::Cd("/tmp".to_string())
    );
    assert_eq!(
        BuiltinCommand::parse("cd", &vec_str_to_vec_string(&["a", "b"])).unwrap_err(),
        ParseCommandError::MoreArgs("cd".to_string(), vec_str_to_vec_string(&["a", "b"]), 1)
    );
}

#[test]
fn parse_exit_rejects_bad_numbers() {
    assert_eq!(
        BuiltinCommand::parse("exit", &vec!["many".to_string()]).unwrap_err(),
        ParseCommandError::InvalidNumber("exit".to_string(), vec!["many".to_string()])
    );
}
