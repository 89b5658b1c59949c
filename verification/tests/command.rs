use vshell::builtin::BuiltinCommand;
use vshell::command::{Command, ParseCommandError, UnknownCommand};

#[test]
fn test_parse_empty() {
    assert!(matches!(
        Command::parse("", &Vec::new(), &Vec::new()),
        Ok(Command::Empty)
    ));
}

#[test]
fn test_parse_unknown() {
    assert_eq!(
        Command::parse(
            "invalid_command",
            &vec!["invalid".to_string(), "args".to_string()],
            &Vec::new()
        )
        .unwrap(),
        Command::Unknown(UnknownCommand::new(
            "invalid_command".to_string(),
            vec!["invalid".to_string(), "args".to_string()]
        ))
    );
}

#[test]
fn command_test_parse_exit() {
    assert_eq!(
        Command::parse("exit", &Vec::new(), &Vec::new()).unwrap(),
        Command::BuiltinCommand(BuiltinCommand::Exit(0))
    );
    assert_eq!(
        Command::parse("exit", &vec!["123".to_string()], &Vec::new()).unwrap(),
        Command::BuiltinCommand(BuiltinCommand::Exit(123))
    );
}

#[test]
fn unknown_commands_report_not_found() {
    assert_eq!(
        vshell::command::not_found_message("nosuch"),
        "nosuch: command not found".to_string()
    );
}

#[test]
fn parse_error_messages() {
    assert_eq!(
        ParseCommandError::LessArgs("type".to_string(), vec![], 1).message(),
        "type: not enough arguments".to_string()
    );
    assert_eq!(
        ParseCommandError::MoreArgs("pwd".to_string(), vec![], 0).message(),
        "pwd: too many arguments".to_string()
    );
    assert_eq!(
        ParseCommandError::InvalidNumber("exit".to_string(), vec![]).message(),
        "exit: invalid number".to_string()
    );
    assert_eq!(
        ParseCommandError::UnknownFlag("-q".to_string()).message(),
        "unknown parameter: -q".to_string()
    );
}
