use vshell::builtin::history::{history_lines, History};
use vshell::builtin::type_::Type;
use vshell::builtin::{cd_outcome, cd_target};
use vshell::completer::ShellCompleter;
use vshell::history::history_suffix;
use vshell::numbers::{format_u64, parse_i32, parse_i64};
use vshell::reader::{LineStatus, ShellHelper};
use vshell::redirect::{Reader, Writer};
use vshell::utils::vec_str_to_vec_string;

#[test]
fn cd_expands_tilde() {
    assert_eq!(cd_target("~", "/home/me"), "/home/me".to_string());
    assert_eq!(cd_target("~/src", "/home/me"), "/home/me/src".to_string());
    assert_eq!(cd_target("/tmp", "/home/me"), "/tmp".to_string());
    assert_eq!(cd_target("plain", "/home/me"), "plain".to_string());
}

#[test]
fn cd_failure_keeps_code_and_names_the_path() {
    let (code, message) = cd_outcome("/no/such/dir", false);
    assert_eq!(code, -1);
    assert_eq!(
        message,
        Some("cd: /no/such/dir: No such file or directory".to_string())
    );
    let (code, message) = cd_outcome("/tmp", true);
    assert_eq!(code, 0);
    assert_eq!(message, None);
}

#[test]
fn type_reports_builtins_and_unknown_names_in_order() {
    let ty = Type::parse(
        "type",
        &vec_str_to_vec_string(&["echo", "ls_not_a_real_command"]),
    )
    .unwrap();
    let lines = ty.render(&Vec::new());
    assert_eq!(
        lines,
        vec_str_to_vec_string(&[
            "echo is a shell builtin",
            "ls_not_a_real_command: not found"
        ])
    );
}

#[test]
fn type_reports_every_builtin() {
    let ty = Type::parse("type", &vec_str_to_vec_string(&["type", "exit", "cd"])).unwrap();
    let lines = ty.render(&Vec::new());
    assert_eq!(
        lines,
        vec_str_to_vec_string(&[
            "type is a shell builtin",
            "exit is a shell builtin",
            "cd is a shell builtin"
        ])
    );
}

#[test]
fn history_parse_forms() {
    assert_eq!(
        History::parse("history", &Vec::new()).unwrap(),
        History::Show(None)
    );
    assert_eq!(
        History::parse("history", &vec!["3".to_string()]).unwrap(),
        History::Show(Some(3))
    );
    assert_eq!(
        History::parse("history", &vec_str_to_vec_string(&["-r", "f.txt"])).unwrap(),
        History::Read("f.txt".to_string())
    );
    assert_eq!(
        History::parse("history", &vec_str_to_vec_string(&["-w", "f.txt"])).unwrap(),
        History::Write("f.txt".to_string())
    );
    assert_eq!(
        History::parse("history", &vec_str_to_vec_string(&["-a", "f.txt"])).unwrap(),
        History::Append("f.txt".to_string())
    );
    assert!(History::parse("history", &vec_str_to_vec_string(&["-q", "f.txt"])).is_err());
    assert!(History::parse("history", &vec_str_to_vec_string(&["a", "b", "c"])).is_err());
}

#[test]
fn history_lines_align_entry_numbers() {
    let records = vec_str_to_vec_string(&[
        "one", "two", "three", "four", "five", "six", "seven", "eight", "nine", "ten",
    ]);
    let lines = history_lines(&records, 8);
    assert_eq!(
        lines,
        vec_str_to_vec_string(&["    9  nine", "   10  ten"])
    );
}

#[test]
fn history_suffix_appends_only_new_entries() {
    let session = vec_str_to_vec_string(&["a", "b", "c", "d"]);
    let file = vec_str_to_vec_string(&["a", "b"]);
    assert_eq!(history_suffix(&session, &file), "c\nd\n".to_string());
    assert_eq!(history_suffix(&session, &session), "".to_string());
    let diverged = vec_str_to_vec_string(&["a", "x"]);
    assert_eq!(history_suffix(&session, &diverged), "b\nc\nd\n".to_string());
}

#[test]
fn validator_flags_open_quotes_and_brackets() {
    let helper = ShellHelper::new();
    assert_eq!(helper.validate("echo hi"), LineStatus::Valid);
    assert_eq!(helper.validate("echo 'open"), LineStatus::Incomplete);
    assert_eq!(helper.validate("echo \"open"), LineStatus::Incomplete);
    assert_eq!(helper.validate("echo hi\\"), LineStatus::Incomplete);
    assert_eq!(helper.validate("(a b"), LineStatus::Incomplete);
    assert_eq!(helper.validate("'(' unbalanced looks fine"), LineStatus::Valid);
    assert_eq!(
        helper.validate("(]"),
        LineStatus::Invalid("Mismatched brackets: '(' is not properly closed".to_string())
    );
    assert_eq!(
        helper.validate("a)"),
        LineStatus::Invalid("Mismatched brackets: ')' is unpaired".to_string())
    );
}

#[test]
fn test_find_in_path() {
    let dirs = vec_str_to_vec_string(&["/usr/bin", "/usr/local/bin"]);
    assert_eq!(
        vshell::executable::find_in_path("ls", &dirs),
        Some("/usr/bin/ls".to_string())
    );
}

#[test]
fn completer_lists_matching_commands() {
    let mut completer = ShellCompleter::new();
    completer.add_command("echo");
    completer.add_command("exit");
    completer.add_command("pwd");
    let mut found = completer.complete("e");
    found.sort();
    assert_eq!(found, vec_str_to_vec_string(&["echo", "exit"]));
    assert_eq!(completer.complete("zz"), Vec::<String>::new());
}

#[test]
fn added_dirs_reports_only_new_directories() {
    let old = vec_str_to_vec_string(&["/usr/bin", "/bin"]);
    let new = vec_str_to_vec_string(&["/usr/bin", "/opt/tools", "/bin", "/extra"]);
    assert_eq!(
        vshell::completer::added_dirs(&old, &new),
        vec_str_to_vec_string(&["/opt/tools", "/extra"])
    );
    assert_eq!(
        vshell::completer::added_dirs(&old, &old),
        Vec::<String>::new()
    );
}

#[test]
fn elect_appends_a_space_only_for_complete_unique_names() {
    let mut completer = ShellCompleter::new();
    completer.add_command("echo");
    completer.add_command("echos");
    completer.add_command("pwd");
    assert_eq!(completer.elect("pwd"), "pwd ".to_string());
    assert_eq!(completer.elect("echo"), "echo".to_string());
    assert_eq!(completer.elect("ec"), "ec".to_string());
    assert_eq!(completer.elect("zz"), "zz".to_string());
}

#[test]
fn integer_parsing_is_exact() {
    assert_eq!(parse_i64("0"), Some(0));
    assert_eq!(parse_i64("-123"), Some(-123));
    assert_eq!(parse_i64("+42"), Some(42));
    assert_eq!(parse_i64("9223372036854775807"), Some(i64::MAX));
    assert_eq!(parse_i64("-9223372036854775808"), Some(i64::MIN));
    assert_eq!(parse_i64("9223372036854775808"), None);
    assert_eq!(parse_i64(""), None);
    assert_eq!(parse_i64("-"), None);
    assert_eq!(parse_i64("12a"), None);
    assert_eq!(parse_i32("2147483647"), Some(i32::MAX));
    assert_eq!(parse_i32("2147483648"), None);
}

#[test]
fn decimal_formatting_is_exact() {
    assert_eq!(format_u64(0), "0".to_string());
    assert_eq!(format_u64(7), "7".to_string());
    assert_eq!(format_u64(105), "105".to_string());
    assert_eq!(format_u64(u64::MAX), "18446744073709551615".to_string());
}

#[test]
fn stream_descriptions_duplicate_cleanly() {
    let w = Writer::File {
        path: "x".to_string(),
        append: true,
    };
    assert_eq!(w.try_clone().unwrap(), w);
    let r = Reader::Pipe(3);
    assert_eq!(r.try_clone().unwrap(), r);
}
