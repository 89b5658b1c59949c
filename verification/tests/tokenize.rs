use vshell::tokenize::tokenize;
use vshell::utils::vec_str_to_vec_string;

#[test]
fn test_parse_native() {
    assert_eq!(
        tokenize("echo shell   hello"),
        vec_str_to_vec_string(&["echo", "shell", "hello"])
    );
}

#[test]
fn test_parse_single_quote() {
    assert_eq!(
        tokenize("echo 'shell   hello'"),
        vec_str_to_vec_string(&["echo", "shell   hello"])
    );
    assert_eq!(
        tokenize("echo 'shell''hello'"),
        vec_str_to_vec_string(&["echo", "shellhello"])
    );
    assert_eq!(
        tokenize("echo shell''hello"),
        vec_str_to_vec_string(&["echo", "shellhello"])
    );
    assert_eq!(
        tokenize("cat '/tmp/file name' '/tmp/file name with spaces'"),
        vec_str_to_vec_string(&["cat", "/tmp/file name", "/tmp/file name with spaces"])
    );
}

#[test]
fn test_parse_native_double_quote() {
    assert_eq!(
        tokenize("echo \"shell   hello\""),
        vec_str_to_vec_string(&["echo", "shell   hello"])
    );
    assert_eq!(
        tokenize("echo \"shell\"\"hello\""),
        vec_str_to_vec_string(&["echo", "shellhello"])
    );
    assert_eq!(
        tokenize("echo shell\"\"hello"),
        vec_str_to_vec_string(&["echo", "shellhello"])
    );
    assert_eq!(
        tokenize("echo \"shell's test\""),
        vec_str_to_vec_string(&["echo", "shell's test"])
    );
    assert_eq!(
        tokenize("cat \"/tmp/file name\" \"/tmp/'file name' with spaces\""),
        vec_str_to_vec_string(&["cat", "/tmp/file name", "/tmp/'file name' with spaces"])
    );
}

#[test]
fn test_parse_backslash() {
    assert_eq!(
        tokenize("echo world\\ \\ \\ \\ \\ \\ script"),
        vec_str_to_vec_string(&["echo", "world      script"])
    );
    assert_eq!(
        tokenize("echo before\\ after"),
        vec_str_to_vec_string(&["echo", "before after"])
    );
    assert_eq!(
        tokenize("echo test\\nexample"),
        vec_str_to_vec_string(&["echo", "testnexample"])
    );
    assert_eq!(
        tokenize("echo hello\\\\world"),
        vec_str_to_vec_string(&["echo", "hello\\world"])
    );
    assert_eq!(
        tokenize("echo \\'hello\\'"),
        vec_str_to_vec_string(&["echo", "'hello'"])
    );
    assert_eq!(
        tokenize("echo \\'\\\"hello world\\\"\\'"),
        vec_str_to_vec_string(&["echo", "'\"hello", "world\"'"])
    );
    assert_eq!(
        tokenize("echo \"/tmp/pig/f\\n56\" \"/tmp/pig/f\\90\" \"/tmp/pig/f'\\'83\""),
        vec_str_to_vec_string(&["echo", "/tmp/pig/f\\n56", "/tmp/pig/f\\90", "/tmp/pig/f'\\'83",])
    );
    assert_eq!(
        tokenize("cat \"/tmp/file\\\\name\" \"/tmp/file\\ name\""),
        vec_str_to_vec_string(&["cat", "/tmp/file\\name", "/tmp/file\\ name"])
    );
}

#[test]
fn tokenize_separators_stand_alone() {
    assert_eq!(tokenize("a|b"), vec_str_to_vec_string(&["a", "|", "b"]));
    assert_eq!(tokenize("a ; b"), vec_str_to_vec_string(&["a", ";", "b"]));
    assert_eq!(tokenize("'a'|b"), vec_str_to_vec_string(&["a", "|", "b"]));
}

#[test]
fn tokenize_round_trip_on_plain_words() {
    let first = tokenize("alpha beta gamma");
    let joined = first.join(" ");
    assert_eq!(tokenize(&joined), first);
}

#[test]
fn tokenize_empty_and_blank() {
    assert_eq!(tokenize(""), Vec::<String>::new());
    assert_eq!(tokenize("   \t "), Vec::<String>::new());
}
