use shell_core::builtins::echo_output;
use shell_core::lexer::{parse_command_line, tokenize};
use shell_core::text::join_words;

fn words(line: &str) -> Vec<String> {
    tokenize(line)
}

#[test]
fn single_quotes_keep_spaces() {
    assert_eq!(words("echo 'hello   world'"), vec!["echo", "hello   world"]);
    assert_eq!(echo_output(&words("echo 'hello   world'")[1..].to_vec()), "hello   world\n");
}

#[test]
fn double_quotes_and_backslashes() {
    let line = "echo \"a\\\"b\" c\\\\d";
    assert_eq!(words(line), vec!["echo", "a\"b", "c\\d"]);
    assert_eq!(echo_output(&words(line)[1..].to_vec()), "a\"b c\\d\n");
}

#[test]
fn empty_line_has_no_words() {
    assert_eq!(words(""), Vec::<String>::new());
}

#[test]
fn spaces_only_have_no_words() {
    assert_eq!(words("      "), Vec::<String>::new());
}

#[test]
fn consecutive_spaces_make_no_empty_word() {
    assert_eq!(words("  ls   -l  /tmp "), vec!["ls", "-l", "/tmp"]);
}

#[test]
fn unmatched_single_quote_closes_at_the_end() {
    assert_eq!(words("echo 'abc def"), vec!["echo", "abc def"]);
    assert_eq!(words("'abc"), vec!["abc"]);
}

#[test]
fn unmatched_double_quote_closes_at_the_end() {
    assert_eq!(words("echo \"abc def"), vec!["echo", "abc def"]);
    assert_eq!(words("ab\"cd ef"), vec!["abcd ef"]);
}

#[test]
fn backslash_at_the_end_is_dropped() {
    assert_eq!(words("echo abc\\"), vec!["echo", "abc"]);
    assert_eq!(words("\\"), Vec::<String>::new());
}

#[test]
fn backslash_outside_quotes_takes_the_next_character() {
    assert_eq!(words("a\\ b"), vec!["a b"]);
    assert_eq!(words("a\\'b"), vec!["a'b"]);
    assert_eq!(words("a\\\\b"), vec!["a\\b"]);
    assert_eq!(words("\\n"), vec!["n"]);
}

#[test]
fn quoted_and_unquoted_parts_join() {
    assert_eq!(words("a\"b\"c"), vec!["abc"]);
    assert_eq!(words("a'b c'd"), vec!["ab cd"]);
    assert_eq!(words("'a'\"b\""), vec!["ab"]);
}

#[test]
fn single_quotes_keep_everything() {
    assert_eq!(words("'a\\b'"), vec!["a\\b"]);
    assert_eq!(words("'a\"b$c`d'"), vec!["a\"b$c`d"]);
    assert_eq!(words("'it\\'s"), vec!["it\\s"]);
}

#[test]
fn double_quotes_escape_four_characters_only() {
    assert_eq!(words("\"a\\\\b\""), vec!["a\\b"]);
    assert_eq!(words("\"a\\\"b\""), vec!["a\"b"]);
    assert_eq!(words("\"\\$HOME\""), vec!["$HOME"]);
    assert_eq!(words("\"\\`ls\\`\""), vec!["`ls`"]);
    assert_eq!(words("\"a\\nb\""), vec!["a\\nb"]);
    assert_eq!(words("\"a\\ b\""), vec!["a\\ b"]);
    assert_eq!(words("\"it's\""), vec!["it's"]);
}

#[test]
fn backslash_at_the_end_inside_double_quotes_stays() {
    assert_eq!(words("\"abc\\"), vec!["abc\\"]);
}

#[test]
fn empty_quotes_make_no_word() {
    assert_eq!(words("echo ''"), vec!["echo"]);
    assert_eq!(words("a \"\" b"), vec!["a", "b"]);
    assert_eq!(words("''a"), vec!["a"]);
}

#[test]
fn only_the_space_separates() {
    assert_eq!(words("a\tb"), vec!["a\tb"]);
    assert_eq!(words("a\nb"), vec!["a\nb"]);
    assert_eq!(words("echo #x"), vec!["echo", "#x"]);
}

#[test]
fn characters_beyond_ascii_pass_through() {
    assert_eq!(words("echo 'héllo wörld' ñ"), vec!["echo", "héllo wörld", "ñ"]);
}

#[test]
fn no_word_is_empty() {
    for line in ["", " ", "a  b", "'' \"\" x", "\\ ", "a ''", "\"\"\"\""] {
        for word in words(line) {
            assert!(!word.is_empty());
        }
    }
}

#[test]
fn joined_words_split_into_the_same_words() {
    for line in ["ls   -l  /tmp", " echo a b c ", "x", "", "cat 'plain' \"words\""] {
        let first = words(line);
        let joined = join_words(&first, " ");
        assert_eq!(words(&joined), first);
    }
    assert_eq!(join_words(&words("ls   -l  /tmp"), " "), "ls -l /tmp");
}

#[test]
fn joined_words_with_a_space_inside_split_differently() {
    let first = words("echo 'a b'");
    assert_eq!(first, vec!["echo", "a b"]);
    assert_eq!(words(&join_words(&first, " ")), vec!["echo", "a", "b"]);
}

#[test]
fn join_words_puts_the_separator_between() {
    assert_eq!(join_words(&Vec::new(), ", "), "");
    assert_eq!(join_words(&vec!["a".to_string()], ", "), "a");
    assert_eq!(join_words(&vec!["a".to_string(), "".to_string(), "b".to_string()], ", "), "a, , b");
}

#[test]
fn command_line_splits_into_program_and_arguments() {
    assert_eq!(
        parse_command_line("echo a 'b c'"),
        Some(("echo".to_string(), vec!["a".to_string(), "b c".to_string()]))
    );
    assert_eq!(parse_command_line("pwd"), Some(("pwd".to_string(), Vec::new())));
}

#[test]
fn command_line_without_words_is_none() {
    assert_eq!(parse_command_line(""), None);
    assert_eq!(parse_command_line("   "), None);
    assert_eq!(parse_command_line("''"), None);
}

#[test]
fn agrees_with_shlex_on_well_formed_lines() {
    for line in [
        "echo 'hello   world'",
        "echo \"a\\\"b\" c\\\\d",
        "ls -l /tmp",
        "  a  b  ",
        "a\"b\"c",
        "a\\ b 'c d' \"e f\"",
        "\"\\$x \\` \\q\"",
        "cat file | wc -l > out",
    ] {
        assert_eq!(Some(words(line)), shlex::split(line));
    }
}

#[test]
fn tolerates_lines_that_shlex_rejects() {
    for (line, expected) in [
        ("echo 'abc", vec!["echo", "abc"]),
        ("echo \"abc", vec!["echo", "abc"]),
        ("echo abc\\", vec!["echo", "abc"]),
    ] {
        assert_eq!(shlex::split(line), None);
        assert_eq!(words(line), expected);
    }
}
