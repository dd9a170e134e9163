use shell_core::redirect::{
    deliver, find_operator, parse_operator, parse_redirection, Delivery, Redirected, Redirection,
    RedirectionSpec, Stream, WriteMode,
};

fn args_of(words: &[&str]) -> Vec<String> {
    words.iter().map(|w| w.to_string()).collect()
}

fn to(stream: Stream, mode: WriteMode, target: &str) -> Redirection {
    Redirection::To(RedirectionSpec { stream, mode, target: target.to_string() })
}

#[test]
fn the_six_operators() {
    assert_eq!(parse_operator(">"), Some((Stream::Stdout, WriteMode::Truncate)));
    assert_eq!(parse_operator("1>"), Some((Stream::Stdout, WriteMode::Truncate)));
    assert_eq!(parse_operator(">>"), Some((Stream::Stdout, WriteMode::Append)));
    assert_eq!(parse_operator("1>>"), Some((Stream::Stdout, WriteMode::Append)));
    assert_eq!(parse_operator("2>"), Some((Stream::Stderr, WriteMode::Truncate)));
    assert_eq!(parse_operator("2>>"), Some((Stream::Stderr, WriteMode::Append)));
}

#[test]
fn only_a_whole_token_is_an_operator() {
    for token in ["", "<", ">>>", "3>", "2", "1", "hi>out", ">out", "2>&1", "&>", " >", "|"] {
        assert_eq!(parse_operator(token), None);
    }
}

#[test]
fn the_first_operator_is_found() {
    assert_eq!(find_operator(&args_of(&["a", "b"])), None);
    assert_eq!(find_operator(&args_of(&[])), None);
    assert_eq!(find_operator(&args_of(&[">", "x"])), Some(0));
    assert_eq!(find_operator(&args_of(&["a", "2>>", "x", ">", "y"])), Some(1));
}

#[test]
fn arguments_without_operator_stay_as_they_are() {
    let parsed = parse_redirection(&args_of(&["-l", "/tmp"]));
    assert_eq!(
        parsed,
        Redirected { args: args_of(&["-l", "/tmp"]), redirection: Redirection::Absent }
    );
    let parsed = parse_redirection(&args_of(&[]));
    assert_eq!(parsed, Redirected { args: Vec::new(), redirection: Redirection::Absent });
}

#[test]
fn echo_hi_into_a_file() {
    let parsed = parse_redirection(&args_of(&["hi", ">", "/tmp/out"]));
    assert_eq!(
        parsed,
        Redirected {
            args: args_of(&["hi"]),
            redirection: to(Stream::Stdout, WriteMode::Truncate, "/tmp/out"),
        }
    );
}

#[test]
fn each_operator_gives_its_stream_and_mode() {
    let cases = [
        (">", Stream::Stdout, WriteMode::Truncate),
        ("1>", Stream::Stdout, WriteMode::Truncate),
        (">>", Stream::Stdout, WriteMode::Append),
        ("1>>", Stream::Stdout, WriteMode::Append),
        ("2>", Stream::Stderr, WriteMode::Truncate),
        ("2>>", Stream::Stderr, WriteMode::Append),
    ];
    for (operator, stream, mode) in cases {
        let parsed = parse_redirection(&args_of(&["-a", "b", operator, "log.txt"]));
        assert_eq!(
            parsed,
            Redirected { args: args_of(&["-a", "b"]), redirection: to(stream, mode, "log.txt") }
        );
    }
}

#[test]
fn words_after_the_target_are_dropped() {
    let parsed = parse_redirection(&args_of(&["a", "2>", "err", "b", ">", "out"]));
    assert_eq!(
        parsed,
        Redirected {
            args: args_of(&["a"]),
            redirection: to(Stream::Stderr, WriteMode::Truncate, "err"),
        }
    );
}

#[test]
fn an_operator_may_be_the_first_argument() {
    let parsed = parse_redirection(&args_of(&[">>", "out"]));
    assert_eq!(
        parsed,
        Redirected { args: Vec::new(), redirection: to(Stream::Stdout, WriteMode::Append, "out") }
    );
}

#[test]
fn an_operator_may_be_its_own_target() {
    let parsed = parse_redirection(&args_of(&["a", ">", ">"]));
    assert_eq!(
        parsed,
        Redirected { args: args_of(&["a"]), redirection: to(Stream::Stdout, WriteMode::Truncate, ">") }
    );
}

#[test]
fn an_operator_at_the_end_has_no_target() {
    let parsed = parse_redirection(&args_of(&["a", "b", ">"]));
    assert_eq!(
        parsed,
        Redirected { args: args_of(&["a", "b"]), redirection: Redirection::MissingTarget }
    );
    let parsed = parse_redirection(&args_of(&["2>>"]));
    assert_eq!(parsed, Redirected { args: Vec::new(), redirection: Redirection::MissingTarget });
}

#[test]
fn operator_glued_to_a_word_is_an_argument() {
    let parsed = parse_redirection(&args_of(&["hi>out"]));
    assert_eq!(parsed, Redirected { args: args_of(&["hi>out"]), redirection: Redirection::Absent });
}

#[test]
fn stdout_goes_to_the_file_and_stderr_passes() {
    let delivery = deliver(Stream::Stdout, b"hi\n".to_vec(), b"warning\n".to_vec());
    assert_eq!(
        delivery,
        Delivery { file: b"hi\n".to_vec(), stdout: Vec::new(), stderr: b"warning\n".to_vec() }
    );
}

#[test]
fn stderr_goes_to_the_file_and_stdout_passes() {
    let delivery = deliver(Stream::Stderr, b"hi\n".to_vec(), b"warning\n".to_vec());
    assert_eq!(
        delivery,
        Delivery { file: b"warning\n".to_vec(), stdout: b"hi\n".to_vec(), stderr: Vec::new() }
    );
}
