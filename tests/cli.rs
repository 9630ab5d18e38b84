use altcase::cli::{parse_args, Command, Settings};

fn args(words: &[&str]) -> Vec<String> {
    words.iter().map(|w| w.to_string()).collect()
}

fn run(words: &[&str]) -> Settings {
    match parse_args(&args(words)) {
        Command::Run(settings) => settings,
        _ => panic!("expected settings to run with"),
    }
}

#[test]
fn words_are_joined_by_spaces() {
    let s = run(&["altcase", "convert", "this", "text"]);
    assert_eq!("convert this text", s.input);
    assert!(!s.gui);
    assert!(!s.simple);
}

#[test]
fn options_before_the_text_are_read() {
    let s = run(&["altcase", "--simple", "million"]);
    assert!(s.simple);
    assert!(!s.gui);
    assert_eq!("million", s.input);
    let s = run(&["altcase", "--gui", "a"]);
    assert!(s.gui);
    assert_eq!("a", s.input);
}

#[test]
fn flags_after_the_text_are_flags() {
    let s = run(&["altcase", "hello", "--simple"]);
    assert_eq!("hello", s.input);
    assert!(s.simple);
    let s = run(&["altcase", "convert", "--gui", "this", "--simple", "text"]);
    assert_eq!("convert this text", s.input);
    assert!(s.gui);
    assert!(s.simple);
}

#[test]
fn help_after_the_text_stops_reading() {
    assert!(matches!(parse_args(&args(&["altcase", "word", "--help"])), Command::Help));
    assert!(matches!(parse_args(&args(&["altcase", "word", "--version", "-x"])), Command::Version));
}

#[test]
fn unknown_option_after_the_text_is_refused() {
    match parse_args(&args(&["altcase", "word", "-x", "--help"])) {
        Command::UnknownOption(a) => assert_eq!("-x", a),
        _ => panic!("expected an unknown option"),
    }
}

#[test]
fn help_and_version_stop_reading() {
    assert!(matches!(parse_args(&args(&["altcase", "--help", "-x"])), Command::Help));
    assert!(matches!(parse_args(&args(&["altcase", "--gui", "--version"])), Command::Version));
}

#[test]
fn unknown_option_is_refused() {
    match parse_args(&args(&["altcase", "--simple", "-x", "text"])) {
        Command::UnknownOption(a) => assert_eq!("-x", a),
        _ => panic!("expected an unknown option"),
    }
}

#[test]
fn no_words_give_empty_input() {
    let s = run(&["altcase"]);
    assert_eq!("", s.input);
    let s = run(&[]);
    assert_eq!("", s.input);
    let s = run(&["altcase", "--gui"]);
    assert!(s.gui);
    assert_eq!("", s.input);
}
