use interactive::command::Command;
use interactive::shell::{same_text, Action, Error, Shell};

#[test]
fn shell_just_command() {
    let cmd = Command::new(vec!("cmd"));
    let shell = Shell::new(cmd);
    assert_eq!(shell.get_cmd().to_string(), "cmd");
}

#[test]
fn add_opts() {
    let cmd = Command::new(vec!("cmd"));
    let mut shell = Shell::new(cmd);
    shell.handle_line("+ a b cde".to_string());
    assert_eq!(shell.get_cmd().to_string(), "cmd -a -b --cde");
}

#[test]
fn remove_opts() {
    let cmd = Command::new(vec!("cmd", "-a", "-b", "arg", "--cde"));
    let mut shell = Shell::new(cmd);
    shell.handle_line("- b cde".to_string());
    assert_eq!(shell.get_cmd().to_string(), "cmd -a");
}

#[test]
fn add_opt_arg() {
    let cmd = Command::new(vec!("cmd"));
    let mut shell = Shell::new(cmd);
    shell.handle_line("++ opt val".to_string());
    assert_eq!(shell.get_cmd().to_string(), "cmd --opt val");
}

#[test]
fn add_opt_arg_too_few() {
    let cmd = Command::new(vec!("cmd"));
    let mut shell = Shell::new(cmd);
    let res = shell.execute_line("++ opt");
    assert_eq!(res.expect_err("Expected error").to_string(), "Usage: ++ <option> <arg>");
}

#[test]
fn add_opt_arg_too_many() {
    let cmd = Command::new(vec!("cmd"));
    let mut shell = Shell::new(cmd);
    let res = shell.execute_line("++ opt arg arg2");
    assert_eq!(res.expect_err("Expected error").to_string(), "Usage: ++ <option> <arg>");
}

#[test]
fn usage_error_changes_nothing() {
    let mut shell = Shell::new(Command::new(vec!("cmd", "-a")));
    for line in ["++", "++ opt", "++ a b c"] {
        match shell.execute_line(line) {
            Err(Error::Usage(usage)) => assert_eq!(usage, "++ <option> <arg>"),
            other => panic!("{:?}", other),
        }
        assert_eq!(shell.get_cmd().to_string(), "cmd -a");
    }
}

#[test]
fn empty_line_does_nothing() {
    let mut shell = Shell::new(Command::new(vec!("cmd")));
    for line in ["", "   "] {
        let outcome = shell.handle_line(line.to_string());
        assert!(matches!(outcome.result, Ok(Action::Nothing)));
        assert_eq!(outcome.history, None);
    }
    assert_eq!(shell.get_cmd().to_string(), "cmd");
}

#[test]
fn plain_line_asks_for_one_run() {
    let mut shell = Shell::new(Command::new(vec!("cmd", "-a")));
    let outcome = shell.handle_line("status 'two words' -v".to_string());
    match outcome.result {
        Ok(Action::Run(run)) => {
            assert_eq!(run.program, "cmd");
            assert_eq!(run.args, vec!("-a", "status", "two words", "-v"));
        },
        other => panic!("{:?}", other),
    }
    assert_eq!(outcome.history, Some("status 'two words' -v".to_string()));
    assert_eq!(shell.get_cmd().to_string(), "cmd -a");
}

#[test]
fn quoted_empty_token_is_an_argument() {
    let mut shell = Shell::new(Command::new(vec!("cmd")));
    match shell.execute_line("''") {
        Ok(Action::Run(run)) => assert_eq!(run.args, vec!("")),
        other => panic!("{:?}", other),
    }
}

#[test]
fn control_line_gives_the_new_prompt() {
    let mut shell = Shell::new(Command::new(vec!("cmd")));
    match shell.execute_line("+ v 'two words'") {
        Ok(Action::Prompt(prompt)) => assert_eq!(prompt, "> cmd -v '--two words' "),
        other => panic!("{:?}", other),
    }
    match shell.execute_line("- v") {
        Ok(Action::Prompt(prompt)) => assert_eq!(prompt, "> cmd '--two words' "),
        other => panic!("{:?}", other),
    }
    match shell.execute_line("++ n 5") {
        Ok(Action::Prompt(prompt)) => assert_eq!(prompt, "> cmd '--two words' -n 5 "),
        other => panic!("{:?}", other),
    }
}

#[test]
fn control_token_alone() {
    let mut shell = Shell::new(Command::new(vec!("cmd", "-a")));
    for line in ["-", "+"] {
        match shell.execute_line(line) {
            Ok(Action::Prompt(prompt)) => assert_eq!(prompt, "> cmd -a "),
            other => panic!("{:?}", other),
        }
    }
}

#[test]
fn control_token_must_stand_alone() {
    let mut shell = Shell::new(Command::new(vec!("cmd")));
    for line in ["-a", "+a", "+++ a b", "a - b"] {
        assert!(matches!(shell.execute_line(line), Ok(Action::Run(_))));
    }
    assert_eq!(shell.get_cmd().to_string(), "cmd");
}

#[test]
fn prompt_shows_the_command() {
    let shell = Shell::new(Command::new(vec!("cmd")));
    assert_eq!(shell.prompt(), "> cmd ");
    let shell = Shell::new(Command::new(vec!("cmd", "a b")));
    assert_eq!(shell.prompt(), "> cmd 'a b' ");
}

#[test]
fn history_takes_each_line_with_a_token() {
    let mut shell = Shell::new(Command::new(vec!("cmd")));
    assert_eq!(shell.handle_line("one".to_string()).history, Some("one".to_string()));
    assert_eq!(shell.handle_line("+ a".to_string()).history, Some("+ a".to_string()));
    assert_eq!(shell.handle_line("++ a".to_string()).history, Some("++ a".to_string()));
}

#[test]
fn history_skips_a_repeated_line() {
    let mut shell = Shell::new(Command::new(vec!("cmd")));
    assert_eq!(shell.handle_line("one".to_string()).history, Some("one".to_string()));
    assert_eq!(shell.handle_line("one".to_string()).history, None);
    assert_eq!(shell.handle_line("".to_string()).history, None);
    assert_eq!(shell.handle_line("one".to_string()).history, None);
    assert_eq!(shell.handle_line("one ".to_string()).history, Some("one ".to_string()));
    assert_eq!(shell.handle_line("one".to_string()).history, Some("one".to_string()));
}

#[test]
fn add_history_alone() {
    let mut shell = Shell::new(Command::new(vec!("cmd")));
    assert_eq!(shell.add_history("a".to_string()), Some("a".to_string()));
    assert_eq!(shell.add_history("a".to_string()), None);
    assert_eq!(shell.add_history("b".to_string()), Some("b".to_string()));
}

#[test]
fn saving_history_is_off_until_enabled() {
    let mut shell = Shell::new(Command::new(vec!("cmd")));
    assert!(!shell.saves_history());
    shell.enable_save_history();
    assert!(shell.saves_history());
}

#[test]
fn execute_takes_tokens() {
    let mut shell = Shell::new(Command::new(vec!("cmd")));
    assert!(matches!(shell.execute(vec!()), Ok(Action::Nothing)));
    assert!(matches!(shell.execute(vec!("+", "a", "bc")), Ok(Action::Prompt(_))));
    assert_eq!(shell.get_cmd().to_string(), "cmd -a --bc");
    assert!(matches!(shell.execute(vec!("-", "bc", "zz")), Ok(Action::Prompt(_))));
    assert_eq!(shell.get_cmd().to_string(), "cmd -a");
    assert!(matches!(shell.execute(vec!("++", "o")), Err(Error::Usage(_))));
}

#[test]
fn option_lists_by_slice() {
    let mut shell = Shell::new(Command::new(vec!("cmd", "-x")));
    assert!(matches!(shell.add_opts(&["a", "b"]), Ok(Action::Prompt(_))));
    assert!(matches!(shell.remove_opts(&["x", "a"]), Ok(Action::Prompt(_))));
    assert!(matches!(shell.add_opt_arg(&["n", "1"]), Ok(Action::Prompt(_))));
    assert!(matches!(shell.add_opt_arg(&["n"]), Err(Error::Usage(_))));
    assert_eq!(shell.get_cmd().to_string(), "cmd -b -n 1");
}

#[test]
fn texts_compare_by_character() {
    assert!(same_text("", ""));
    assert!(same_text("++", "++"));
    assert!(!same_text("+", "++"));
    assert!(!same_text("++", "+"));
    assert!(!same_text("a", "b"));
    assert!(same_text("é", "é"));
}
