use interactive::escape::{escape, split_command};

fn test_parse(line: &str, expected: Vec<&str>) {
    let actual: Vec<&str> = split_command(line).collect();
    assert_eq!(actual, expected);
}

#[test]
fn empty() {
    test_parse("", vec!());
}

#[test]
fn just_spaces() {
    test_parse("  ", vec!());
}

#[test]
fn single_string() {
    test_parse("abc", vec!("abc"));
}

#[test]
fn leading_space() {
    test_parse(" abc", vec!("abc"));
}

#[test]
fn trailing_space() {
    test_parse("abc ", vec!("abc"));
}

#[test]
fn two_args() {
    test_parse("abc def", vec!("abc", "def"));
}

#[test]
fn two_args_more_space() {
    test_parse("abc    def", vec!("abc", "def"));
}

#[test]
fn single_quote() {
    test_parse("one 'two three' four", vec!("one", "two three", "four"));
}

#[test]
fn double_quote() {
    test_parse("one \"two three\" four", vec!("one", "two three", "four"));
}

#[test]
fn double_in_single() {
    test_parse("one 'two\"three' four", vec!("one", "two\"three", "four"));
}

#[test]
fn single_in_double() {
    test_parse("one \"two'three\" four", vec!("one", "two'three", "four"));
}

#[test]
fn dangling_single() {
    test_parse("one 'two three", vec!("one", "two three"));
}

#[test]
fn dangling_double() {
    test_parse("one \"two three", vec!("one", "two three"));
}

#[test]
fn adjacent_quotes() {
    test_parse("one'two'\"three\"'four five'", vec!("one", "two", "three", "four five"));
}

fn test_escape(input: &str, expected: &str) {
    let mut s = input.into();
    escape(&mut s);
    assert_eq!(&s, expected);
}

#[test]
fn escape_normal() {
    test_escape("abc", "abc");
}

#[test]
fn escape_space() {
    test_escape("abc def", "'abc def'");
}

#[test]
fn escape_quote() {
    test_escape(r#"abc'def"#, r#"'abc'\''def'"#);
}

#[test]
fn three_spaces() {
    test_parse("   ", vec!());
}

#[test]
fn empty_quotes_are_a_token() {
    test_parse("''", vec!(""));
    test_parse("\"\"", vec!(""));
    test_parse("a '' b", vec!("a", "", "b"));
}

#[test]
fn dangling_quote_at_the_end() {
    test_parse("one '", vec!("one", ""));
    test_parse("one \"", vec!("one", ""));
}

#[test]
fn adjacent_segments_stay_apart() {
    test_parse("one'two'\"three\"", vec!("one", "two", "three"));
    test_parse("'a'b", vec!("a", "b"));
}

#[test]
fn backslash_is_an_ordinary_character() {
    test_parse("a\\ b", vec!("a\\", "b"));
    test_parse("'a\\' b'", vec!("a\\", "b", ""));
}

#[test]
fn only_spaces_separate() {
    test_parse("a\tb", vec!("a\tb"));
    test_parse("a\nb c", vec!("a\nb", "c"));
}

#[test]
fn characters_beyond_ascii() {
    test_parse("é 'ü ö' ñandú", vec!("é", "ü ö", "ñandú"));
    test_parse("日本 \"語 だ\"", vec!("日本", "語 だ"));
}

#[test]
fn tokens_are_pulled_one_at_a_time() {
    let mut split = split_command("one 'two three' four");
    assert_eq!(split.next(), Some("one"));
    assert_eq!(split.next(), Some("two three"));
    assert_eq!(split.next(), Some("four"));
    assert_eq!(split.next(), None);
    assert_eq!(split.next(), None);
}

#[test]
fn collect_takes_what_is_left() {
    let mut split = split_command("a b c");
    assert_eq!(split.next(), Some("a"));
    assert_eq!(split.collect(), vec!("b", "c"));
}

#[test]
fn a_line_without_quotes_is_split_on_runs_of_spaces() {
    let line = "  alpha   beta gamma  ";
    let expected: Vec<&str> = line.split(' ').filter(|piece| !piece.is_empty()).collect();
    assert_eq!(split_command(line).collect(), expected);
    assert_eq!(expected, vec!("alpha", "beta", "gamma"));
}

#[test]
fn escape_empty() {
    test_escape("", "");
}

#[test]
fn escape_space_and_quote() {
    test_escape("it's a", r#"'it'\''s a'"#);
}

#[test]
fn escape_lone_quote() {
    test_escape("'", r#"''\'''"#);
}

#[test]
fn escape_several_quotes() {
    test_escape("a''b", r#"'a'\'''\''b'"#);
}

#[test]
fn escape_leaves_other_characters() {
    test_escape("a\"b", "a\"b");
    test_escape("a\\b", "a\\b");
    test_escape("a\tb", "a\tb");
}

#[test]
fn escape_beyond_ascii() {
    test_escape("é ü", "'é ü'");
}

#[test]
fn escaped_token_with_space_is_read_back() {
    for token in ["two words", " ", "a  b ", "back\\slash here", "a \"b\""] {
        let mut shown = String::from(token);
        escape(&mut shown);
        assert_eq!(split_command(&shown).collect(), vec!(token));
    }
}

#[test]
fn escaped_token_with_quote_is_not_read_back() {
    let mut shown = String::from("a'b");
    escape(&mut shown);
    assert_eq!(shown, r#"'a'\''b'"#);
    assert_eq!(split_command(&shown).collect(), vec!("a", "\\", "", "b", ""));
}

/// Reads `line` one character at a time, with the token that is being
/// collected at hand.
fn tokens_by_automaton(line: &str) -> Vec<String> {
    let mut tokens = Vec::new();
    let mut current = String::new();
    let mut quote: Option<char> = None;
    for c in line.chars() {
        match quote {
            Some(q) if c == q => {
                tokens.push(std::mem::take(&mut current));
                quote = None;
            }
            Some(_) => current.push(c),
            None if c == ' ' || c == '\'' || c == '"' => {
                if !current.is_empty() {
                    tokens.push(std::mem::take(&mut current));
                }
                if c != ' ' {
                    quote = Some(c);
                }
            }
            None => current.push(c),
        }
    }
    if quote.is_some() || !current.is_empty() {
        tokens.push(current);
    }
    tokens
}

fn lines_over(alphabet: &[char], len: usize) -> Vec<String> {
    let mut lines = vec![String::new()];
    for _ in 0..len {
        let mut longer = Vec::new();
        for line in &lines {
            for c in alphabet {
                let mut next = line.clone();
                next.push(*c);
                longer.push(next);
            }
        }
        lines = longer;
    }
    lines
}

#[test]
fn every_short_line_is_read_as_by_an_automaton() {
    for len in 0..=6 {
        for line in lines_over(&['a', ' ', '\'', '"'], len) {
            assert_eq!(split_command(&line).collect(), tokens_by_automaton(&line), "{:?}", line);
        }
    }
}

#[test]
fn every_short_token_with_a_space_is_read_back() {
    for len in 0..=5 {
        for token in lines_over(&['a', ' ', '"', '\\', 'é'], len) {
            if token.contains(' ') {
                let mut shown = token.clone();
                escape(&mut shown);
                assert_eq!(split_command(&shown).collect(), vec!(token.as_str()));
            }
        }
    }
}
