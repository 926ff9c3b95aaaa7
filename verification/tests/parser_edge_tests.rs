use woosh::ast::Command;
use woosh::parser::{parse_line, ParseError};

#[test]
fn three_stage_pipeline_keeps_order() {
    let ast = parse_line("a | b | c").unwrap();
    if let Command::Pipeline(commands) = ast {
        assert_eq!(commands.len(), 3);
        assert_eq!(commands[0].program, "a");
        assert_eq!(commands[1].program, "b");
        assert_eq!(commands[2].program, "c");
    } else {
        panic!("Expected Pipeline");
    }
}

#[test]
fn dangling_pipe_is_empty_stage() {
    assert!(matches!(parse_line("ls |"), Err(ParseError::EmptyStage)));
}

#[test]
fn leading_redirection_is_empty_stage() {
    assert!(matches!(parse_line("> out.txt"), Err(ParseError::EmptyStage)));
}

#[test]
fn double_pipe_is_empty_stage() {
    assert!(matches!(parse_line("a | | b"), Err(ParseError::EmptyStage)));
}

#[test]
fn adjacent_quoted_and_bare_runs_concatenate() {
    let ast = parse_line("echo 'a'b").unwrap();
    if let Command::Simple(simple) = ast {
        assert_eq!(simple.args, vec!["ab"]);
    } else {
        panic!("Expected Simple command");
    }
}

#[test]
fn bare_then_quoted_run_concatenates() {
    let ast = parse_line("echo a'b c'").unwrap();
    if let Command::Simple(simple) = ast {
        assert_eq!(simple.args, vec!["ab c"]);
    } else {
        panic!("Expected Simple command");
    }
}

#[test]
fn unterminated_quote_is_rejected() {
    assert!(matches!(parse_line("echo 'oops"), Err(ParseError::UnterminatedQuote)));
}

#[test]
fn missing_redirection_target_is_rejected() {
    assert!(matches!(parse_line("ls >"), Err(ParseError::MissingRedirectionTarget)));
}

#[test]
fn redirection_into_pipe_is_missing_target() {
    assert!(matches!(parse_line("ls > | wc"), Err(ParseError::MissingRedirectionTarget)));
}

#[test]
fn token_after_redirection_is_trailing_input() {
    assert!(matches!(parse_line("ls > out.txt extra"), Err(ParseError::TrailingInput)));
}

#[test]
fn second_redirection_is_trailing_input() {
    assert!(matches!(parse_line("ls > a > b"), Err(ParseError::TrailingInput)));
}

#[test]
fn operators_bind_without_whitespace() {
    let ast = parse_line("a|b>c").unwrap();
    if let Command::Pipeline(commands) = ast {
        assert_eq!(commands.len(), 2);
        assert_eq!(commands[0].program, "a");
        assert_eq!(commands[1].program, "b");
        if let Some(woosh::ast::Redirection::Stdout(file)) = &commands[1].redirection {
            assert_eq!(file, "c");
        } else {
            panic!("Expected stdout redirection");
        }
    } else {
        panic!("Expected Pipeline");
    }
}

#[test]
fn quoted_operators_are_literal() {
    let ast = parse_line("echo 'a|b>c'").unwrap();
    if let Command::Simple(simple) = ast {
        assert_eq!(simple.args, vec!["a|b>c"]);
    } else {
        panic!("Expected Simple command");
    }
}

#[test]
fn interior_redirection_parses_on_non_final_stage() {
    let ast = parse_line("a > mid | b").unwrap();
    if let Command::Pipeline(commands) = ast {
        assert_eq!(commands.len(), 2);
        if let Some(woosh::ast::Redirection::Stdout(file)) = &commands[0].redirection {
            assert_eq!(file, "mid");
        } else {
            panic!("Expected stdout redirection on the first stage");
        }
        assert!(commands[1].redirection.is_none());
    } else {
        panic!("Expected Pipeline");
    }
}
