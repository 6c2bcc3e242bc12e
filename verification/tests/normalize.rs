use vshell::quotes::check_quotes;
use vshell::quotes::process_shell_quotes;
use vshell::quotes::QuoteStatus;

#[test]
fn balanced_plain_text() {
    assert_eq!(check_quotes("echo hello"), QuoteStatus::Balanced);
}

#[test]
fn balanced_even_quotes_of_each_kind() {
    // An even number of unescaped quotes of each kind never asks for a
    // continuation line.
    assert_eq!(check_quotes("echo 'a' \"b\" 'c' \"d\""), QuoteStatus::Balanced);
}

#[test]
fn unclosed_single_quote() {
    assert_eq!(check_quotes("echo 'abc"), QuoteStatus::UnclosedSingle);
}

#[test]
fn unclosed_double_quote() {
    assert_eq!(check_quotes("echo \"abc"), QuoteStatus::UnclosedDouble);
}

#[test]
fn escaped_quote_does_not_count() {
    assert_eq!(check_quotes("echo \\\"abc"), QuoteStatus::Balanced);
}

#[test]
fn double_backslash_keeps_quote_unescaped() {
    // Two backslashes escape each other, so the quote is live.
    assert_eq!(check_quotes("echo \\\\\"abc"), QuoteStatus::UnclosedDouble);
}

#[test]
fn single_quote_inside_double_does_not_toggle() {
    assert_eq!(check_quotes("\"it's\""), QuoteStatus::Balanced);
}

#[test]
fn double_quote_inside_single_does_not_toggle() {
    assert_eq!(check_quotes("'say \"hi\" now'"), QuoteStatus::Balanced);
}

#[test]
fn escape_collapse_backslash_double_quote() {
    let toks = process_shell_quotes("a\\\"b");
    assert_eq!(toks, vec![String::from("a\"b")]);
}

#[test]
fn single_quotes_preserve_inner_space() {
    let toks = process_shell_quotes("'a b'");
    assert_eq!(toks, vec![String::from("a b")]);
}

#[test]
fn spaces_split_and_collapse() {
    let toks = process_shell_quotes("echo   hello    world");
    assert_eq!(
        toks,
        vec![String::from("echo"), String::from("hello"), String::from("world")]
    );
}

#[test]
fn double_quoted_region_is_one_token() {
    let toks = process_shell_quotes("echo \"hello  world\"");
    assert_eq!(toks, vec![String::from("echo"), String::from("hello  world")]);
}

#[test]
fn unmatched_quote_stays_literal() {
    let toks = process_shell_quotes("a\"b");
    assert_eq!(toks, vec![String::from("a\"b")]);
}

#[test]
fn other_backslash_sequences_stay_literal() {
    let toks = process_shell_quotes("a\\nb");
    assert_eq!(toks, vec![String::from("a\\nb")]);
}

#[test]
fn escaped_backslash_collapses() {
    let toks = process_shell_quotes("a\\\\b");
    assert_eq!(toks, vec![String::from("a\\b")]);
}

#[test]
fn empty_input_has_no_tokens() {
    let toks = process_shell_quotes("");
    assert!(toks.is_empty());
}

#[test]
fn quoted_and_plain_parts_join_in_one_token() {
    let toks = process_shell_quotes("pre'mid'post");
    assert_eq!(toks, vec![String::from("premidpost")]);
}
