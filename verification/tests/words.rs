use shellwords::MismatchedQuotes;
use shellwords::escape;
use shellwords::join;
use shellwords::split;

#[test]
fn nothing_special() {
    assert_eq!(split("a b c d").unwrap(), ["a", "b", "c", "d"]);
}

#[test]
fn quoted_strings() {
    assert_eq!(split("a \"b b\" a").unwrap(), ["a", "b b", "a"]);
}

#[test]
fn escaped_double_quotes() {
    assert_eq!(split("a \"\\\"b\\\" c\" d").unwrap(), ["a", "\"b\" c", "d"]);
}

#[test]
fn escaped_single_quotes() {
    assert_eq!(split("a \"'b' c\" d").unwrap(), ["a", "'b' c", "d"]);
}

#[test]
fn escaped_spaces() {
    assert_eq!(split("a b\\ c d").unwrap(), ["a", "b c", "d"]);
}

#[test]
fn bad_double_quotes() {
    assert_eq!(split("a \"b c d e").unwrap_err(), MismatchedQuotes);
}

#[test]
fn bad_single_quotes() {
    assert_eq!(split("a 'b c d e").unwrap_err(), MismatchedQuotes);
}

#[test]
fn bad_quotes() {
    assert_eq!(split("one '\"\"\"").unwrap_err(), MismatchedQuotes);
}

#[test]
fn trailing_whitespace() {
    assert_eq!(split("a b c d ").unwrap(), ["a", "b", "c", "d"]);
}

#[test]
fn empty_escape() {
    assert_eq!(escape(""), "''");
}

#[test]
fn full_escape() {
    assert_eq!(escape("foo '\"' bar"), "foo\\ \\'\\\"\\'\\ bar");
}

#[test]
fn escape_and_join_whitespace() {
    let empty = "".to_owned();
    let space = " ".to_owned();
    let newline = "\n".to_owned();
    let tab = "\t".to_owned();

    let tokens = vec![
        empty.clone(),
        space.clone(),
        space.clone() + &space,
        newline.clone(),
        newline.clone() + &newline,
        tab.clone(),
        tab.clone() + &tab,
        empty.clone(),
        space + &newline + &tab,
        empty,
    ];

    for token in tokens.iter() {
        assert_eq!(
            vec![token.as_str()],
            split(escape(token.as_str()).as_str()).unwrap()
        );
    }

    let borrowed_tokens: Vec<&str> = tokens.iter().map(|token| &token[..]).collect();
    assert_eq!(
        tokens,
        split(join(borrowed_tokens.as_slice()).as_str()).unwrap()
    );
}

#[test]
fn escape_multibyte() {
    assert_eq!(escape("あい"), "あい");
}

#[test]
fn percent_signs() {
    assert_eq!(split("abc '%foo bar%'").unwrap(), ["abc", "%foo bar%"]);
}

#[test]
fn split_empty() {
    assert_eq!(split("").unwrap(), Vec::<String>::new());
}

#[test]
fn split_whitespace_only() {
    assert_eq!(split("   ").unwrap(), Vec::<String>::new());
}

#[test]
fn pipe_is_ordinary() {
    assert_eq!(split("cat file.txt | less").unwrap(), ["cat", "file.txt", "|", "less"]);
}

#[test]
fn join_escapes_each_word() {
    let args = ["There's", "a", "time", "and", "place", "for", "everything"];
    assert_eq!(join(&args), "There\\'s a time and place for everything");
}

#[test]
fn join_empty_list() {
    assert_eq!(join(&[]), "");
}

#[test]
fn join_keeps_empty_words() {
    assert_eq!(join(&["a", "", "b"]), "a '' b");
    assert_eq!(split("a '' b").unwrap(), ["a", "", "b"]);
}

#[test]
fn escape_round_trips_specials() {
    let word = "a b'\"c\\d$`e";
    assert_eq!(split(escape(word).as_str()).unwrap(), [word]);
}

#[test]
fn escape_prefixes_unsafe_multibyte() {
    assert_eq!(escape("\u{20ac}"), "\\\u{20ac}");
    assert_eq!(split(escape("\u{20ac} あ").as_str()).unwrap(), ["\u{20ac} あ"]);
}

#[test]
fn escape_wraps_newline_in_quotes() {
    assert_eq!(escape("a\nb"), "a'\n'b");
    assert_eq!(split("a'\n'b").unwrap(), ["a\nb"]);
}

#[test]
fn double_quote_keeps_other_backslashes() {
    assert_eq!(split("\"a\\b\"").unwrap(), ["a\\b"]);
    assert_eq!(split("\"a\\$b\"").unwrap(), ["a$b"]);
    assert_eq!(split("\"a\\`b\"").unwrap(), ["a`b"]);
    assert_eq!(split("\"a\\\\b\"").unwrap(), ["a\\b"]);
}

#[test]
fn single_quotes_copy_verbatim() {
    assert_eq!(split("'a\\ b$c\"d'").unwrap(), ["a\\ b$c\"d"]);
}

#[test]
fn adjacent_fragments_form_one_word() {
    assert_eq!(split("a\"b\"c'd'e").unwrap(), ["abcde"]);
}

#[test]
fn unterminated_double_inside_word() {
    assert_eq!(split("x\"y").unwrap_err(), MismatchedQuotes);
}

#[test]
fn error_message_reads_mismatched_quotes() {
    let e = split("'oops").unwrap_err();
    assert_eq!(e.message(), "Mismatched quotes");
}

#[test]
fn double_quote_strips_backslash_before_newline() {
    assert_eq!(split("\"a\\\nb\"").unwrap(), ["a\nb"]);
}

#[test]
fn trailing_backslash_is_dropped() {
    assert_eq!(split("a\\").unwrap(), ["a"]);
    assert_eq!(split("\\").unwrap(), [""]);
}
