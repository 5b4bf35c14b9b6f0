use json_comments::scanner::strip_chars;
use json_comments::strip;
use json_comments::StripError;

#[test]
fn identity_on_clean_json() {
    let input = r#"{"a": 1, "b": [true, null], "c": {"d": "e"}}"#;
    assert_eq!(strip(input).unwrap(), input);
}

#[test]
fn identity_on_clean_json_with_whitespace() {
    let input = "{\n  \"a\": 1,\r\n\t\"b\": 2\n}";
    assert_eq!(strip(input).unwrap(), input);
}

#[test]
fn idempotent_on_commented_input() {
    let input = "{\"a\": 1, // note\n\"b\": [1, 2,], /* x */ }";
    let once = strip(input).unwrap();
    let twice = strip(&once).unwrap();
    assert_eq!(twice, once);
}

#[test]
fn string_content_preserved() {
    let input = r#""a // not a comment, right?""#;
    assert_eq!(strip(input).unwrap(), input);
}

#[test]
fn string_content_with_block_opener_and_hash() {
    let input = r#"{"k": "/* not a comment */ # nor this ,"}"#;
    assert_eq!(strip(input).unwrap(), input);
}

#[test]
fn escaped_quote_inside_string() {
    let input = r#"{"a": "x\"y // z"}"#;
    assert_eq!(strip(input).unwrap(), input);
}

#[test]
fn escaped_backslash_before_closing_quote() {
    let input = "\"a\\\\\" // c";
    assert_eq!(strip(input).unwrap(), "\"a\\\\\" ");
}

#[test]
fn line_comment_removed_newline_kept() {
    let input = "{\"a\": 1, // comment\n\"b\": 2}";
    assert_eq!(strip(input).unwrap(), "{\"a\": 1, \n\"b\": 2}");
}

#[test]
fn shell_comment_removed_newline_kept() {
    let input = "{\"a\": 1, # comment\n\"b\": 2}";
    assert_eq!(strip(input).unwrap(), "{\"a\": 1, \n\"b\": 2}");
}

#[test]
fn line_comment_at_end_of_input() {
    assert_eq!(strip("[1] // tail").unwrap(), "[1] ");
    assert_eq!(strip("x #").unwrap(), "x ");
}

#[test]
fn block_comment_removed() {
    let input = "{\"a\": /* inline */ 1}";
    assert_eq!(strip(input).unwrap(), "{\"a\":  1}");
}

#[test]
fn block_comment_multiline() {
    let input = "{\n/* a\nb */\n\"k\": 1\n}";
    assert_eq!(strip(input).unwrap(), "{\n\n\"k\": 1\n}");
}

#[test]
fn block_comment_with_extra_stars() {
    assert_eq!(strip("[1 /** x **/ , 2]").unwrap(), "[1  , 2]");
}

#[test]
fn trailing_comma_removed_object() {
    assert_eq!(strip("{\"a\": 1, \"b\": 2,}").unwrap(), "{\"a\": 1, \"b\": 2}");
}

#[test]
fn trailing_comma_removed_array() {
    assert_eq!(strip("[1, 2, 3,]").unwrap(), "[1, 2, 3]");
}

#[test]
fn trailing_comma_with_intervening_comment() {
    assert_eq!(strip("{\"a\": 1, /* x */ }").unwrap(), "{\"a\": 1  }");
}

#[test]
fn trailing_comma_through_line_comment() {
    assert_eq!(strip("[1, // c\n]").unwrap(), "[1 \n]");
}

#[test]
fn non_trailing_comma_preserved() {
    let input = "[1, 2, 3]";
    assert_eq!(strip(input).unwrap(), input);
}

#[test]
fn comma_at_end_of_input_is_kept() {
    assert_eq!(strip("[1,").unwrap(), "[1,");
}

#[test]
fn double_comma_then_bracket() {
    // the second comma is trailing and dropped; the first becomes trailing
    // only on a second pass
    assert_eq!(strip("[,,]").unwrap(), "[,]");
    assert_eq!(strip("[,]").unwrap(), "[]");
}

#[test]
fn lone_slash_is_ordinary_content() {
    assert_eq!(strip("a/b").unwrap(), "a/b");
    assert_eq!(strip("/").unwrap(), "/");
}

#[test]
fn unterminated_block_comment_error() {
    assert_eq!(
        strip("{\"a\": /* unterminated"),
        Err(StripError::UnterminatedBlockComment)
    );
    assert_eq!(strip("/*"), Err(StripError::UnterminatedBlockComment));
    assert_eq!(strip("/*/"), Err(StripError::UnterminatedBlockComment));
}

#[test]
fn unterminated_string_error() {
    assert_eq!(strip("{\"a\": \"unterminated"), Err(StripError::UnterminatedString));
    assert_eq!(strip("\"ends with escape \\"), Err(StripError::UnterminatedString));
}

#[test]
fn empty_input() {
    assert_eq!(strip("").unwrap(), "");
}

#[test]
fn multibyte_characters_pass_through() {
    let input = "[\"\u{65e5}\u{672c}\", // \u{30b3}\u{30e1}\u{30f3}\u{30c8}\n\"\u{8a9e}\"]";
    assert_eq!(strip(input).unwrap(), "[\"\u{65e5}\u{672c}\", \n\"\u{8a9e}\"]");
}

#[test]
fn error_messages_name_the_defect() {
    let b = StripError::UnterminatedBlockComment;
    let s = StripError::UnterminatedString;
    assert_eq!(b.message(), "unterminated block comment");
    assert_eq!(s.message(), "unterminated string");
}

#[test]
fn strip_chars_mirrors_strip() {
    let input: Vec<char> = "[1, 2,] // c".chars().collect();
    let out = strip_chars(&input).unwrap();
    let expected: Vec<char> = "[1, 2] ".chars().collect();
    assert_eq!(out, expected);
}

#[test]
fn strip_chars_reports_errors() {
    let input: Vec<char> = "\"open".chars().collect();
    assert_eq!(strip_chars(&input), Err(StripError::UnterminatedString));
}
