//! Mathematical model of the comment/trailing-comma stripper.
//!
//! The scanner walks the input left to right, classifying each position as
//! string-literal content, comment text, a trailing comma, or ordinary
//! content. Ordinary content and string literals are kept verbatim; comments
//! and trailing commas are dropped. The spec functions here define the
//! intended output for every input; the executable scanner is proved to
//! compute exactly this.

use vstd::prelude::*;

verus! {

/// The two ways stripping can fail, both detected at end of input.
#[derive(Clone, Copy, Debug, PartialEq, Eq, Structural)]
pub enum StripError {
    /// A `/*` was opened but no `*/` closed it before the input ended.
    UnterminatedBlockComment,
    /// A `"` was opened but no unescaped `"` closed it before the input ended.
    UnterminatedString,
}

impl StripError {
    /// A short description of the failure, for host-facing error reports.
    pub fn message(&self) -> (m: &'static str)
        ensures
            m@ == (match *self {
                StripError::UnterminatedBlockComment => "unterminated block comment"@,
                StripError::UnterminatedString => "unterminated string"@,
            }),
    {
        match *self {
            StripError::UnterminatedBlockComment => "unterminated block comment",
            StripError::UnterminatedString => "unterminated string",
        }
    }
}

/// The mode the scanner is in at a given position.
#[derive(Clone, Copy, Debug, PartialEq, Eq, Structural)]
pub enum ScanMode {
    /// Ordinary content, outside any string or comment.
    Normal,
    /// Inside a string literal; `escaped` records whether the previous
    /// character was an unconsumed backslash.
    InString { escaped: bool },
    /// Inside a `//` or `#` comment, which runs to the next newline.
    InLineComment,
    /// Inside a `/* ... */` comment.
    InBlockComment,
}

/// The mode of the lookahead that runs after a comma, skipping whitespace
/// and comments to find the next significant character.
#[derive(Clone, Copy, Debug, PartialEq, Eq, Structural)]
pub enum GapMode {
    /// Between tokens: whitespace is skipped, comments are entered.
    Plain,
    /// Inside a line comment during lookahead.
    Line,
    /// Inside a block comment during lookahead.
    Block,
}

/// The whitespace characters of JSON.
pub open spec fn is_json_ws(c: char) -> bool {
    c == ' ' || c == '\t' || c == '\n' || c == '\r'
}

/// Index of the next significant character at or after `i`: the first
/// character that is neither whitespace nor part of a comment. `None` when
/// the input ends first (also when it ends inside an unclosed comment).
pub open spec fn next_significant(s: Seq<char>, i: int, m: GapMode) -> Option<int>
    decreases s.len() - i,
{
    if i < 0 || i >= s.len() {
        None
    } else {
        match m {
            GapMode::Plain => {
                if is_json_ws(s[i]) {
                    next_significant(s, i + 1, GapMode::Plain)
                } else if s[i] == '#' {
                    next_significant(s, i + 1, GapMode::Line)
                } else if s[i] == '/' && i + 1 < s.len() && s[i + 1] == '/' {
                    next_significant(s, i + 2, GapMode::Line)
                } else if s[i] == '/' && i + 1 < s.len() && s[i + 1] == '*' {
                    next_significant(s, i + 2, GapMode::Block)
                } else {
                    Some(i)
                }
            },
            GapMode::Line => {
                if s[i] == '\n' {
                    next_significant(s, i + 1, GapMode::Plain)
                } else {
                    next_significant(s, i + 1, GapMode::Line)
                }
            },
            GapMode::Block => {
                if s[i] == '*' && i + 1 < s.len() && s[i + 1] == '/' {
                    next_significant(s, i + 2, GapMode::Plain)
                } else {
                    next_significant(s, i + 1, GapMode::Block)
                }
            },
        }
    }
}

/// Whether a comma just before position `i` is kept: it is dropped exactly
/// when the next significant character closes an array or object. A comma
/// that no significant character follows is kept.
pub open spec fn comma_kept(s: Seq<char>, i: int) -> bool {
    match next_significant(s, i, GapMode::Plain) {
        Some(j) => s[j] != '}' && s[j] != ']',
        None => true,
    }
}

/// Prefix one kept character onto the output of the rest of the scan.
pub open spec fn prepend(c: char, r: Result<Seq<char>, StripError>) -> Result<
    Seq<char>,
    StripError,
> {
    match r {
        Ok(t) => Ok(seq![c] + t),
        Err(e) => Err(e),
    }
}

/// The full result of a scan, given the characters already emitted and the
/// result of scanning the rest of the input.
pub open spec fn emitted(p: Seq<char>, r: Result<Seq<char>, StripError>) -> Result<
    Seq<char>,
    StripError,
> {
    match r {
        Ok(t) => Ok(p + t),
        Err(e) => Err(e),
    }
}

/// Output of the scan from position `i` in mode `m`: the kept characters of
/// `s[i..]`, or the error the scan ends in.
pub open spec fn strip_from(s: Seq<char>, i: int, m: ScanMode) -> Result<Seq<char>, StripError>
    decreases s.len() - i,
{
    if i < 0 || i >= s.len() {
        match m {
            ScanMode::Normal => Ok(Seq::empty()),
            ScanMode::InLineComment => Ok(Seq::empty()),
            ScanMode::InString { .. } => Err(StripError::UnterminatedString),
            ScanMode::InBlockComment => Err(StripError::UnterminatedBlockComment),
        }
    } else {
        let c = s[i];
        match m {
            ScanMode::Normal => {
                if c == '"' {
                    prepend(c, strip_from(s, i + 1, ScanMode::InString { escaped: false }))
                } else if c == '#' {
                    strip_from(s, i + 1, ScanMode::InLineComment)
                } else if c == '/' && i + 1 < s.len() && s[i + 1] == '/' {
                    strip_from(s, i + 2, ScanMode::InLineComment)
                } else if c == '/' && i + 1 < s.len() && s[i + 1] == '*' {
                    strip_from(s, i + 2, ScanMode::InBlockComment)
                } else if c == ',' {
                    if comma_kept(s, i + 1) {
                        prepend(c, strip_from(s, i + 1, ScanMode::Normal))
                    } else {
                        strip_from(s, i + 1, ScanMode::Normal)
                    }
                } else {
                    prepend(c, strip_from(s, i + 1, ScanMode::Normal))
                }
            },
            ScanMode::InString { escaped } => {
                if escaped {
                    prepend(c, strip_from(s, i + 1, ScanMode::InString { escaped: false }))
                } else if c == '\\' {
                    prepend(c, strip_from(s, i + 1, ScanMode::InString { escaped: true }))
                } else if c == '"' {
                    prepend(c, strip_from(s, i + 1, ScanMode::Normal))
                } else {
                    prepend(c, strip_from(s, i + 1, ScanMode::InString { escaped: false }))
                }
            },
            ScanMode::InLineComment => {
                if c == '\n' {
                    prepend(c, strip_from(s, i + 1, ScanMode::Normal))
                } else {
                    strip_from(s, i + 1, ScanMode::InLineComment)
                }
            },
            ScanMode::InBlockComment => {
                if c == '*' && i + 1 < s.len() && s[i + 1] == '/' {
                    strip_from(s, i + 2, ScanMode::Normal)
                } else {
                    strip_from(s, i + 1, ScanMode::InBlockComment)
                }
            },
        }
    }
}

/// What stripping a whole text yields.
pub open spec fn strip_spec(s: Seq<char>) -> Result<Seq<char>, StripError> {
    strip_from(s, 0, ScanMode::Normal)
}

/// A scan from position `i` in mode `m` that meets no comment opener outside
/// string literals and no trailing comma, closes every string literal, and
/// ends outside any literal. Stripping leaves such a suffix unchanged. Any
/// valid JSON text with no comments and no trailing commas is clean.
pub open spec fn clean_from(s: Seq<char>, i: int, m: ScanMode) -> bool
    decreases s.len() - i,
{
    if i < 0 || i >= s.len() {
        m is Normal
    } else {
        let c = s[i];
        match m {
            ScanMode::Normal => {
                if c == '"' {
                    clean_from(s, i + 1, ScanMode::InString { escaped: false })
                } else if c == '#' {
                    false
                } else if c == '/' && i + 1 < s.len() && (s[i + 1] == '/' || s[i + 1] == '*') {
                    false
                } else if c == ',' {
                    comma_kept(s, i + 1) && clean_from(s, i + 1, ScanMode::Normal)
                } else {
                    clean_from(s, i + 1, ScanMode::Normal)
                }
            },
            ScanMode::InString { escaped } => {
                if escaped {
                    clean_from(s, i + 1, ScanMode::InString { escaped: false })
                } else if c == '\\' {
                    clean_from(s, i + 1, ScanMode::InString { escaped: true })
                } else if c == '"' {
                    clean_from(s, i + 1, ScanMode::Normal)
                } else {
                    clean_from(s, i + 1, ScanMode::InString { escaped: false })
                }
            },
            ScanMode::InLineComment => false,
            ScanMode::InBlockComment => false,
        }
    }
}

/// A whole text on which stripping changes nothing.
pub open spec fn clean(s: Seq<char>) -> bool {
    clean_from(s, 0, ScanMode::Normal)
}

/// Index of the unescaped `"` that closes a string literal whose contents
/// start at `i` (`escaped` says whether the previous character was an
/// unconsumed backslash), or `None` when the input ends first.
pub open spec fn string_close(s: Seq<char>, i: int, escaped: bool) -> Option<int>
    decreases s.len() - i,
{
    if i < 0 || i >= s.len() {
        None
    } else if escaped {
        string_close(s, i + 1, false)
    } else if s[i] == '\\' {
        string_close(s, i + 1, true)
    } else if s[i] == '"' {
        Some(i)
    } else {
        string_close(s, i + 1, false)
    }
}

} // verus!
