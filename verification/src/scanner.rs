//! The executable scanner, proved to compute exactly what
//! [`crate::model::strip_spec`] describes.

use vstd::prelude::*;
use vstd::string::StrSliceExecFns;
use crate::model::{
    comma_kept, emitted, next_significant, prepend, strip_from, strip_spec, GapMode, ScanMode,
    StripError,
};

verus! {

proof fn lemma_emitted_push(p: Seq<char>, c: char, r: Result<Seq<char>, StripError>)
    ensures
        emitted(p, prepend(c, r)) == emitted(p.push(c), r),
{
    match r {
        Ok(t) => {
            assert(p + (seq![c] + t) =~= p.push(c) + t);
        },
        Err(_) => {},
    }
}

/// The lookahead run after a comma: the index of the next character at or
/// after `start` that is neither whitespace nor part of a comment, or `None`
/// when the input ends first.
fn next_significant_from(input: &Vec<char>, start: usize) -> (r: Option<usize>)
    requires
        start <= input.len(),
    ensures
        match r {
            Some(j) => start <= j < input.len() && next_significant(
                input@,
                start as int,
                GapMode::Plain,
            ) == Some(j as int),
            None => next_significant(input@, start as int, GapMode::Plain) is None,
        },
{
    let mut j: usize = start;
    let mut g: GapMode = GapMode::Plain;
    while j < input.len()
        invariant
            start <= j <= input.len(),
            next_significant(input@, start as int, GapMode::Plain) == next_significant(
                input@,
                j as int,
                g,
            ),
        decreases input.len() - j,
    {
        let c = input[j];
        match g {
            GapMode::Plain => {
                if c == ' ' || c == '\t' || c == '\n' || c == '\r' {
                    j += 1;
                } else if c == '#' {
                    g = GapMode::Line;
                    j += 1;
                } else if c == '/' && j + 1 < input.len() && input[j + 1] == '/' {
                    g = GapMode::Line;
                    j += 2;
                } else if c == '/' && j + 1 < input.len() && input[j + 1] == '*' {
                    g = GapMode::Block;
                    j += 2;
                } else {
                    return Some(j);
                }
            },
            GapMode::Line => {
                if c == '\n' {
                    g = GapMode::Plain;
                }
                j += 1;
            },
            GapMode::Block => {
                if c == '*' && j + 1 < input.len() && input[j + 1] == '/' {
                    g = GapMode::Plain;
                    j += 2;
                } else {
                    j += 1;
                }
            },
        }
    }
    None
}

/// Strips comments and trailing commas from a sequence of characters.
///
/// On success the output holds exactly the characters the model keeps, in
/// order; on failure the error is the one the model assigns to the input.
pub fn strip_chars(input: &Vec<char>) -> (r: Result<Vec<char>, StripError>)
    ensures
        match r {
            Ok(out) => strip_spec(input@) == Ok::<Seq<char>, StripError>(out@),
            Err(e) => strip_spec(input@) == Err::<Seq<char>, StripError>(e),
        },
{
    let ghost s = input@;
    let mut out: Vec<char> = Vec::new();
    let mut i: usize = 0;
    let mut mode: ScanMode = ScanMode::Normal;
    while i < input.len()
        invariant
            i <= input.len(),
            s == input@,
            strip_from(s, 0, ScanMode::Normal) == emitted(out@, strip_from(s, i as int, mode)),
        decreases input.len() - i,
    {
        let c = input[i];
        match mode {
            ScanMode::Normal => {
                if c == '"' {
                    proof {
                        lemma_emitted_push(
                            out@,
                            c,
                            strip_from(s, i as int + 1, ScanMode::InString { escaped: false }),
                        );
                    }
                    out.push(c);
                    mode = ScanMode::InString { escaped: false };
                    i += 1;
                } else if c == '#' {
                    mode = ScanMode::InLineComment;
                    i += 1;
                } else if c == '/' && i + 1 < input.len() && input[i + 1] == '/' {
                    mode = ScanMode::InLineComment;
                    i += 2;
                } else if c == '/' && i + 1 < input.len() && input[i + 1] == '*' {
                    mode = ScanMode::InBlockComment;
                    i += 2;
                } else if c == ',' {
                    let la = next_significant_from(input, i + 1);
                    let keep: bool = match la {
                        Some(j) => !(input[j] == '}' || input[j] == ']'),
                        None => true,
                    };
                    proof {
                        assert(keep == comma_kept(s, i as int + 1));
                    }
                    if keep {
                        proof {
                            lemma_emitted_push(out@, c, strip_from(s, i as int + 1, ScanMode::Normal));
                        }
                        out.push(c);
                    }
                    i += 1;
                } else {
                    proof {
                        lemma_emitted_push(out@, c, strip_from(s, i as int + 1, ScanMode::Normal));
                    }
                    out.push(c);
                    i += 1;
                }
            },
            ScanMode::InString { escaped } => {
                let next_mode: ScanMode = if escaped {
                    ScanMode::InString { escaped: false }
                } else if c == '\\' {
                    ScanMode::InString { escaped: true }
                } else if c == '"' {
                    ScanMode::Normal
                } else {
                    ScanMode::InString { escaped: false }
                };
                proof {
                    lemma_emitted_push(out@, c, strip_from(s, i as int + 1, next_mode));
                }
                out.push(c);
                mode = next_mode;
                i += 1;
            },
            ScanMode::InLineComment => {
                if c == '\n' {
                    proof {
                        lemma_emitted_push(out@, c, strip_from(s, i as int + 1, ScanMode::Normal));
                    }
                    out.push(c);
                    mode = ScanMode::Normal;
                }
                i += 1;
            },
            ScanMode::InBlockComment => {
                if c == '*' && i + 1 < input.len() && input[i + 1] == '/' {
                    mode = ScanMode::Normal;
                    i += 2;
                } else {
                    i += 1;
                }
            },
        }
    }
    match mode {
        ScanMode::Normal | ScanMode::InLineComment => {
            proof {
                assert(out@ + Seq::<char>::empty() =~= out@);
            }
            Ok(out)
        },
        ScanMode::InString { .. } => Err(StripError::UnterminatedString),
        ScanMode::InBlockComment => Err(StripError::UnterminatedBlockComment),
    }
}

/// The characters of a text, in order.
fn to_char_vec(s: &str) -> (v: Vec<char>)
    ensures
        v@ == s@,
{
    let n = s.unicode_len();
    let mut v: Vec<char> = Vec::new();
    let mut i: usize = 0;
    while i < n
        invariant
            n == s@.len(),
            i <= n,
            v@ == s@.subrange(0, i as int),
        decreases n - i,
    {
        let c = s.get_char(i);
        v.push(c);
        proof {
            assert(v@ =~= s@.subrange(0, i as int + 1));
        }
        i += 1;
    }
    proof {
        assert(s@.subrange(0, n as int) =~= s@);
    }
    v
}

/// Relies on `String::push`: appends the given character to the end of the
/// string, changing nothing else.
#[verifier::external_body]
fn push_char(s: &mut String, c: char)
    ensures
        final(s)@ == old(s)@.push(c),
{
    s.push(c);
}

/// A text holding exactly the given characters, in order.
fn string_from_chars(v: &Vec<char>) -> (s: String)
    ensures
        s@ == v@,
{
    let mut s = String::new();
    let mut i: usize = 0;
    while i < v.len()
        invariant
            i <= v.len(),
            s@ == v@.subrange(0, i as int),
        decreases v.len() - i,
    {
        push_char(&mut s, v[i]);
        proof {
            assert(s@ =~= v@.subrange(0, i as int + 1));
        }
        i += 1;
    }
    proof {
        assert(v@.subrange(0, v.len() as int) =~= v@);
    }
    s
}

/// Strips C-style block comments, C-style and shell-style line comments, and
/// trailing commas from a JSON-like text, keeping everything else unchanged.
///
/// Fails with [`StripError::UnterminatedBlockComment`] when a `/*` is never
/// closed, and with [`StripError::UnterminatedString`] when a `"` is never
/// closed; on every other input it succeeds.
pub fn strip(input: &str) -> (r: Result<String, StripError>)
    ensures
        match r {
            Ok(out) => strip_spec(input@) == Ok::<Seq<char>, StripError>(out@),
            Err(e) => strip_spec(input@) == Err::<Seq<char>, StripError>(e),
        },
{
    let chars = to_char_vec(input);
    match strip_chars(&chars) {
        Ok(out) => Ok(string_from_chars(&out)),
        Err(e) => Err(e),
    }
}

} // verus!
