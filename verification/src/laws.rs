//! Laws of the stripper, proved against the model: stripping is the identity
//! on clean input, string-literal contents are preserved, and stripping is
//! idempotent wherever a second pass can find nothing new to drop.

use vstd::prelude::*;
use crate::model::{
    clean, clean_from, comma_kept, emitted, is_json_ws, next_significant, prepend, string_close,
    strip_from, strip_spec, GapMode, ScanMode, StripError,
};

verus! {

proof fn lemma_clean_identity_from(s: Seq<char>, i: int, m: ScanMode)
    requires
        0 <= i <= s.len(),
        clean_from(s, i, m),
    ensures
        strip_from(s, i, m) == Ok::<Seq<char>, StripError>(s.subrange(i, s.len() as int)),
    decreases s.len() - i,
{
    if i == s.len() {
        assert(s.subrange(i, s.len() as int) =~= Seq::<char>::empty());
    } else {
        let c = s[i];
        match m {
            ScanMode::Normal => {
                if c == '"' {
                    lemma_clean_identity_from(s, i + 1, ScanMode::InString { escaped: false });
                } else {
                    lemma_clean_identity_from(s, i + 1, ScanMode::Normal);
                }
                assert(seq![c] + s.subrange(i + 1, s.len() as int) =~= s.subrange(
                    i,
                    s.len() as int,
                ));
            },
            ScanMode::InString { escaped } => {
                let nm: ScanMode = if escaped {
                    ScanMode::InString { escaped: false }
                } else if c == '\\' {
                    ScanMode::InString { escaped: true }
                } else if c == '"' {
                    ScanMode::Normal
                } else {
                    ScanMode::InString { escaped: false }
                };
                lemma_clean_identity_from(s, i + 1, nm);
                assert(seq![c] + s.subrange(i + 1, s.len() as int) =~= s.subrange(
                    i,
                    s.len() as int,
                ));
            },
            ScanMode::InLineComment => {},
            ScanMode::InBlockComment => {},
        }
    }
}

/// Law: stripping is the identity on clean input. A text in which the
/// scanner meets no comment opener outside string literals and no trailing
/// comma, and whose string literals are all closed — in particular, any
/// valid JSON text with no comments and no trailing commas — is returned
/// unchanged.
pub proof fn lemma_strip_identity_on_clean(s: Seq<char>)
    requires
        clean(s),
    ensures
        strip_spec(s) == Ok::<Seq<char>, StripError>(s),
{
    lemma_clean_identity_from(s, 0, ScanMode::Normal);
    assert(s.subrange(0, s.len() as int) =~= s);
}

proof fn lemma_prepend_emitted(c: char, p: Seq<char>, r: Result<Seq<char>, StripError>)
    ensures
        prepend(c, emitted(p, r)) == emitted(seq![c] + p, r),
{
    match r {
        Ok(t) => {
            assert(seq![c] + (p + t) =~= (seq![c] + p) + t);
        },
        Err(_) => {},
    }
}

proof fn lemma_string_close_bounds(s: Seq<char>, i: int, escaped: bool)
    requires
        0 <= i,
        string_close(s, i, escaped) is Some,
    ensures
        ({
            let j = string_close(s, i, escaped)->Some_0;
            i <= j < s.len() && s[j] == '"'
        }),
    decreases s.len() - i,
{
    if i < s.len() {
        if escaped {
            lemma_string_close_bounds(s, i + 1, false);
        } else if s[i] == '\\' {
            lemma_string_close_bounds(s, i + 1, true);
        } else if s[i] == '"' {
        } else {
            lemma_string_close_bounds(s, i + 1, false);
        }
    }
}

proof fn lemma_in_string_verbatim(s: Seq<char>, i: int, escaped: bool)
    requires
        0 <= i <= s.len(),
    ensures
        strip_from(s, i, ScanMode::InString { escaped }) == match string_close(s, i, escaped) {
            None => Err::<Seq<char>, StripError>(StripError::UnterminatedString),
            Some(j) => emitted(s.subrange(i, j + 1), strip_from(s, j + 1, ScanMode::Normal)),
        },
    decreases s.len() - i,
{
    if i == s.len() {
    } else {
        let c = s[i];
        if !escaped && c == '"' {
            // the literal closes here: exactly this quote is emitted before
            // the scan resumes in normal mode
            assert(s.subrange(i, i + 1) =~= seq![c]);
            match strip_from(s, i + 1, ScanMode::Normal) {
                Ok(t) => {
                    assert(seq![c] + t =~= s.subrange(i, i + 1) + t);
                },
                Err(_) => {},
            }
        } else {
            let ne: bool = if escaped {
                false
            } else {
                c == '\\'
            };
            lemma_in_string_verbatim(s, i + 1, ne);
            match string_close(s, i + 1, ne) {
                None => {},
                Some(j) => {
                    lemma_string_close_bounds(s, i + 1, ne);
                    lemma_prepend_emitted(
                        c,
                        s.subrange(i + 1, j + 1),
                        strip_from(s, j + 1, ScanMode::Normal),
                    );
                    assert(seq![c] + s.subrange(i + 1, j + 1) =~= s.subrange(i, j + 1));
                },
            }
        }
    }
}

/// Law: string-literal contents are preserved. When the scanner meets a `"`
/// in normal mode and that literal is closed, the entire literal — whatever
/// characters it holds, comment openers and commas included — stands
/// unchanged in the output, followed by the stripped rest of the input.
pub proof fn lemma_string_literal_preserved(s: Seq<char>, i: int)
    requires
        0 <= i < s.len(),
        s[i] == '"',
        string_close(s, i + 1, false) is Some,
    ensures
        ({
            let j = string_close(s, i + 1, false)->Some_0;
            strip_from(s, i, ScanMode::Normal) == emitted(
                s.subrange(i, j + 1),
                strip_from(s, j + 1, ScanMode::Normal),
            )
        }),
{
    let j = string_close(s, i + 1, false)->Some_0;
    lemma_string_close_bounds(s, i + 1, false);
    lemma_in_string_verbatim(s, i + 1, false);
    lemma_prepend_emitted(
        '"',
        s.subrange(i + 1, j + 1),
        strip_from(s, j + 1, ScanMode::Normal),
    );
    assert(seq!['"'] + s.subrange(i + 1, j + 1) =~= s.subrange(i, j + 1));
}

/// No comma kept by the scan from `i` in mode `m` has, as its next
/// significant character, a comma that the scan drops. On such a text
/// stripping cannot turn a kept comma into a trailing one.
pub open spec fn commas_separated(s: Seq<char>, i: int, m: ScanMode) -> bool
    decreases s.len() - i,
{
    if i < 0 || i >= s.len() {
        true
    } else {
        let c = s[i];
        match m {
            ScanMode::Normal => {
                if c == '"' {
                    commas_separated(s, i + 1, ScanMode::InString { escaped: false })
                } else if c == '#' {
                    commas_separated(s, i + 1, ScanMode::InLineComment)
                } else if c == '/' && i + 1 < s.len() && s[i + 1] == '/' {
                    commas_separated(s, i + 2, ScanMode::InLineComment)
                } else if c == '/' && i + 1 < s.len() && s[i + 1] == '*' {
                    commas_separated(s, i + 2, ScanMode::InBlockComment)
                } else if c == ',' {
                    let ok = match next_significant(s, i + 1, GapMode::Plain) {
                        Some(j) => s[j] == ',' ==> comma_kept(s, j + 1),
                        None => true,
                    };
                    ok && commas_separated(s, i + 1, ScanMode::Normal)
                } else {
                    commas_separated(s, i + 1, ScanMode::Normal)
                }
            },
            ScanMode::InString { escaped } => {
                if escaped {
                    commas_separated(s, i + 1, ScanMode::InString { escaped: false })
                } else if c == '\\' {
                    commas_separated(s, i + 1, ScanMode::InString { escaped: true })
                } else if c == '"' {
                    commas_separated(s, i + 1, ScanMode::Normal)
                } else {
                    commas_separated(s, i + 1, ScanMode::InString { escaped: false })
                }
            },
            ScanMode::InLineComment => {
                if c == '\n' {
                    commas_separated(s, i + 1, ScanMode::Normal)
                } else {
                    commas_separated(s, i + 1, ScanMode::InLineComment)
                }
            },
            ScanMode::InBlockComment => {
                if c == '*' && i + 1 < s.len() && s[i + 1] == '/' {
                    commas_separated(s, i + 2, ScanMode::Normal)
                } else {
                    commas_separated(s, i + 1, ScanMode::InBlockComment)
                }
            },
        }
    }
}

/// The scan mode in which the output of a scan begun in mode `m` is itself
/// scanned: string content resumes inside the string, everything else
/// resumes as ordinary content.
spec fn resume_mode(m: ScanMode) -> ScanMode {
    match m {
        ScanMode::InString { escaped } => ScanMode::InString { escaped },
        _ => ScanMode::Normal,
    }
}

spec fn gap_of(m: ScanMode) -> GapMode {
    match m {
        ScanMode::InLineComment => GapMode::Line,
        ScanMode::InBlockComment => GapMode::Block,
        _ => GapMode::Plain,
    }
}

/// The first significant character the output of a scan from `i` shows: the
/// next significant input character, except that a dropped comma shows the
/// closing bracket found behind it instead.
spec fn eff_sig(s: Seq<char>, i: int, g: GapMode) -> Option<char> {
    match next_significant(s, i, g) {
        None => None,
        Some(j) => if s[j] != ',' {
            Some(s[j])
        } else if comma_kept(s, j + 1) {
            Some(',')
        } else {
            Some(s[next_significant(s, j + 1, GapMode::Plain)->Some_0])
        },
    }
}

/// The output of a successful scan from `i` in mode `m` starts with
/// whitespace followed by the character `eff_sig` names, or is all
/// whitespace when `eff_sig` names none.
spec fn output_sig_matches(s: Seq<char>, i: int, m: ScanMode) -> bool
    recommends
        strip_from(s, i, m) is Ok,
{
    let t = strip_from(s, i, m)->Ok_0;
    match eff_sig(s, i, gap_of(m)) {
        None => next_significant(t, 0, GapMode::Plain) is None,
        Some(c) => {
            let k = next_significant(t, 0, GapMode::Plain);
            k is Some && 0 <= k->Some_0 < t.len() && t[k->Some_0] == c
        },
    }
}

proof fn lemma_next_sig_bounds(s: Seq<char>, i: int, g: GapMode)
    requires
        next_significant(s, i, g) is Some,
    ensures
        ({
            let j = next_significant(s, i, g)->Some_0;
            i <= j < s.len() && !is_json_ws(s[j]) && s[j] != '#' && (s[j] == '/' ==> !(j + 1
                < s.len() && (s[j + 1] == '/' || s[j + 1] == '*')))
        }),
    decreases s.len() - i,
{
    if 0 <= i < s.len() {
        match g {
            GapMode::Plain => {
                if is_json_ws(s[i]) {
                    lemma_next_sig_bounds(s, i + 1, GapMode::Plain);
                } else if s[i] == '#' {
                    lemma_next_sig_bounds(s, i + 1, GapMode::Line);
                } else if s[i] == '/' && i + 1 < s.len() && s[i + 1] == '/' {
                    lemma_next_sig_bounds(s, i + 2, GapMode::Line);
                } else if s[i] == '/' && i + 1 < s.len() && s[i + 1] == '*' {
                    lemma_next_sig_bounds(s, i + 2, GapMode::Block);
                }
            },
            GapMode::Line => {
                if s[i] == '\n' {
                    lemma_next_sig_bounds(s, i + 1, GapMode::Plain);
                } else {
                    lemma_next_sig_bounds(s, i + 1, GapMode::Line);
                }
            },
            GapMode::Block => {
                if s[i] == '*' && i + 1 < s.len() && s[i + 1] == '/' {
                    lemma_next_sig_bounds(s, i + 2, GapMode::Plain);
                } else {
                    lemma_next_sig_bounds(s, i + 1, GapMode::Block);
                }
            },
        }
    }
}

proof fn lemma_next_sig_cons(c: char, t: Seq<char>, k: int, g: GapMode)
    requires
        0 <= k <= t.len(),
    ensures
        next_significant(seq![c] + t, k + 1, g) == match next_significant(t, k, g) {
            None => None::<int>,
            Some(j) => Some(j + 1),
        },
    decreases t.len() - k,
{
    let u = seq![c] + t;
    if k < t.len() {
        assert(u[k + 1] == t[k]);
        if k + 1 < t.len() {
            assert(u[k + 2] == t[k + 1]);
        }
        match g {
            GapMode::Plain => {
                if is_json_ws(t[k]) {
                    lemma_next_sig_cons(c, t, k + 1, GapMode::Plain);
                } else if t[k] == '#' {
                    lemma_next_sig_cons(c, t, k + 1, GapMode::Line);
                } else if t[k] == '/' && k + 1 < t.len() && t[k + 1] == '/' {
                    lemma_next_sig_cons(c, t, k + 2, GapMode::Line);
                } else if t[k] == '/' && k + 1 < t.len() && t[k + 1] == '*' {
                    lemma_next_sig_cons(c, t, k + 2, GapMode::Block);
                }
            },
            GapMode::Line => {
                if t[k] == '\n' {
                    lemma_next_sig_cons(c, t, k + 1, GapMode::Plain);
                } else {
                    lemma_next_sig_cons(c, t, k + 1, GapMode::Line);
                }
            },
            GapMode::Block => {
                if t[k] == '*' && k + 1 < t.len() && t[k + 1] == '/' {
                    lemma_next_sig_cons(c, t, k + 2, GapMode::Plain);
                } else {
                    lemma_next_sig_cons(c, t, k + 1, GapMode::Block);
                }
            },
        }
    }
}

proof fn lemma_clean_cons(c: char, t: Seq<char>, k: int, m: ScanMode)
    requires
        0 <= k <= t.len(),
    ensures
        clean_from(seq![c] + t, k + 1, m) == clean_from(t, k, m),
    decreases t.len() - k,
{
    let u = seq![c] + t;
    if k < t.len() {
        assert(u[k + 1] == t[k]);
        if k + 1 < t.len() {
            assert(u[k + 2] == t[k + 1]);
        }
        match m {
            ScanMode::Normal => {
                if t[k] == '"' {
                    lemma_clean_cons(c, t, k + 1, ScanMode::InString { escaped: false });
                } else if t[k] == '#' {
                } else if t[k] == '/' && k + 1 < t.len() && (t[k + 1] == '/' || t[k + 1] == '*') {
                } else if t[k] == ',' {
                    lemma_next_sig_cons(c, t, k + 1, GapMode::Plain);
                    match next_significant(t, k + 1, GapMode::Plain) {
                        Some(j) => {
                            lemma_next_sig_bounds(t, k + 1, GapMode::Plain);
                            assert(u[j + 1] == t[j]);
                        },
                        None => {},
                    }
                    lemma_clean_cons(c, t, k + 1, ScanMode::Normal);
                } else {
                    lemma_clean_cons(c, t, k + 1, ScanMode::Normal);
                }
            },
            ScanMode::InString { escaped } => {
                let nm: ScanMode = if escaped {
                    ScanMode::InString { escaped: false }
                } else if t[k] == '\\' {
                    ScanMode::InString { escaped: true }
                } else if t[k] == '"' {
                    ScanMode::Normal
                } else {
                    ScanMode::InString { escaped: false }
                };
                lemma_clean_cons(c, t, k + 1, nm);
            },
            ScanMode::InLineComment => {},
            ScanMode::InBlockComment => {},
        }
    }
}

proof fn lemma_clean_next_sig_ws(t: Seq<char>, k: int)
    requires
        0 <= k <= t.len(),
        clean_from(t, k, ScanMode::Normal),
    ensures
        match next_significant(t, k, GapMode::Plain) {
            None => forall|p: int| k <= p < t.len() ==> is_json_ws(t[p]),
            Some(j) => (forall|p: int| k <= p < j ==> is_json_ws(t[p])) && clean_from(
                t,
                j,
                ScanMode::Normal,
            ),
        },
    decreases t.len() - k,
{
    if k < t.len() && is_json_ws(t[k]) {
        lemma_clean_next_sig_ws(t, k + 1);
        match next_significant(t, k + 1, GapMode::Plain) {
            None => {
                assert forall|p: int| k <= p < t.len() implies is_json_ws(t[p]) by {
                    if p > k {
                        assert(is_json_ws(t[p]));
                    }
                }
            },
            Some(j) => {
                assert forall|p: int| k <= p < j implies is_json_ws(t[p]) by {
                    if p > k {
                        assert(is_json_ws(t[p]));
                    }
                }
            },
        }
    }
}

proof fn lemma_line_output_head(s: Seq<char>, i: int)
    requires
        0 <= i <= s.len(),
        strip_from(s, i, ScanMode::InLineComment) is Ok,
    ensures
        ({
            let u = strip_from(s, i, ScanMode::InLineComment)->Ok_0;
            u.len() == 0 || u[0] == '\n'
        }),
    decreases s.len() - i,
{
    if i < s.len() {
        if s[i] == '\n' {
            let u = strip_from(s, i, ScanMode::InLineComment)->Ok_0;
            assert(u[0] == '\n');
        } else {
            lemma_line_output_head(s, i + 1);
        }
    }
}

#[verifier::rlimit(50)]
proof fn lemma_output_clean_from(s: Seq<char>, i: int, m: ScanMode)
    requires
        0 <= i <= s.len(),
        strip_from(s, i, m) is Ok,
        commas_separated(s, i, m),
    ensures
        clean_from(strip_from(s, i, m)->Ok_0, 0, resume_mode(m)),
        !(m is InString) ==> output_sig_matches(s, i, m),
    decreases s.len() - i,
{
    let t = strip_from(s, i, m)->Ok_0;
    if i == s.len() {
    } else {
        let c = s[i];
        match m {
            ScanMode::Normal => {
                if c == '"' {
                    lemma_output_clean_from(s, i + 1, ScanMode::InString { escaped: false });
                    let t1 = strip_from(s, i + 1, ScanMode::InString { escaped: false })->Ok_0;
                    assert(t == seq![c] + t1);
                    lemma_clean_cons(c, t1, 0, ScanMode::InString { escaped: false });
                    assert(t[0] == '"');
                    assert(next_significant(t, 0, GapMode::Plain) == Some(0int));
                    assert(output_sig_matches(s, i, m));
                } else if c == '#' {
                    lemma_output_clean_from(s, i + 1, ScanMode::InLineComment);
                    assert(next_significant(s, i, GapMode::Plain) == next_significant(
                        s,
                        i + 1,
                        GapMode::Line,
                    ));
                    assert(output_sig_matches(s, i, m));
                } else if c == '/' && i + 1 < s.len() && s[i + 1] == '/' {
                    lemma_output_clean_from(s, i + 2, ScanMode::InLineComment);
                    assert(next_significant(s, i, GapMode::Plain) == next_significant(
                        s,
                        i + 2,
                        GapMode::Line,
                    ));
                    assert(output_sig_matches(s, i, m));
                } else if c == '/' && i + 1 < s.len() && s[i + 1] == '*' {
                    lemma_output_clean_from(s, i + 2, ScanMode::InBlockComment);
                    assert(next_significant(s, i, GapMode::Plain) == next_significant(
                        s,
                        i + 2,
                        GapMode::Block,
                    ));
                    assert(output_sig_matches(s, i, m));
                } else if c == ',' {
                    lemma_output_clean_from(s, i + 1, ScanMode::Normal);
                    let t1 = strip_from(s, i + 1, ScanMode::Normal)->Ok_0;
                    assert(next_significant(s, i, GapMode::Plain) == Some(i));
                    if comma_kept(s, i + 1) {
                        assert(t == seq![c] + t1);
                        lemma_clean_cons(c, t1, 0, ScanMode::Normal);
                        lemma_next_sig_cons(c, t1, 0, GapMode::Plain);
                        match next_significant(s, i + 1, GapMode::Plain) {
                            None => {
                                assert(next_significant(t1, 0, GapMode::Plain) is None);
                                assert(next_significant(t, 1, GapMode::Plain) is None);
                            },
                            Some(j) => {
                                lemma_next_sig_bounds(s, i + 1, GapMode::Plain);
                                let k = next_significant(t1, 0, GapMode::Plain)->Some_0;
                                if s[j] == ',' {
                                    assert(comma_kept(s, j + 1));
                                    assert(eff_sig(s, i + 1, GapMode::Plain) == Some(','));
                                    assert(t1[k] == ',');
                                } else {
                                    assert(eff_sig(s, i + 1, GapMode::Plain) == Some(s[j]));
                                    assert(t1[k] == s[j]);
                                    assert(s[j] != '}' && s[j] != ']');
                                }
                                assert(t[k + 1] == t1[k]);
                                assert(next_significant(t, 1, GapMode::Plain) == Some(k + 1));
                            },
                        }
                        assert(comma_kept(t, 1));
                        assert(clean_from(t, 0, ScanMode::Normal));
                        assert(t[0] == ',');
                        assert(next_significant(t, 0, GapMode::Plain) == Some(0int));
                        assert(eff_sig(s, i, GapMode::Plain) == Some(','));
                        assert(output_sig_matches(s, i, m));
                    } else {
                        assert(t == t1);
                        let k0 = next_significant(s, i + 1, GapMode::Plain)->Some_0;
                        lemma_next_sig_bounds(s, i + 1, GapMode::Plain);
                        assert(s[k0] == '}' || s[k0] == ']');
                        assert(eff_sig(s, i + 1, GapMode::Plain) == Some(s[k0]));
                        assert(eff_sig(s, i, GapMode::Plain) == Some(s[k0]));
                        assert(output_sig_matches(s, i, m));
                    }
                } else {
                    lemma_output_clean_from(s, i + 1, ScanMode::Normal);
                    let t1 = strip_from(s, i + 1, ScanMode::Normal)->Ok_0;
                    assert(t == seq![c] + t1);
                    lemma_clean_cons(c, t1, 0, ScanMode::Normal);
                    lemma_next_sig_cons(c, t1, 0, GapMode::Plain);
                    if is_json_ws(c) {
                        assert(next_significant(s, i, GapMode::Plain) == next_significant(
                            s,
                            i + 1,
                            GapMode::Plain,
                        ));
                        assert(clean_from(t, 0, ScanMode::Normal));
                        match next_significant(t1, 0, GapMode::Plain) {
                            None => {
                                assert(next_significant(t, 1, GapMode::Plain) is None);
                                assert(next_significant(t, 0, GapMode::Plain) is None);
                            },
                            Some(k) => {
                                lemma_next_sig_bounds(t1, 0, GapMode::Plain);
                                assert(t[k + 1] == t1[k]);
                                assert(next_significant(t, 0, GapMode::Plain) == Some(k + 1));
                            },
                        }
                        assert(output_sig_matches(s, i, m));
                    } else {
                        if c == '/' {
                            // the copied slash cannot open a comment in the
                            // output: what follows it there starts with
                            // anything but '/' or '*'
                            lemma_output_head_guard(s, i + 1);
                            assert(t1.len() > 0 ==> t[1] == t1[0]);
                            assert(t.len() > 1 ==> !(t[1] == '/' || t[1] == '*'));
                        }
                        assert(clean_from(t, 0, ScanMode::Normal));
                        assert(next_significant(s, i, GapMode::Plain) == Some(i));
                        assert(next_significant(t, 0, GapMode::Plain) == Some(0int));
                        assert(eff_sig(s, i, GapMode::Plain) == Some(c));
                        assert(output_sig_matches(s, i, m));
                    }
                }
            },
            ScanMode::InString { escaped } => {
                let nm: ScanMode = if escaped {
                    ScanMode::InString { escaped: false }
                } else if c == '\\' {
                    ScanMode::InString { escaped: true }
                } else if c == '"' {
                    ScanMode::Normal
                } else {
                    ScanMode::InString { escaped: false }
                };
                lemma_output_clean_from(s, i + 1, nm);
                let t1 = strip_from(s, i + 1, nm)->Ok_0;
                assert(t == seq![c] + t1);
                lemma_clean_cons(c, t1, 0, resume_mode(nm));
                assert(clean_from(t, 0, resume_mode(m)));
            },
            ScanMode::InLineComment => {
                if c == '\n' {
                    lemma_output_clean_from(s, i + 1, ScanMode::Normal);
                    let t1 = strip_from(s, i + 1, ScanMode::Normal)->Ok_0;
                    assert(t == seq![c] + t1);
                    lemma_clean_cons(c, t1, 0, ScanMode::Normal);
                    lemma_next_sig_cons(c, t1, 0, GapMode::Plain);
                    assert(clean_from(t, 0, ScanMode::Normal));
                    assert(next_significant(s, i, GapMode::Line) == next_significant(
                        s,
                        i + 1,
                        GapMode::Plain,
                    ));
                    match next_significant(t1, 0, GapMode::Plain) {
                        None => {
                            assert(next_significant(t, 1, GapMode::Plain) is None);
                            assert(next_significant(t, 0, GapMode::Plain) is None);
                        },
                        Some(k) => {
                            lemma_next_sig_bounds(t1, 0, GapMode::Plain);
                            assert(t[k + 1] == t1[k]);
                            assert(next_significant(t, 0, GapMode::Plain) == Some(k + 1));
                        },
                    }
                    assert(output_sig_matches(s, i, m));
                } else {
                    lemma_output_clean_from(s, i + 1, ScanMode::InLineComment);
                    assert(next_significant(s, i, GapMode::Line) == next_significant(
                        s,
                        i + 1,
                        GapMode::Line,
                    ));
                    assert(output_sig_matches(s, i, m));
                }
            },
            ScanMode::InBlockComment => {
                if c == '*' && i + 1 < s.len() && s[i + 1] == '/' {
                    lemma_output_clean_from(s, i + 2, ScanMode::Normal);
                    assert(next_significant(s, i, GapMode::Block) == next_significant(
                        s,
                        i + 2,
                        GapMode::Plain,
                    ));
                    assert(output_sig_matches(s, i, m));
                } else {
                    lemma_output_clean_from(s, i + 1, ScanMode::InBlockComment);
                    assert(next_significant(s, i, GapMode::Block) == next_significant(
                        s,
                        i + 1,
                        GapMode::Block,
                    ));
                    assert(output_sig_matches(s, i, m));
                }
            },
        }
    }
}

proof fn lemma_output_head_guard(s: Seq<char>, p: int)
    requires
        0 <= p <= s.len(),
        p < s.len() ==> (s[p] != '/' && s[p] != '*'),
        strip_from(s, p, ScanMode::Normal) is Ok,
        commas_separated(s, p, ScanMode::Normal),
    ensures
        ({
            let u = strip_from(s, p, ScanMode::Normal)->Ok_0;
            u.len() > 0 ==> (u[0] != '/' && u[0] != '*')
        }),
    decreases s.len() - p,
{
    let u = strip_from(s, p, ScanMode::Normal)->Ok_0;
    if p < s.len() {
        let c = s[p];
        if c == '#' {
            lemma_line_output_head(s, p + 1);
        } else if c == ',' {
            if comma_kept(s, p + 1) {
                assert(u[0] == ',');
            } else {
                lemma_output_clean_from(s, p + 1, ScanMode::Normal);
                let k0 = next_significant(s, p + 1, GapMode::Plain)->Some_0;
                lemma_next_sig_bounds(s, p + 1, GapMode::Plain);
                assert(s[k0] == '}' || s[k0] == ']');
                assert(eff_sig(s, p + 1, GapMode::Plain) == Some(s[k0]));
                let u1 = strip_from(s, p + 1, ScanMode::Normal)->Ok_0;
                assert(u == u1);
                let k2 = next_significant(u1, 0, GapMode::Plain)->Some_0;
                lemma_clean_next_sig_ws(u1, 0);
                if u.len() > 0 {
                    if k2 == 0 {
                        assert(u[0] == s[k0]);
                    } else {
                        assert(is_json_ws(u[0]));
                    }
                }
            }
        } else {
            assert(u[0] == c);
        }
    }
}

/// Law: a successful strip leaves nothing for a second pass to find. Under
/// `commas_separated` the output holds no comment opener outside string
/// literals and no trailing comma, and all its string literals are closed.
pub proof fn lemma_strip_output_clean(s: Seq<char>)
    requires
        strip_spec(s) is Ok,
        commas_separated(s, 0, ScanMode::Normal),
    ensures
        clean(strip_spec(s)->Ok_0),
{
    lemma_output_clean_from(s, 0, ScanMode::Normal);
}

/// Law: stripping is idempotent: run on its own output, the stripper
/// returns it unchanged. `commas_separated` excludes the one family of
/// inputs on which this can fail: when a kept comma's next significant
/// character is itself a comma that gets dropped, the drop leaves the first
/// comma trailing, and only a second pass removes it (stripping `[,,]`
/// yields `[,]`, and stripping that yields `[]`).
pub proof fn lemma_strip_idempotent(s: Seq<char>)
    requires
        strip_spec(s) is Ok,
        commas_separated(s, 0, ScanMode::Normal),
    ensures
        strip_spec(strip_spec(s)->Ok_0) == strip_spec(s),
{
    lemma_strip_output_clean(s);
    lemma_strip_identity_on_clean(strip_spec(s)->Ok_0);
}

} // verus!
