//! The tokenizer: the executable scanner that implements the state
//! machine of `model` and splits a string into shell words.

use vstd::prelude::*;
use vstd::string::StrSliceExecFns;
use crate::classes::char_is_space;
use crate::escaping::chars_to_string;
use crate::model::Mode;
use crate::model::init_st;
use crate::model::lemma_run_snoc;
use crate::model::run;
use crate::model::split_spec;

verus! {

/// The error returned when a quoted span opens but never closes.
#[derive(Clone, Copy, Debug, Eq, Hash, PartialEq, Structural)]
pub struct MismatchedQuotes;

impl MismatchedQuotes {
    /// The human-readable description of this error.
    pub fn message(&self) -> (r: String)
        ensures
            r@ == "Mismatched quotes"@,
    {
        "Mismatched quotes".to_owned()
    }
}

/// Splits a string into words the way the Bourne shell does: single
/// quotes copy their span verbatim, double quotes strip the backslash
/// before `$`, a backtick, `"`, `\` or a newline, and a backslash
/// outside quotes escapes the next character. Succeeds with exactly the
/// words of `split_spec`, and fails exactly when the input ends inside
/// an open quote.
pub fn split(input: &str) -> (r: Result<Vec<String>, MismatchedQuotes>)
    ensures
        match r {
            Ok(words) => split_spec(input@) == Some(words.deep_view()),
            Err(_) => split_spec(input@) is None,
        },
{
    let n = input.unicode_len();
    let mut mode = Mode::Norm;
    let mut field: Vec<char> = Vec::new();
    let mut started = false;
    let mut words: Vec<String> = Vec::new();
    for i in 0..n
        invariant
            n == input@.len(),
            ({
                let st = run(init_st(), input@.subrange(0, i as int));
                st.mode == mode && st.field == field@ && st.started == started && st.words
                    == words.deep_view()
            }),
    {
        let ghost prefix = input@.subrange(0, i as int);
        let ghost st0 = run(init_st(), prefix);
        let c = input.get_char(i);
        let ghost old_words = words.deep_view();
        match mode {
            Mode::Norm => {
                if char_is_space(c) {
                    if started {
                        let w = chars_to_string(&field);
                        words.push(w);
                        field = Vec::new();
                        started = false;
                        proof {
                            assert(words.deep_view() =~= old_words.push(st0.field));
                        }
                    }
                } else if c == '\'' {
                    mode = Mode::Sq;
                } else if c == '"' {
                    mode = Mode::Dq;
                } else if c == '\\' {
                    mode = Mode::Esc;
                } else {
                    field.push(c);
                    started = true;
                }
            },
            Mode::Esc => {
                field.push(c);
                started = true;
                mode = Mode::Norm;
            },
            Mode::Sq => {
                if c == '\'' {
                    started = true;
                    mode = Mode::Norm;
                } else {
                    field.push(c);
                }
            },
            Mode::Dq => {
                if c == '"' {
                    started = true;
                    mode = Mode::Norm;
                } else if c == '\\' {
                    mode = Mode::DqEsc;
                } else {
                    field.push(c);
                }
            },
            Mode::DqEsc => {
                if c == '$' || c == '`' || c == '"' || c == '\\' || c == '\n' {
                    field.push(c);
                } else {
                    field.push('\\');
                    field.push(c);
                }
                mode = Mode::Dq;
            },
        }
        proof {
            lemma_run_snoc(init_st(), prefix, input@[i as int]);
            assert(input@.subrange(0, i + 1) =~= prefix.push(input@[i as int]));
        }
    }
    proof {
        assert(input@.subrange(0, n as int) =~= input@);
    }
    let ghost end = run(init_st(), input@);
    match mode {
        Mode::Norm => {
            if started {
                let ghost old_words = words.deep_view();
                let w = chars_to_string(&field);
                words.push(w);
                proof {
                    assert(words.deep_view() =~= old_words.push(end.field));
                }
            }
            Ok(words)
        },
        Mode::Esc => {
            let ghost old_words = words.deep_view();
            let w = chars_to_string(&field);
            words.push(w);
            proof {
                assert(words.deep_view() =~= old_words.push(end.field));
            }
            Ok(words)
        },
        _ => Err(MismatchedQuotes),
    }
}

} // verus!
