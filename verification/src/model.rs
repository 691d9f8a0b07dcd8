//! The mathematical model of the tokenizer: a character-level state
//! machine over the input, with one state per quoting mode.
//!
//! At each character the machine either skips whitespace, extends the
//! field being assembled, or changes quoting mode; a word is emitted
//! whenever a started field meets whitespace or the end of the input.
//! Splitting fails exactly when the input ends inside a quoted span.

use vstd::prelude::*;
use crate::classes::is_dq_meta;
use crate::classes::is_space_char;

verus! {

/// The quoting mode the scanner is in.
pub enum Mode {
    /// Outside any quote or escape.
    Norm,
    /// Just after a backslash, outside quotes.
    Esc,
    /// Inside a single-quoted span.
    Sq,
    /// Inside a double-quoted span.
    Dq,
    /// Inside a double-quoted span, just after a backslash.
    DqEsc,
}

/// The scanner's whole state: mode, the field being assembled, whether
/// that field has been started, and the words already emitted.
#[verifier::ext_equal]
pub struct St {
    pub mode: Mode,
    pub field: Seq<char>,
    pub started: bool,
    pub words: Seq<Seq<char>>,
}

/// The state the scanner starts in.
pub open spec fn init_st() -> St {
    St { mode: Mode::Norm, field: Seq::empty(), started: false, words: Seq::empty() }
}

/// One step of the scanner on character `c`.
pub open spec fn step(st: St, c: char) -> St {
    match st.mode {
        Mode::Norm => {
            if is_space_char(c) {
                if st.started {
                    St {
                        mode: Mode::Norm,
                        field: Seq::empty(),
                        started: false,
                        words: st.words.push(st.field),
                    }
                } else {
                    St { mode: Mode::Norm, field: st.field, started: false, words: st.words }
                }
            } else if c == '\'' {
                St { mode: Mode::Sq, field: st.field, started: st.started, words: st.words }
            } else if c == '"' {
                St { mode: Mode::Dq, field: st.field, started: st.started, words: st.words }
            } else if c == '\\' {
                St { mode: Mode::Esc, field: st.field, started: st.started, words: st.words }
            } else {
                St { mode: Mode::Norm, field: st.field.push(c), started: true, words: st.words }
            }
        },
        Mode::Esc => St { mode: Mode::Norm, field: st.field.push(c), started: true, words: st.words },
        Mode::Sq => {
            if c == '\'' {
                St { mode: Mode::Norm, field: st.field, started: true, words: st.words }
            } else {
                St { mode: Mode::Sq, field: st.field.push(c), started: st.started, words: st.words }
            }
        },
        Mode::Dq => {
            if c == '"' {
                St { mode: Mode::Norm, field: st.field, started: true, words: st.words }
            } else if c == '\\' {
                St { mode: Mode::DqEsc, field: st.field, started: st.started, words: st.words }
            } else {
                St { mode: Mode::Dq, field: st.field.push(c), started: st.started, words: st.words }
            }
        },
        Mode::DqEsc => {
            if is_dq_meta(c) {
                St { mode: Mode::Dq, field: st.field.push(c), started: st.started, words: st.words }
            } else {
                St {
                    mode: Mode::Dq,
                    field: st.field.push('\\').push(c),
                    started: st.started,
                    words: st.words,
                }
            }
        },
    }
}

/// The scanner run over a whole character sequence.
pub open spec fn run(st: St, s: Seq<char>) -> St
    decreases s.len(),
{
    if s.len() == 0 {
        st
    } else {
        run(step(st, s[0]), s.drop_first())
    }
}

/// What the run yields once the input ends. Ending inside a quoted span
/// is the mismatched-quotes failure; a trailing backslash is dropped but
/// still closes a word.
pub open spec fn finish(st: St) -> Option<Seq<Seq<char>>> {
    match st.mode {
        Mode::Norm => if st.started {
            Some(st.words.push(st.field))
        } else {
            Some(st.words)
        },
        Mode::Esc => Some(st.words.push(st.field)),
        _ => None,
    }
}

/// The words a string splits into, or `None` on mismatched quotes.
pub open spec fn split_spec(s: Seq<char>) -> Option<Seq<Seq<char>>> {
    finish(run(init_st(), s))
}

/// Running over a concatenation is running over each part in turn.
pub proof fn lemma_run_concat(st: St, a: Seq<char>, b: Seq<char>)
    ensures
        run(st, a + b) == run(run(st, a), b),
    decreases a.len(),
{
    if a.len() == 0 {
        assert(a + b =~= b);
    } else {
        assert((a + b)[0] == a[0]);
        assert((a + b).drop_first() =~= a.drop_first() + b);
        lemma_run_concat(step(st, a[0]), a.drop_first(), b);
    }
}

/// Extending the input by one character runs one more step.
pub proof fn lemma_run_snoc(st: St, s: Seq<char>, c: char)
    ensures
        run(st, s.push(c)) == step(run(st, s), c),
{
    assert(s.push(c) =~= s + seq![c]);
    lemma_run_concat(st, s, seq![c]);
    let st1 = run(st, s);
    assert(seq![c][0] == c);
    assert(seq![c].drop_first() =~= Seq::<char>::empty());
    assert(run(st1, seq![c]) == run(step(st1, c), seq![c].drop_first()));
    assert(run(step(st1, c), Seq::<char>::empty()) == step(st1, c));
}

} // verus!
