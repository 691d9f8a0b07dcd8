//! The laws relating the escaper and the joiner to the tokenizer:
//! escaping always round-trips through splitting.

use vstd::prelude::*;
use crate::classes::is_safe_char;
use crate::classes::is_space_char;
use crate::classes::lemma_safe_char_plain;
use crate::escaping::escape_char;
use crate::escaping::escape_chars;
use crate::escaping::escape_spec;
use crate::escaping::join_spec;
use crate::model::Mode;
use crate::model::St;
use crate::model::finish;
use crate::model::init_st;
use crate::model::lemma_run_concat;
use crate::model::run;
use crate::model::split_spec;
use crate::model::step;

verus! {

/// Running the scanner over a single character takes a single step.
proof fn lemma_run_one(st: St, c: char)
    ensures
        run(st, seq![c]) == step(st, c),
{
    assert(seq![c][0] == c);
    assert(seq![c].drop_first() =~= Seq::<char>::empty());
    assert(run(st, seq![c]) == run(step(st, c), seq![c].drop_first()));
    assert(run(step(st, c), Seq::<char>::empty()) == step(st, c));
}

/// An empty single-quoted span starts the field without adding to it.
proof fn lemma_run_empty_quotes(st: St)
    requires
        st.mode == Mode::Norm,
    ensures
        run(st, seq!['\'', '\'']) == (St {
            mode: Mode::Norm,
            field: st.field,
            started: true,
            words: st.words,
        }),
{
    assert(seq!['\'', '\''] =~= seq!['\''] + seq!['\'']);
    lemma_run_concat(st, seq!['\''], seq!['\'']);
    lemma_run_one(st, '\'');
    lemma_run_one(step(st, '\''), '\'');
}

/// The rendering of one character is consumed as exactly that character:
/// from outside quotes, the scanner crosses `escape_char(c)` by pushing
/// `c` onto the field and starting it.
proof fn lemma_run_escape_char(st: St, c: char)
    requires
        st.mode == Mode::Norm,
    ensures
        run(st, escape_char(c)) == (St {
            mode: Mode::Norm,
            field: st.field.push(c),
            started: true,
            words: st.words,
        }),
{
    if c == '\n' {
        assert(escape_char(c) =~= seq!['\''] + seq!['\n'] + seq!['\'']);
        lemma_run_concat(st, seq!['\''] + seq!['\n'], seq!['\'']);
        lemma_run_concat(st, seq!['\''], seq!['\n']);
        lemma_run_one(st, '\'');
        lemma_run_one(step(st, '\''), '\n');
        lemma_run_one(step(step(st, '\''), '\n'), '\'');
    } else if is_safe_char(c) {
        lemma_safe_char_plain(c);
        assert(escape_char(c) =~= seq![c]);
        lemma_run_one(st, c);
    } else {
        assert(escape_char(c) =~= seq!['\\'] + seq![c]);
        lemma_run_concat(st, seq!['\\'], seq![c]);
        lemma_run_one(st, '\\');
        lemma_run_one(step(st, '\\'), c);
    }
}

/// The rendering of a whole nonempty literal is consumed as that
/// literal, appended to the field in one word.
proof fn lemma_run_escape_chars(st: St, s: Seq<char>)
    requires
        st.mode == Mode::Norm,
        s.len() > 0,
    ensures
        run(st, escape_chars(s)) == (St {
            mode: Mode::Norm,
            field: st.field + s,
            started: true,
            words: st.words,
        }),
    decreases s.len(),
{
    lemma_run_concat(st, escape_char(s[0]), escape_chars(s.drop_first()));
    lemma_run_escape_char(st, s[0]);
    let st1 = St { mode: Mode::Norm, field: st.field.push(s[0]), started: true, words: st.words };
    if s.len() == 1 {
        assert(s.drop_first() =~= Seq::<char>::empty());
        assert(escape_chars(s.drop_first()) =~= Seq::<char>::empty());
        assert(run(st1, Seq::<char>::empty()) == st1);
        assert(st.field.push(s[0]) =~= st.field + s);
    } else {
        lemma_run_escape_chars(st1, s.drop_first());
        assert(st.field.push(s[0]) + s.drop_first() =~= st.field + s);
    }
}

/// Splitting the escape of any literal yields exactly that literal as
/// the single word, for every string including the empty one.
pub proof fn lemma_split_escape(s: Seq<char>)
    ensures
        split_spec(escape_spec(s)) == Some(seq![s]),
{
    if s.len() == 0 {
        lemma_run_empty_quotes(init_st());
        assert(s =~= Seq::<char>::empty());
        assert(Seq::<Seq<char>>::empty().push(s) =~= seq![s]);
    } else {
        lemma_run_escape_chars(init_st(), s);
        assert(Seq::<char>::empty() + s =~= s);
        assert(Seq::<Seq<char>>::empty().push(s) =~= seq![s]);
    }
}

/// Every character outside the safe-unescaped set — the newline aside,
/// which is quoted instead — is rendered as itself prefixed with one
/// backslash.
pub proof fn lemma_escape_prefixes_unsafe(c: char)
    requires
        !is_safe_char(c),
    ensures
        escape_char(c) == seq!['\\', c],
{
}

/// From a fresh field, the joined rendering of `l` is consumed as the
/// words `l`, appended after the words already emitted.
proof fn lemma_run_join(w: Seq<Seq<char>>, l: Seq<Seq<char>>)
    ensures
        finish(run(St { mode: Mode::Norm, field: Seq::empty(), started: false, words: w },
            join_spec(l))) == Some(w + l),
    decreases l.len(),
{
    let st = St { mode: Mode::Norm, field: Seq::empty(), started: false, words: w };
    if l.len() == 0 {
        assert(run(st, join_spec(l)) == st);
        assert(w + l =~= w);
    } else if l.len() == 1 {
        if l[0].len() == 0 {
            lemma_run_empty_quotes(st);
            assert(l[0] =~= Seq::<char>::empty());
        } else {
            lemma_run_escape_chars(st, l[0]);
            assert(Seq::<char>::empty() + l[0] =~= l[0]);
        }
        assert(w.push(l[0]) =~= w + l);
    } else {
        assert(join_spec(l) == (escape_spec(l[0]) + seq![' ']) + join_spec(l.drop_first()));
        lemma_run_concat(st, escape_spec(l[0]) + seq![' '], join_spec(l.drop_first()));
        lemma_run_concat(st, escape_spec(l[0]), seq![' ']);
        let st1 = St { mode: Mode::Norm, field: l[0], started: true, words: w };
        if l[0].len() == 0 {
            lemma_run_empty_quotes(st);
            assert(l[0] =~= Seq::<char>::empty());
            assert(run(st, escape_spec(l[0])) == st1);
        } else {
            lemma_run_escape_chars(st, l[0]);
            assert(Seq::<char>::empty() + l[0] =~= l[0]);
            assert(run(st, escape_spec(l[0])) == st1);
        }
        lemma_run_one(st1, ' ');
        let st2 = St { mode: Mode::Norm, field: Seq::empty(), started: false, words: w.push(l[0]) };
        assert(step(st1, ' ') == st2);
        assert(run(st, join_spec(l)) == run(st2, join_spec(l.drop_first())));
        lemma_run_join(w.push(l[0]), l.drop_first());
        assert(w.push(l[0]) + l.drop_first() =~= w + l);
    }
}

/// Splitting the join of any sequence of literals yields exactly those
/// literals back, element for element.
pub proof fn lemma_split_join(l: Seq<Seq<char>>)
    ensures
        split_spec(join_spec(l)) == Some(l),
{
    lemma_run_join(Seq::empty(), l);
    assert(Seq::<Seq<char>>::empty() + l =~= l);
}

/// The scanner ignores whitespace while no field is open.
proof fn lemma_run_all_space(s: Seq<char>)
    requires
        forall|i: int| 0 <= i < s.len() ==> is_space_char(s[i]),
    ensures
        run(init_st(), s) == init_st(),
    decreases s.len(),
{
    if s.len() > 0 {
        assert(step(init_st(), s[0]) == init_st());
        assert(forall|i: int|
            0 <= i < s.drop_first().len() ==> is_space_char(#[trigger] s.drop_first()[i]));
        lemma_run_all_space(s.drop_first());
    }
}

/// Once the scanner stands outside any quote and not just after a
/// backslash, further whitespace only closes the open field and is
/// otherwise ignored; and inside an unclosed quote, whitespace cannot
/// rescue the span.
proof fn lemma_finish_run_space(st: St, t: Seq<char>)
    requires
        !(st.mode is Esc),
        forall|i: int| 0 <= i < t.len() ==> is_space_char(t[i]),
    ensures
        finish(run(st, t)) == finish(st),
    decreases t.len(),
{
    if t.len() > 0 {
        let st1 = step(st, t[0]);
        assert(forall|i: int|
            0 <= i < t.drop_first().len() ==> is_space_char(#[trigger] t.drop_first()[i]));
        match st.mode {
            Mode::Norm => {
                assert(finish(st1) == finish(st));
                lemma_finish_run_space(st1, t.drop_first());
            },
            Mode::Esc => {},
            Mode::Sq => {
                assert(st1.mode is Sq);
                lemma_finish_run_space(st1, t.drop_first());
            },
            Mode::Dq => {
                assert(st1.mode is Dq);
                lemma_finish_run_space(st1, t.drop_first());
            },
            Mode::DqEsc => {
                assert(st1.mode is Dq);
                lemma_finish_run_space(st1, t.drop_first());
            },
        }
    }
}

/// Trailing whitespace never adds an empty trailing word, nor changes
/// the outcome at all — unless the string ends in a lone backslash,
/// which would escape the added whitespace instead.
pub proof fn lemma_split_trailing_whitespace(s: Seq<char>, t: Seq<char>)
    requires
        !(run(init_st(), s).mode is Esc),
        forall|i: int| 0 <= i < t.len() ==> is_space_char(t[i]),
    ensures
        split_spec(s + t) == split_spec(s),
{
    lemma_run_concat(init_st(), s, t);
    lemma_finish_run_space(run(init_st(), s), t);
}

/// Splitting a string of nothing but whitespace — the empty string
/// included — succeeds with the empty sequence of words.
pub proof fn lemma_split_whitespace(s: Seq<char>)
    requires
        forall|i: int| 0 <= i < s.len() ==> is_space_char(s[i]),
    ensures
        split_spec(s) == Some(Seq::<Seq<char>>::empty()),
{
    lemma_run_all_space(s);
}

} // verus!
