//! The escaper and the joiner: rendering literal strings so that the
//! tokenizer reads them back unchanged.

use vstd::prelude::*;
use vstd::string::StrSliceExecFns;
use vstd::string::StringExecFns;
use crate::classes::char_is_safe;
use crate::classes::is_safe_char;

verus! {

/// How one literal character is rendered: a newline becomes a
/// single-quoted newline, a safe character stands bare, and anything
/// else is prefixed with a backslash.
pub open spec fn escape_char(c: char) -> Seq<char> {
    if c == '\n' {
        seq!['\'', '\n', '\'']
    } else if is_safe_char(c) {
        seq![c]
    } else {
        seq!['\\', c]
    }
}

/// The renderings of all characters of `s`, concatenated.
pub open spec fn escape_chars(s: Seq<char>) -> Seq<char>
    decreases s.len(),
{
    if s.len() == 0 {
        Seq::empty()
    } else {
        escape_char(s[0]) + escape_chars(s.drop_first())
    }
}

/// What the escaper returns: an empty single-quoted span for the empty
/// string, the per-character renderings otherwise.
pub open spec fn escape_spec(s: Seq<char>) -> Seq<char> {
    if s.len() == 0 {
        seq!['\'', '\'']
    } else {
        escape_chars(s)
    }
}

/// What the joiner returns: the escaped elements, separated by single
/// spaces.
pub open spec fn join_spec(l: Seq<Seq<char>>) -> Seq<char>
    decreases l.len(),
{
    if l.len() == 0 {
        Seq::empty()
    } else if l.len() == 1 {
        escape_spec(l[0])
    } else {
        escape_spec(l[0]) + seq![' '] + join_spec(l.drop_first())
    }
}

/// Escaping one more character extends the rendering at the end.
pub proof fn lemma_escape_chars_snoc(s: Seq<char>, c: char)
    ensures
        escape_chars(s.push(c)) == escape_chars(s) + escape_char(c),
    decreases s.len(),
{
    if s.len() == 0 {
        assert(s.push(c)[0] == c);
        assert(s.push(c).drop_first() =~= Seq::<char>::empty());
        assert(escape_chars(s.push(c)) == escape_char(c) + escape_chars(Seq::<char>::empty()));
        assert(escape_char(c) + escape_chars(Seq::<char>::empty()) =~= escape_char(c));
        assert(escape_chars(s) + escape_char(c) =~= escape_char(c));
    } else {
        assert(s.push(c)[0] == s[0]);
        assert(s.push(c).drop_first() =~= s.drop_first().push(c));
        lemma_escape_chars_snoc(s.drop_first(), c);
        assert(escape_char(s[0]) + (escape_chars(s.drop_first()) + escape_char(c)) =~= (
        escape_char(s[0]) + escape_chars(s.drop_first())) + escape_char(c));
    }
}

/// Joining one more literal appends a space and its escaped form.
pub proof fn lemma_join_spec_snoc(l: Seq<Seq<char>>, w: Seq<char>)
    ensures
        l.len() == 0 ==> join_spec(l.push(w)) == escape_spec(w),
        l.len() > 0 ==> join_spec(l.push(w)) == join_spec(l) + seq![' '] + escape_spec(w),
    decreases l.len(),
{
    if l.len() == 0 {
        assert(l.push(w)[0] == w);
    } else if l.len() == 1 {
        assert(l.push(w)[0] == l[0]);
        assert(l.push(w).drop_first() =~= seq![w]);
        assert(join_spec(seq![w]) == escape_spec(w));
    } else {
        assert(l.push(w)[0] == l[0]);
        assert(l.push(w).drop_first() =~= l.drop_first().push(w));
        lemma_join_spec_snoc(l.drop_first(), w);
        assert(escape_spec(l[0]) + seq![' '] + (join_spec(l.drop_first()) + seq![' ']
            + escape_spec(w)) =~= (escape_spec(l[0]) + seq![' '] + join_spec(l.drop_first()))
            + seq![' '] + escape_spec(w));
    }
}

/// Relies on `String: FromIterator<char>`: collecting characters builds
/// the string of exactly those characters, in order.
#[verifier::external_body]
pub(crate) fn chars_to_string(v: &Vec<char>) -> (r: String)
    ensures
        r@ == v@,
{
    v.iter().collect()
}

/// Escapes a string so the tokenizer reads it as a single word equal to
/// the input. The empty string becomes `''`; every character outside the
/// safe-unescaped set is prefixed with a backslash, except the newline,
/// which is wrapped in single quotes.
pub fn escape(input: &str) -> (r: String)
    ensures
        r@ == escape_spec(input@),
{
    let n = input.unicode_len();
    if n == 0 {
        let r = "''".to_owned();
        proof {
            reveal_strlit("''");
            assert(r@ =~= seq!['\'', '\'']);
        }
        return r;
    }
    let mut out: Vec<char> = Vec::new();
    for i in 0..n
        invariant
            n == input@.len(),
            out@ == escape_chars(input@.subrange(0, i as int)),
    {
        let c = input.get_char(i);
        if c == '\n' {
            out.push('\'');
            out.push('\n');
            out.push('\'');
        } else if char_is_safe(c) {
            out.push(c);
        } else {
            out.push('\\');
            out.push(c);
        }
        proof {
            assert(input@.subrange(0, i + 1) =~= input@.subrange(0, i as int).push(input@[i as int]));
            lemma_escape_chars_snoc(input@.subrange(0, i as int), input@[i as int]);
        }
    }
    proof {
        assert(input@.subrange(0, n as int) =~= input@);
    }
    chars_to_string(&out)
}

/// Builds one command line from a list of arguments: each argument is
/// escaped, and the escaped forms are joined with single spaces.
pub fn join(args: &[&str]) -> (r: String)
    ensures
        r@ == join_spec(args.deep_view()),
{
    let mut out = String::new();
    let n = args.len();
    for i in 0..n
        invariant
            n == args@.len(),
            out@ == join_spec(args.deep_view().subrange(0, i as int)),
    {
        if i > 0 {
            out.append(" ");
            proof {
                reveal_strlit(" ");
                assert(" "@ =~= seq![' ']);
            }
        }
        let e = escape(args[i]);
        out.append(e.as_str());
        proof {
            let dv = args.deep_view();
            assert(dv[i as int] == args@[i as int]@);
            assert(dv.subrange(0, i + 1) =~= dv.subrange(0, i as int).push(dv[i as int]));
            lemma_join_spec_snoc(dv.subrange(0, i as int), dv[i as int]);
            if i > 0 {
                assert(out@ =~= join_spec(dv.subrange(0, i + 1)));
            } else {
                assert(out@ =~= join_spec(dv.subrange(0, i + 1)));
            }
        }
    }
    proof {
        assert(args.deep_view().subrange(0, n as int) =~= args.deep_view());
    }
    out
}

} // verus!
