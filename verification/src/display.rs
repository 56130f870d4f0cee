//! How values are written.

use vstd::prelude::*;
use crate::host::{
    Answer, Exchange, Host, Request, Stop, answers_of, grown, heard, lemma_heard_own, reply,
};
use crate::text::{chars_of, string_of};
use crate::value::{LiteralType, Value, lemma_views, views};

verus! {

/// The text of a value, and the record behind it. A number is written by
/// the host; a string and a character stand for themselves; an array is
/// written in brackets, its items parted by a comma and a blank; a function
/// is written as its name and a pair of parentheses.
pub open spec fn written(v: Value, said: Seq<Exchange>, answers: Seq<Answer>) -> Result<
    (Seq<Exchange>, Seq<char>),
    Stop,
>
    decreases v, 0nat,
{
    match v {
        Value::Number(bits) => match reply(said, Request::Text { bits }, answers) {
            Some((s1, Answer::Text(t))) => Ok((s1, t)),
            _ => Err(Stop::Unheard),
        },
        Value::String(s) => Ok((said, s)),
        Value::Char(c) => Ok((said, seq![c])),
        Value::Boolean(b) => Ok(
            (
                said,
                if b {
                    "true"@
                } else {
                    "false"@
                },
            ),
        ),
        Value::Null => Ok((said, "null"@)),
        Value::Array(items) => match joined(items, said, answers, 0) {
            Ok((s1, t)) => Ok((s1, seq!['['] + t + seq![']'])),
            Err(x) => Err(x),
        },
        Value::Any => Ok((said, "any"@)),
        Value::Void => Ok((said, "void"@)),
        Value::Func(c) => Ok((said, c.name.lexeme@ + "()"@)),
        Value::DeclrFunc { name, .. } => Ok((said, name + "()"@)),
    }
}

/// The texts of `items[from..]`, parted by a comma and a blank.
pub open spec fn joined(items: Seq<Value>, said: Seq<Exchange>, answers: Seq<Answer>, from: int) -> Result<
    (Seq<Exchange>, Seq<char>),
    Stop,
>
    decreases items, items.len() - from,
{
    if from < 0 || from >= items.len() {
        Ok((said, Seq::empty()))
    } else {
        match written(items[from], said, answers) {
            Ok((s1, t)) => {
                if from == items.len() - 1 {
                    Ok((s1, t))
                } else {
                    match joined(items, s1, answers, from + 1) {
                        Ok((s2, rest)) => Ok((s2, t + ", "@ + rest)),
                        Err(x) => Err(x),
                    }
                }
            },
            Err(x) => Err(x),
        }
    }
}

/// Appends the characters of `s` to `out`.
pub fn push_text(out: &mut Vec<char>, s: &str)
    ensures
        final(out)@ == old(out)@ + s@,
{
    let chars = chars_of(s);
    let mut i: usize = 0;
    while i < chars.len()
        invariant
            i <= chars@.len(),
            chars@ == s@,
            out@ == old(out)@ + s@.subrange(0, i as int),
        decreases chars@.len() - i,
    {
        out.push(chars[i]);
        i = i + 1;
        assert(out@ =~= old(out)@ + s@.subrange(0, i as int));
    }
    assert(s@.subrange(0, s@.len() as int) =~= s@);
}

/// Whether `out` grew by the text that `written` gives for `v`, for every
/// sequence of answers that begins with those on record.
pub open spec fn wrote(
    v: Value,
    before: Seq<Exchange>,
    after: Seq<Exchange>,
    old_out: Seq<char>,
    out: Seq<char>,
) -> bool {
    forall|answers: Seq<Answer>|
        heard(answers, after) ==> (#[trigger] written(v, before, answers) matches Ok((s, t)) && s
            == after && out == old_out + t)
}

/// Appends the text of `v` to `out`, and what the host was asked to the
/// record.
#[verifier::loop_isolation(false)]
pub fn write_value<'a, H: Host>(
    v: &LiteralType<'a>,
    host: &H,
    out: &mut Vec<char>,
    said: &mut Ghost<Seq<Exchange>>,
)
    ensures
        grown(old(said)@, final(said)@),
        wrote(v@, old(said)@, final(said)@, old(out)@, final(out)@),
    decreases v,
{
    match v {
        LiteralType::Number(bits) => {
            let s = host.number_text(*bits);
            proof {
                said@ = said@.push(
                    Exchange { request: Request::Text { bits: *bits }, answer: Answer::Text(s@) },
                );
            }
            push_text(out, s.as_str());
        },
        LiteralType::String(s) => {
            push_text(out, s.as_str());
        },
        LiteralType::Char(c) => {
            out.push(*c);
            assert(out@ =~= old(out)@ + seq![*c]);
        },
        LiteralType::Boolean(b) => {
            if *b {
                push_text(out, "true");
            } else {
                push_text(out, "false");
            }
        },
        LiteralType::Null => {
            push_text(out, "null");
        },
        LiteralType::Array(items) => {
            out.push('[');
            let ghost vals = views(items@);
            proof {
                lemma_views(items@);
            }
            let ghost start = out@;
            let mut i: usize = 0;
            while i < items.len()
                invariant
                    i <= items@.len(),
                    v@ == Value::Array(vals),
                    vals.len() == items@.len(),
                    forall|j: int| 0 <= j < items@.len() ==> #[trigger] vals[j] == items@[j]@,
                    grown(old(said)@, said@),
                    forall|answers: Seq<Answer>|
                        heard(answers, said@) ==> match (
                            #[trigger] joined(vals, old(said)@, answers, 0),
                            joined(vals, said@, answers, i as int),
                        ) {
                            (Ok((s, t)), Ok((s1, rest))) => s == s1 && start + t == out@ + rest,
                            (Err(x), Err(y)) => x == y,
                            _ => false,
                        },
                decreases items@.len() - i,
            {
                proof {
                    vstd::std_specs::vec::axiom_vec_index_decreases(*items, i as int);
                }
                let ghost before = out@;
                let ghost was = said@;
                write_value(&items[i], host, out, said);
                let ghost item = out@;
                if i != items.len() - 1 {
                    push_text(out, ", ");
                }
                proof {
                    assert forall|answers: Seq<Answer>| heard(answers, said@) implies match (
                        #[trigger] joined(vals, old(said)@, answers, 0),
                        joined(vals, said@, answers, i + 1),
                    ) {
                        (Ok((s, t)), Ok((s1, rest))) => s == s1 && start + t == out@ + rest,
                        (Err(x), Err(y)) => x == y,
                        _ => false,
                    } by {
                        assert(heard(answers, was));
                        let now = joined(vals, was, answers, i as int);
                        let here = written(vals[i as int], was, answers);
                        assert(here matches Ok((s, t)) && s == said@ && item == before + t);
                        let t = here->Ok_0.1;
                        let next = joined(vals, said@, answers, i + 1);
                        if i == items@.len() - 1 {
                            assert(next == Ok::<(Seq<Exchange>, Seq<char>), Stop>(
                                (said@, Seq::empty()),
                            ));
                            assert(now == Ok::<(Seq<Exchange>, Seq<char>), Stop>((said@, t)));
                            assert(out@ + Seq::<char>::empty() =~= before + t);
                        } else {
                            match next {
                                Ok((s2, rest)) => {
                                    assert(now == Ok::<(Seq<Exchange>, Seq<char>), Stop>(
                                        (s2, t + ", "@ + rest),
                                    ));
                                    assert(out@ + rest =~= before + (t + ", "@ + rest));
                                },
                                Err(_) => {},
                            }
                        }
                    }
                }
                i = i + 1;
            }
            let ghost body = out@;
            out.push(']');
            proof {
                assert forall|answers: Seq<Answer>| heard(answers, said@) implies (
                #[trigger] written(v@, old(said)@, answers) matches Ok((s, t)) && s == said@
                    && out@ == old(out)@ + t) by {
                    let all = joined(vals, old(said)@, answers, 0);
                    let rest = joined(vals, said@, answers, items@.len() as int);
                    assert(rest == Ok::<(Seq<Exchange>, Seq<char>), Stop>((said@, Seq::empty())));
                    let t = all->Ok_0.1;
                    assert(start + t =~= body);
                    assert(out@ =~= old(out)@ + (seq!['['] + t + seq![']']));
                }
            }
        },
        LiteralType::Any => {
            push_text(out, "any");
        },
        LiteralType::Void => {
            push_text(out, "void");
        },
        LiteralType::Func(f) => {
            push_text(out, f.name.lexeme.as_str());
            push_text(out, "()");
            assert(out@ =~= old(out)@ + (f.name.lexeme@ + "()"@));
        },
        LiteralType::DeclrFunc(d) => {
            push_text(out, d.name.as_str());
            push_text(out, "()");
            assert(out@ =~= old(out)@ + (d.name@ + "()"@));
        },
    }
}

/// The text of `v`, and what the host was asked to the record.
pub fn text_of<'a, H: Host>(v: &LiteralType<'a>, host: &H, said: &mut Ghost<Seq<Exchange>>) -> (s:
    String)
    ensures
        grown(old(said)@, final(said)@),
        forall|answers: Seq<Answer>|
            heard(answers, final(said)@) ==> #[trigger] written(v@, old(said)@, answers) == Ok::<
                (Seq<Exchange>, Seq<char>),
                Stop,
            >((final(said)@, s@)),
{
    let mut out: Vec<char> = Vec::new();
    write_value(v, host, &mut out, said);
    proof {
        assert forall|answers: Seq<Answer>| heard(answers, said@) implies #[trigger] written(
            v@,
            old(said)@,
            answers,
        ) == Ok::<(Seq<Exchange>, Seq<char>), Stop>((said@, out@)) by {
            let t = written(v@, old(said)@, answers)->Ok_0.1;
            assert(out@ =~= t);
        }
    }
    string_of(&out)
}

/// The text of `v`: what `written` gives for the answers of the host.
pub fn to_text<'a, H: Host>(v: &LiteralType<'a>, host: &H) -> (s: String)
    ensures
        exists|said: Seq<Exchange>|
            written(v@, Seq::empty(), answers_of(said)) == Ok::<(Seq<Exchange>, Seq<char>), Stop>(
                (said, s@),
            ),
{
    let mut said: Ghost<Seq<Exchange>> = Ghost(Seq::empty());
    let s = text_of(v, host, &mut said);
    proof {
        lemma_heard_own(said@);
    }
    s
}

} // verus!
