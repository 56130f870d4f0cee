//! The host: what the evaluator asks of the program it is embedded in.
//!
//! The host provides the functions that were registered with the
//! environment, and all arithmetic on doubles. Nothing is known of what it
//! answers. So the meaning of a program is stated for every sequence of
//! answers that a host may give: the evaluator takes each answer as it
//! comes, and keeps a record of what was asked and answered.

use vstd::prelude::*;
use crate::errors::Failure;
use crate::token::TokenType;
use crate::value::{LiteralType, Value};

verus! {

/// What the evaluator asks of its host.
pub trait Host {
    /// Runs the host function `func` on `args`.
    fn call<'a>(&mut self, func: usize, args: &Vec<LiteralType<'a>>) -> LiteralType<'a>;

    /// The double nearest to the number that the digits `whole`, a point
    /// and the digits `fraction` spell in `base`, as its bit pattern.
    fn to_number(&self, base: u8, whole: &Vec<u8>, fraction: &Vec<u8>) -> u64;

    /// What the operator `op` gives on the doubles `left` and `right`.
    fn number_op<'a>(&self, op: TokenType, left: u64, right: u64) -> LiteralType<'a>;

    /// How the double `bits` is written.
    fn number_text(&self, bits: u64) -> String;
}

/// A question to the host.
pub enum Request {
    /// The call of a host function.
    Call { func: usize, args: Seq<Value> },
    /// The double that a numeric literal denotes.
    Number { base: u8, whole: Seq<u8>, fraction: Seq<u8> },
    /// An operator on two doubles.
    Operate { op: TokenType, left: u64, right: u64 },
    /// The text of a double.
    Text { bits: u64 },
}

/// What the host said.
pub enum Answer {
    Value(Value),
    Bits(u64),
    Text(Seq<char>),
}

/// A question and its answer.
pub struct Exchange {
    pub request: Request,
    pub answer: Answer,
}

/// Whether `answers` begins with the answers that were given in `said`.
pub open spec fn heard(answers: Seq<Answer>, said: Seq<Exchange>) -> bool {
    &&& said.len() <= answers.len()
    &&& forall|i: int| 0 <= i < said.len() ==> #[trigger] answers[i] == said[i].answer
}

/// Whether the record `after` continues the record `before`.
pub open spec fn grown(before: Seq<Exchange>, after: Seq<Exchange>) -> bool {
    &&& before.len() <= after.len()
    &&& forall|i: int| 0 <= i < before.len() ==> #[trigger] after[i] == before[i]
}

/// Why an evaluation went no further: it failed, or the answers ran out.
/// The second never happens to a running evaluator, which hears every
/// answer before it goes on.
pub enum Stop {
    Failed(Failure),
    Unheard,
}

/// The next answer, and the record with the question and that answer at
/// its end.
pub open spec fn reply(said: Seq<Exchange>, request: Request, answers: Seq<Answer>) -> Option<
    (Seq<Exchange>, Answer),
> {
    if said.len() < answers.len() {
        let answer = answers[said.len() as int];
        Some((said.push(Exchange { request, answer }), answer))
    } else {
        None
    }
}

/// The answers of a record.
pub open spec fn answers_of(said: Seq<Exchange>) -> Seq<Answer> {
    Seq::new(said.len(), |i: int| said[i].answer)
}

/// A record begins with its own answers.
pub proof fn lemma_heard_own(said: Seq<Exchange>)
    ensures
        heard(answers_of(said), said),
{
}

/// A record that continues another has heard all that the other has.
pub proof fn lemma_heard_before(answers: Seq<Answer>, before: Seq<Exchange>, after: Seq<Exchange>)
    requires
        heard(answers, after),
        grown(before, after),
    ensures
        heard(answers, before),
{
}

} // verus!
