//! The prompt that the tool sends to the language model: a fixed preamble,
//! the retrieved passages numbered from 1, and the user's question.

use vstd::prelude::*;

use crate::text::{decimal, occurs_at, occurs_in_extension, push_decimal, push_str};

verus! {

/// How many passages a question retrieves.
pub const TOP_K: usize = 5;

/// The instructions that open every prompt.
pub const PREAMBLE: &'static str = "You are Duck, the most profound duck there ever is. You are precise like a needle and knowledgeable like a saint. Use the provided context to answer accurately. If the context doesn't contain enough information, You have to answer honestly, never under no circumstances make up answers.";

/// The model's answer to a question.
pub struct RagResponse {
    pub response: String,
}

/// The context entry for the passage numbered `number`: ` [number] passage `.
pub open spec fn context_entry(number: nat, passage: Seq<char>) -> Seq<char> {
    " ["@ + decimal(number) + "] "@ + passage + " "@
}

/// The context made of `passages`: their entries, in order, numbered from 1.
pub open spec fn context_of(passages: Seq<Seq<char>>) -> Seq<char>
    decreases passages.len(),
{
    if passages.len() == 0 {
        Seq::empty()
    } else {
        context_of(passages.drop_last()) + context_entry(passages.len(), passages.last())
    }
}

/// The characters of each string of `strings`.
pub open spec fn views_of(strings: Seq<String>) -> Seq<Seq<char>> {
    strings.map_values(|s: String| s@)
}

/// The prompt for `question` with the given context.
pub open spec fn prompt_of(context: Seq<char>, question: Seq<char>) -> Seq<char> {
    "preamble: "@ + PREAMBLE@ + "\nContext: "@ + context + "\n Question: "@ + question
}

/// Adding a passage to the list appends ` [n] passage ` to the context, with
/// `n` the passage's number counted from 1 and the passage whole.
pub proof fn context_appends_passage_whole(passages: Seq<Seq<char>>, passage: Seq<char>)
    ensures
        context_of(passages.push(passage)) == context_of(passages) + " ["@ + decimal(
            passages.len() + 1,
        ) + "] "@ + passage + " "@,
{
    assert(passages.push(passage).drop_last() =~= passages);
    assert(context_of(passages.push(passage)) =~= context_of(passages) + " ["@ + decimal(
        passages.len() + 1,
    ) + "] "@ + passage + " "@);
}

/// Every passage occurs whole in the context, whatever its length: passage
/// `i` starts at the returned position.
pub proof fn context_holds_passage(passages: Seq<Seq<char>>, i: int) -> (at: int)
    requires
        0 <= i < passages.len(),
    ensures
        occurs_at(context_of(passages), passages[i], at),
    decreases passages.len(),
{
    let front = passages.drop_last();
    let last = passages.last();
    context_appends_passage_whole(front, last);
    assert(front.push(last) =~= passages);
    let ctx = context_of(passages);
    let rest = " ["@ + decimal(front.len() + 1) + "] "@ + last + " "@;
    assert(ctx =~= context_of(front) + rest);
    if i < front.len() {
        let at = context_holds_passage(front, i);
        occurs_in_extension(context_of(front), rest, front[i], at);
        at
    } else {
        let at = (context_of(front).len() + " ["@.len() + decimal(front.len() + 1).len()
            + "] "@.len()) as int;
        assert(ctx.subrange(at, at + last.len()) =~= last);
        at
    }
}

/// The prompt holds the context and the question whole: it is the preamble
/// head, then the whole context, then `\n Question: `, then the whole
/// question, and nothing else.
pub proof fn prompt_holds_context_and_question(context: Seq<char>, question: Seq<char>)
    ensures
        ({
            let head = "preamble: "@ + PREAMBLE@ + "\nContext: "@;
            let prompt = prompt_of(context, question);
            &&& prompt.len() == head.len() + context.len() + "\n Question: "@.len()
                + question.len()
            &&& prompt.subrange(0, head.len() as int) == head
            &&& occurs_at(prompt, context, head.len() as int)
            &&& prompt.subrange(prompt.len() - question.len(), prompt.len() as int) == question
        }),
{
    let head = "preamble: "@ + PREAMBLE@ + "\nContext: "@;
    let prompt = prompt_of(context, question);
    assert(prompt =~= head + context + "\n Question: "@ + question);
    assert(prompt.subrange(0, head.len() as int) =~= head);
    assert(prompt.subrange(head.len() as int, (head.len() + context.len()) as int) =~= context);
    assert(prompt.subrange(prompt.len() - question.len(), prompt.len() as int) =~= question);
}

/// The context listing the retrieved passages, each as ` [n] passage `, with
/// `n` counting from 1.
pub fn build_context(passages: &[String]) -> (context: String)
    ensures
        context@ == context_of(views_of(passages@)),
{
    let mut context = String::new();
    let ghost all = views_of(passages@);
    let mut i: usize = 0;
    while i < passages.len()
        invariant
            i <= passages@.len(),
            all == views_of(passages@),
            context@ == context_of(all.take(i as int)),
        decreases passages@.len() - i,
    {
        push_str(&mut context, " [");
        push_decimal(&mut context, i + 1);
        push_str(&mut context, "] ");
        push_str(&mut context, passages[i].as_str());
        push_str(&mut context, " ");
        assert(all.take(i + 1).drop_last() =~= all.take(i as int));
        assert(context@ =~= context_of(all.take(i + 1)));
        i = i + 1;
    }
    assert(all.take(passages@.len() as int) =~= all);
    context
}

/// The prompt for `question`: the preamble, then the context, then the
/// question.
pub fn build_prompt(context: &str, question: &str) -> (prompt: String)
    ensures
        prompt@ == prompt_of(context@, question@),
{
    let mut prompt = String::new();
    push_str(&mut prompt, "preamble: ");
    push_str(&mut prompt, PREAMBLE);
    push_str(&mut prompt, "\nContext: ");
    push_str(&mut prompt, context);
    push_str(&mut prompt, "\n Question: ");
    push_str(&mut prompt, question);
    assert(prompt@ =~= prompt_of(context@, question@));
    prompt
}

} // verus!
