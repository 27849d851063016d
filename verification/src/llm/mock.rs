//! A scripted model for tests: hand it replies, and it returns them in order while
//! recording every prompt it was given.
use crate::error::Error;
use crate::llm::Prompt;
use std::collections::VecDeque;
use vstd::prelude::*;
use vstd::string::StringExecFns;

verus! {

/// What a scripted model answers: the next reply, or the message of the error it
/// gives once the script has run out.
pub open spec fn scripted_answer(pending: Seq<Seq<char>>, prompt: Prompt) -> core::result::Result<
    Seq<char>,
    Seq<char>,
> {
    if pending.len() > 0 {
        Ok(pending[0])
    } else {
        Err("MockLlm ran out of replies at stage '"@ + prompt.stage@ + "'"@)
    }
}

/// The replies still to come after answering `prompt`.
pub open spec fn scripted_rest(pending: Seq<Seq<char>>) -> Seq<Seq<char>> {
    if pending.len() > 0 {
        pending.drop_first()
    } else {
        pending
    }
}

/// The answers a script gives to a run of prompts, one after another.
pub open spec fn scripted_answers(pending: Seq<Seq<char>>, prompts: Seq<Prompt>) -> Seq<
    core::result::Result<Seq<char>, Seq<char>>,
>
    decreases prompts.len(),
{
    if prompts.len() == 0 {
        seq![]
    } else {
        seq![scripted_answer(pending, prompts[0])] + scripted_answers(
            scripted_rest(pending),
            prompts.drop_first(),
        )
    }
}

/// A scripted `Llm` for tests.
pub struct MockLlm {
    /// The replies still to come, the next one first.
    replies: VecDeque<String>,
    seen: Vec<Prompt>,
}

impl MockLlm {
    /// The replies not yet handed out, in order.
    pub closed spec fn pending(self) -> Seq<Seq<char>> {
        self.replies@.map_values(|s: String| s@)
    }

    /// Every prompt received so far, in order.
    pub closed spec fn seen(self) -> Seq<Prompt> {
        self.seen@
    }

    pub fn new(replies: Vec<String>) -> (r: Self)
        ensures
            r.pending() == replies@.map_values(|s: String| s@),
            r.seen() == Seq::<Prompt>::empty(),
    {
        let mut queue: VecDeque<String> = VecDeque::new();
        let mut rest = replies;
        let ghost all = rest@;
        while rest.len() > 0
            invariant
                queue@ + rest@ == all,
            decreases rest@.len(),
        {
            let ghost before = rest@;
            let first = rest.remove(0);
            assert(before == seq![first] + rest@);
            queue.push_back(first);
            assert(queue@ + rest@ =~= all);
        }
        assert(queue@ =~= all);
        MockLlm { replies: queue, seen: Vec::new() }
    }

    /// Records the prompt and returns the next scripted reply.
    pub fn complete(&mut self, prompt: &Prompt) -> (r: Result<String, Error>)
        ensures
            final(self).seen() == old(self).seen().push(*prompt),
            final(self).pending() == scripted_rest(old(self).pending()),
            match scripted_answer(old(self).pending(), *prompt) {
                Ok(reply) => r matches Ok(s) && s@ == reply,
                Err(message) => r matches Err(Error::Input(m)) && m@ == message,
            },
    {
        self.seen.push(prompt.clone());
        match self.replies.pop_front() {
            Some(reply) => {
                assert(self.pending() =~= old(self).pending().drop_first());
                Ok(reply)
            },
            None => {
                let mut m = String::from_str("MockLlm ran out of replies at stage '");
                m.append(prompt.stage);
                m.append("'");
                Err(Error::Input(m))
            },
        }
    }

    /// Stages, in the order they were called.
    pub fn stages(&self) -> (r: Vec<&'static str>)
        ensures
            r@ == self.seen().map_values(|p: Prompt| p.stage),
    {
        let mut r: Vec<&'static str> = Vec::new();
        let mut i: usize = 0;
        while i < self.seen.len()
            invariant
                i <= self.seen@.len(),
                r@ == self.seen@.subrange(0, i as int).map_values(|p: Prompt| p.stage),
            decreases self.seen@.len() - i,
        {
            r.push(self.seen[i].stage);
            i = i + 1;
            assert(r@ =~= self.seen@.subrange(0, i as int).map_values(|p: Prompt| p.stage));
        }
        assert(self.seen@.subrange(0, i as int) =~= self.seen@);
        r
    }

    /// Every prompt received so far, in order.
    pub fn prompts(&self) -> (r: Vec<Prompt>)
        ensures
            r@ == self.seen(),
    {
        let mut r: Vec<Prompt> = Vec::new();
        let mut i: usize = 0;
        while i < self.seen.len()
            invariant
                i <= self.seen@.len(),
                r@ == self.seen@.subrange(0, i as int),
            decreases self.seen@.len() - i,
        {
            r.push(self.seen[i].clone());
            i = i + 1;
            assert(r@ =~= self.seen@.subrange(0, i as int));
        }
        assert(self.seen@.subrange(0, i as int) =~= self.seen@);
        r
    }

    /// Identifier used in cache keys.
    pub fn id(&self) -> (r: String)
        ensures
            r@ == "mock"@,
    {
        String::from_str("mock")
    }
}

/// The replies still to come after `k` calls.
pub open spec fn rest_after(pending: Seq<Seq<char>>, k: nat) -> Seq<Seq<char>>
    decreases k,
{
    if k == 0 {
        pending
    } else {
        scripted_rest(rest_after(pending, (k - 1) as nat))
    }
}

proof fn lemma_rest_after(pending: Seq<Seq<char>>, k: nat)
    ensures
        rest_after(pending, k) == (if k <= pending.len() {
            pending.skip(k as int)
        } else {
            Seq::<Seq<char>>::empty()
        }),
    decreases k,
{
    if k > 0 {
        lemma_rest_after(pending, (k - 1) as nat);
        if k <= pending.len() {
            assert(pending.skip(k - 1).drop_first() =~= pending.skip(k as int));
        } else if k - 1 == pending.len() {
            assert(pending.skip(k - 1) =~= Seq::<Seq<char>>::empty());
        }
    } else {
        assert(pending.skip(0) =~= pending);
    }
}

/// A mock made with `replies` answers its `k`-th call (counting from 0), whatever
/// came before, with `replies[k]` while there is one and with the running-out error,
/// naming the stage of that call, after; each call uses up one reply.
pub proof fn the_kth_call_gets_the_kth_reply(replies: Seq<Seq<char>>, k: nat, prompt: Prompt)
    ensures
        scripted_answer(rest_after(replies, k), prompt) == if k < replies.len() {
            Ok::<Seq<char>, Seq<char>>(replies[k as int])
        } else {
            Err::<Seq<char>, Seq<char>>(
                "MockLlm ran out of replies at stage '"@ + prompt.stage@ + "'"@,
            )
        },
        rest_after(replies, k + 1) == scripted_rest(rest_after(replies, k)),
{
    lemma_rest_after(replies, k);
    if k < replies.len() {
        assert(replies.skip(k as int)[0] == replies[k as int]);
    }
}

/// A script of replies answers a run of prompts with its replies in order, one per
/// prompt, and with the running-out error for every prompt after the last reply.
pub proof fn script_is_replayed_in_order(replies: Seq<Seq<char>>, prompts: Seq<Prompt>)
    ensures
        scripted_answers(replies, prompts).len() == prompts.len(),
        forall|i: int|
            0 <= i < prompts.len() ==> #[trigger] scripted_answers(replies, prompts)[i] == if i
                < replies.len() {
                Ok::<Seq<char>, Seq<char>>(replies[i])
            } else {
                Err::<Seq<char>, Seq<char>>(
                    "MockLlm ran out of replies at stage '"@ + prompts[i].stage@ + "'"@,
                )
            },
    decreases prompts.len(),
{
    if prompts.len() > 0 {
        script_is_replayed_in_order(scripted_rest(replies), prompts.drop_first());
        let all = scripted_answers(replies, prompts);
        let rest = scripted_answers(scripted_rest(replies), prompts.drop_first());
        assert forall|i: int| 0 <= i < prompts.len() implies #[trigger] all[i] == if i
            < replies.len() {
            Ok::<Seq<char>, Seq<char>>(replies[i])
        } else {
            Err::<Seq<char>, Seq<char>>(
                "MockLlm ran out of replies at stage '"@ + prompts[i].stage@ + "'"@,
            )
        } by {
            if i > 0 {
                assert(all[i] == rest[i - 1]);
                assert(prompts.drop_first()[i - 1] == prompts[i]);
                if i < replies.len() {
                    assert(scripted_rest(replies)[i - 1] == replies[i]);
                }
            }
        }
    }
}

} // verus!
