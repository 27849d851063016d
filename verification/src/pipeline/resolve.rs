//! Stage 1: work out which concept the user actually meant.
use crate::error::Error;
use crate::llm::{malformed_reply, Prompt};
use crate::model::{Request, Topic};
use vstd::prelude::*;
use vstd::string::StringExecFns;

verus! {

pub const RESOLVE_SYSTEM: &'static str = "\
You disambiguate software engineering terms. Many terms mean different things in \
different fields - 'closure' in JavaScript is not 'closure' in mathematics, and \
'transaction' in a database is not 'transaction' in a message queue.

Pick the single reading the user most likely meant. If they supplied code context, let \
that decide. Reply with JSON only, no prose, using exactly this shape:

{
  \"canonical\": \"the concept's precise name, qualified by field if ambiguous\",
  \"domain\": \"the field it belongs to, e.g. distributed systems\",
  \"other_readings\": [\"readings you rejected, so the user can correct you\"]
}";

/// `intro` followed by the context, or nothing when there is no context.
pub open spec fn context_block(intro: Seq<char>, context: Option<String>) -> Seq<char> {
    match context {
        Some(c) => intro + c@,
        None => seq![],
    }
}

/// The user message of the resolve prompt.
pub open spec fn resolve_user_text(request: Request) -> Seq<char> {
    "Term: "@ + request.query@ + context_block(
        "\n\nThe user is asking about this code:\n"@,
        request.context,
    )
}

/// Appends `intro` and the context, when there is one.
pub fn push_context(out: &mut String, intro: &str, context: &Option<String>)
    ensures
        final(out)@ == old(out)@ + context_block(intro@, *context),
{
    match context {
        Some(c) => {
            out.append(intro);
            out.append(c.as_str());
        },
        None => {
            assert(out@ =~= old(out)@ + context_block(intro@, *context));
        },
    }
}

/// The model-backed resolver.
pub struct LlmResolver<L> {
    llm: L,
}

impl<L> LlmResolver<L> {
    /// The model this stage asks.
    pub closed spec fn model(&self) -> L {
        self.llm
    }

    pub fn new(llm: L) -> (r: Self)
        ensures
            r.model() == llm,
    {
        LlmResolver { llm }
    }

    /// The model this stage asks.
    pub fn llm(&self) -> (r: &L)
        ensures
            *r == self.model(),
    {
        &self.llm
    }

    /// The prompt that asks the model which concept the request means.
    pub fn prompt(&self, request: &Request) -> (r: Prompt)
        ensures
            r.stage@ == "resolve"@,
            r.system@ == RESOLVE_SYSTEM@,
            r.user@ == resolve_user_text(*request),
            r.json,
    {
        let mut user = String::from_str("Term: ");
        user.append(request.query.as_str());
        push_context(&mut user, "\n\nThe user is asking about this code:\n", &request.context);
        Prompt { stage: "resolve", system: String::from_str(RESOLVE_SYSTEM), user, json: true }
    }

    /// The topic read from the model's reply, tied to the request it answers; or,
    /// when the reply was not the JSON asked for, the error that says so.
    pub fn finish(&self, parsed: Result<Topic, String>, raw: &str, request: &Request) -> (r: Result<Topic, Error>)
        ensures
            match parsed {
                Ok(t) => r matches Ok(u) && u.canonical == t.canonical && u.domain == t.domain
                    && u.other_readings == t.other_readings && u.request == Some(Box::new(*request)),
                Err(m) => r matches Err(Error::BadModelJson { stage, raw: rr, source })
                    && stage@ == "resolve"@ && rr@ == raw@ && source == m,
            },
    {
        match parsed {
            Ok(mut topic) => {
                topic.request = Some(Box::new(request.clone()));
                Ok(topic)
            },
            Err(m) => Err(malformed_reply("resolve", raw, m)),
        }
    }
}

} // verus!
