//! Stage 2: say it simply.
use crate::error::Error;
use crate::llm::{malformed_reply, Prompt};
use crate::model::{audience_text, jargon_text, CodeExample, Explanation, Level, Request, Topic};
use crate::pipeline::resolve::{context_block, push_context};
use vstd::prelude::*;
use vstd::string::StringExecFns;

verus! {

pub const EXPLAIN_SYSTEM: &'static str = "\
You explain software engineering concepts in plain language. Simplicity is the goal, but \
accuracy is the constraint: it is always better to admit something is complicated than to \
say something false.

Rules:
- One analogy, not three. Make it concrete and everyday.
- State plainly where the analogy stops being true. This section is mandatory and must be \
  specific - 'it is not perfect' is useless.
- Prefer short sentences. Cut every word that is not doing work.
- Never invent APIs, papers, numbers, or history. If you are unsure, say so in the text.

Reply with JSON only, using exactly this shape:

{
  \"summary\": \"one sentence the reader could repeat from memory\",
  \"plain\": \"the explanation, 2-5 short paragraphs separated by \\n\\n\",
  \"analogy\": \"one concrete everyday analogy\",
  \"analogy_limits\": [\"specific ways the analogy misleads\"],
  \"example\": { \"language\": \"rust\", \"code\": \"...\", \"commentary\": \"what to notice\" }
}

The \"example\" field may be null when code would not help.";

/// What the explain stage reads from the model's reply.
#[derive(Debug)]
pub struct Draft {
    pub summary: String,
    pub plain: String,
    pub analogy: String,
    pub analogy_limits: Vec<String>,
    pub example: Option<CodeExample>,
}

/// The user message of the explain prompt.
pub open spec fn explain_user_text(topic: Topic, request: Request) -> Seq<char> {
    "Concept: "@ + topic.canonical@ + "\nField: "@ + topic.domain@ + "\n\nExplain it to "@
        + audience_text(request.level) + ".\n"@ + jargon_text(request.level) + context_block(
        "\n\nGround the explanation in this code:\n"@,
        request.context,
    )
}

/// The explanation a draft becomes: named after the resolved topic, at the requested
/// level, with nothing corrected, caveated or cited yet.
pub open spec fn drafted(e: Explanation, topic: Topic, level: Level, d: Draft) -> bool {
    &&& e.topic == topic.canonical
    &&& e.level == level
    &&& e.summary == d.summary
    &&& e.plain == d.plain
    &&& e.analogy == d.analogy
    &&& e.analogy_limits == d.analogy_limits
    &&& e.example == d.example
    &&& e.corrections@.len() == 0
    &&& e.caveats@.len() == 0
    &&& e.citations@.len() == 0
}

/// The model-backed explainer.
pub struct LlmExplainer<L> {
    llm: L,
}

impl<L> LlmExplainer<L> {
    /// The model this stage asks.
    pub closed spec fn model(&self) -> L {
        self.llm
    }

    pub fn new(llm: L) -> (r: Self)
        ensures
            r.model() == llm,
    {
        LlmExplainer { llm }
    }

    /// The model this stage asks.
    pub fn llm(&self) -> (r: &L)
        ensures
            *r == self.model(),
    {
        &self.llm
    }

    /// The prompt that asks for a plain explanation of the topic, pitched at the
    /// requested level and grounded in the request's code, if any.
    pub fn prompt(&self, topic: &Topic, request: &Request) -> (r: Prompt)
        ensures
            r.stage@ == "explain"@,
            r.system@ == EXPLAIN_SYSTEM@,
            r.user@ == explain_user_text(*topic, *request),
            r.json,
    {
        let level: Level = request.level;
        let mut user = String::from_str("Concept: ");
        user.append(topic.canonical.as_str());
        user.append("\nField: ");
        user.append(topic.domain.as_str());
        user.append("\n\nExplain it to ");
        user.append(level.audience());
        user.append(".\n");
        user.append(level.jargon_policy());
        push_context(&mut user, "\n\nGround the explanation in this code:\n", &request.context);
        Prompt { stage: "explain", system: String::from_str(EXPLAIN_SYSTEM), user, json: true }
    }

    /// The explanation read from the model's reply; or, when the reply was not the
    /// JSON asked for, the error that says so.
    pub fn finish(&self, topic: &Topic, request: &Request, parsed: Result<Draft, String>, raw: &str) -> (r: Result<Explanation, Error>)
        ensures
            match parsed {
                Ok(d) => r matches Ok(e) && drafted(e, *topic, request.level, d) && e.example
                    == d.example && e.summary == d.summary && e.plain == d.plain,
                Err(m) => r matches Err(Error::BadModelJson { stage, raw: rr, source })
                    && stage@ == "explain"@ && rr@ == raw@ && source == m,
            },
    {
        match parsed {
            Ok(draft) => Ok(
                Explanation {
                    topic: topic.canonical.clone(),
                    level: request.level,
                    summary: draft.summary,
                    plain: draft.plain,
                    analogy: draft.analogy,
                    analogy_limits: draft.analogy_limits,
                    example: draft.example,
                    corrections: Vec::new(),
                    caveats: Vec::new(),
                    citations: Vec::new(),
                },
            ),
            Err(m) => Err(malformed_reply("explain", raw, m)),
        }
    }
}

/// The drafted explanation carries everything the model drafted, unchanged (summary,
/// plain text, analogy and its limits, and the code example), under the resolved
/// topic's name and the requested level, with no corrections, caveats or citations yet.
pub proof fn the_draft_is_carried_whole(e: Explanation, topic: Topic, level: Level, d: Draft)
    requires
        drafted(e, topic, level, d),
    ensures
        e.example == d.example,
        e.summary == d.summary,
        e.plain == d.plain,
        e.analogy == d.analogy,
        e.analogy_limits == d.analogy_limits,
        e.topic == topic.canonical,
        e.level == level,
        e.corrections@.len() == 0,
        e.caveats@.len() == 0,
        e.citations@.len() == 0,
{
}

} // verus!
