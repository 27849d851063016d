//! Stage 3: attack the explanation for oversimplification, then repair it.
use crate::error::Error;
use crate::llm::{malformed_reply, Prompt};
use crate::model::{level_text, CodeExample, Explanation, Topic};
use vstd::prelude::*;
use vstd::string::StringExecFns;

verus! {

pub const CRITIQUE_SYSTEM: &'static str = "\
You are a technical fact-checker reviewing a simplified explanation. Your job is to catch \
the places where simplifying made it wrong.

Look for:
- Claims that are flatly false.
- Claims that are true only in a common case but stated as universal.
- Analogies that will lead the reader to a wrong prediction about real behaviour.
- Invented APIs, papers, numbers, or history.
- Code that would not compile or run as written.

Repair what you can while keeping the language just as simple. Do not make the writing \
more academic - a fix that adds jargon is a bad fix. Anything you cannot verify goes in \
\"caveats\" rather than being deleted or asserted.

Reply with JSON only, using exactly this shape:

{
  \"summary\": \"corrected\",
  \"plain\": \"corrected\",
  \"analogy\": \"corrected\",
  \"analogy_limits\": [\"corrected and extended\"],
  \"example\": { \"language\": \"...\", \"code\": \"...\", \"commentary\": \"...\" },
  \"corrections\": [\"what you changed and why - empty list if nothing was wrong\"],
  \"caveats\": [\"claims you could not verify\"]
}";

/// What the critique stage reads from the model's reply.
#[derive(Debug)]
pub struct Critiqued {
    pub summary: String,
    pub plain: String,
    pub analogy: String,
    pub analogy_limits: Vec<String>,
    pub example: Option<CodeExample>,
    pub corrections: Vec<String>,
    pub caveats: Vec<String>,
}

/// The user message of the critique prompt; `draft_json` is the draft written as JSON.
pub open spec fn critique_user_text(topic: Topic, draft: Explanation, draft_json: Seq<char>) -> Seq<char> {
    "Concept: "@ + topic.canonical@ + "\nField: "@ + topic.domain@ + "\nAudience level: "@
        + level_text(draft.level) + "\n\nDraft explanation:\n"@ + draft_json
}

/// The repaired explanation: the critic's text, corrections and caveats, under the
/// draft's topic and level and with the draft's citations.
pub open spec fn repaired(e: Explanation, draft: Explanation, v: Critiqued) -> bool {
    &&& e.topic == draft.topic
    &&& e.level == draft.level
    &&& e.summary == v.summary
    &&& e.plain == v.plain
    &&& e.analogy == v.analogy
    &&& e.analogy_limits == v.analogy_limits
    &&& e.example == v.example
    &&& e.corrections == v.corrections
    &&& e.caveats == v.caveats
    &&& e.citations == draft.citations
}

/// The model-backed critic.
pub struct LlmCritic<L> {
    llm: L,
}

impl<L> LlmCritic<L> {
    /// The model this stage asks.
    pub closed spec fn model(&self) -> L {
        self.llm
    }

    pub fn new(llm: L) -> (r: Self)
        ensures
            r.model() == llm,
    {
        LlmCritic { llm }
    }

    /// The model this stage asks.
    pub fn llm(&self) -> (r: &L)
        ensures
            *r == self.model(),
    {
        &self.llm
    }

    /// The prompt that asks the model to fact-check a draft, given as JSON.
    pub fn prompt(&self, topic: &Topic, draft: &Explanation, draft_json: &str) -> (r: Prompt)
        ensures
            r.stage@ == "critique"@,
            r.system@ == CRITIQUE_SYSTEM@,
            r.user@ == critique_user_text(*topic, *draft, draft_json@),
            r.json,
    {
        let mut user = String::from_str("Concept: ");
        user.append(topic.canonical.as_str());
        user.append("\nField: ");
        user.append(topic.domain.as_str());
        user.append("\nAudience level: ");
        user.append(draft.level.label());
        user.append("\n\nDraft explanation:\n");
        user.append(draft_json);
        Prompt { stage: "critique", system: String::from_str(CRITIQUE_SYSTEM), user, json: true }
    }

    /// The repaired explanation read from the model's reply; or, when the reply was
    /// not the JSON asked for, the error that says so.
    pub fn finish(&self, draft: Explanation, parsed: Result<Critiqued, String>, raw: &str) -> (r: Result<Explanation, Error>)
        ensures
            match parsed {
                Ok(v) => r matches Ok(e) && repaired(e, draft, v) && e.summary == v.summary
                    && e.plain == v.plain && e.analogy == v.analogy && e.corrections == v.corrections
                    && e.caveats == v.caveats,
                Err(m) => r matches Err(Error::BadModelJson { stage, raw: rr, source })
                    && stage@ == "critique"@ && rr@ == raw@ && source == m,
            },
    {
        match parsed {
            Ok(v) => Ok(
                Explanation {
                    topic: draft.topic,
                    level: draft.level,
                    summary: v.summary,
                    plain: v.plain,
                    analogy: v.analogy,
                    analogy_limits: v.analogy_limits,
                    example: v.example,
                    corrections: v.corrections,
                    caveats: v.caveats,
                    citations: draft.citations,
                },
            ),
            Err(m) => Err(malformed_reply("critique", raw, m)),
        }
    }
}

/// After a critique the explanation says what the critic wrote, not what the draft
/// said: its summary, plain text, analogy and limits, example, corrections and caveats
/// are the critic's; only its topic, level and citations are the draft's.
pub proof fn the_critic_s_repairs_replace_the_draft(e: Explanation, draft: Explanation, v: Critiqued)
    requires
        repaired(e, draft, v),
    ensures
        e.summary == v.summary,
        e.plain == v.plain,
        e.analogy == v.analogy,
        e.analogy_limits == v.analogy_limits,
        e.example == v.example,
        e.corrections == v.corrections,
        e.caveats == v.caveats,
        e.topic == draft.topic,
        e.level == draft.level,
        e.citations == draft.citations,
{
}

} // verus!
