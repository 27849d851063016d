//! Stage 4 (optional): attach sources for the load-bearing claims.
use crate::error::Error;
use crate::llm::{malformed_reply, Prompt};
use crate::model::{Citation, Explanation, Topic};
use vstd::prelude::*;
use vstd::string::StringExecFns;

verus! {

pub const GROUND_SYSTEM: &'static str = "\
You attach sources to an explanation. Only cite documents you are confident exist: \
language references, RFCs, published papers, or official project documentation.

An empty list is a correct answer. A fabricated URL is a serious failure - if you are not \
sure of the address, give the title and set \"url\" to null.

Reply with JSON only, using exactly this shape:

{
  \"citations\": [
    { \"title\": \"...\", \"url\": \"... or null\", \"supports\": \"which claim this backs up\" }
  ]
}";

/// What the ground stage reads from the model's reply.
#[derive(Debug)]
pub struct Grounded {
    pub citations: Vec<Citation>,
}

/// The user message of the ground prompt.
pub open spec fn ground_user_text(topic: Topic, draft: Explanation) -> Seq<char> {
    "Concept: "@ + topic.canonical@ + "\nField: "@ + topic.domain@ + "\n\nExplanation:\n"@
        + draft.plain@ + "\n\n"@ + draft.summary@
}

/// The draft with its citations replaced and everything else kept.
pub open spec fn cited(e: Explanation, draft: Explanation, citations: Vec<Citation>) -> bool {
    e == Explanation { citations, ..draft }
}

/// The model-backed grounder.
pub struct LlmGrounder<L> {
    llm: L,
}

impl<L> LlmGrounder<L> {
    /// The model this stage asks.
    pub closed spec fn model(&self) -> L {
        self.llm
    }

    pub fn new(llm: L) -> (r: Self)
        ensures
            r.model() == llm,
    {
        LlmGrounder { llm }
    }

    /// The model this stage asks.
    pub fn llm(&self) -> (r: &L)
        ensures
            *r == self.model(),
    {
        &self.llm
    }

    /// The prompt that asks for sources behind the explanation.
    pub fn prompt(&self, topic: &Topic, draft: &Explanation) -> (r: Prompt)
        ensures
            r.stage@ == "ground"@,
            r.system@ == GROUND_SYSTEM@,
            r.user@ == ground_user_text(*topic, *draft),
            r.json,
    {
        let mut user = String::from_str("Concept: ");
        user.append(topic.canonical.as_str());
        user.append("\nField: ");
        user.append(topic.domain.as_str());
        user.append("\n\nExplanation:\n");
        user.append(draft.plain.as_str());
        user.append("\n\n");
        user.append(draft.summary.as_str());
        Prompt { stage: "ground", system: String::from_str(GROUND_SYSTEM), user, json: true }
    }

    /// The draft with the citations read from the model's reply; or, when the reply
    /// was not the JSON asked for, the error that says so.
    pub fn finish(&self, draft: Explanation, parsed: Result<Grounded, String>, raw: &str) -> (r: Result<Explanation, Error>)
        ensures
            match parsed {
                Ok(g) => r matches Ok(e) && cited(e, draft, g.citations),
                Err(m) => r matches Err(Error::BadModelJson { stage, raw: rr, source })
                    && stage@ == "ground"@ && rr@ == raw@ && source == m,
            },
    {
        match parsed {
            Ok(g) => Ok(Explanation { citations: g.citations, ..draft }),
            Err(m) => Err(malformed_reply("ground", raw, m)),
        }
    }
}

/// Grounding changes only the sources: the grounded explanation has the citations
/// the grounder returned, and every other part exactly as the draft had it.
pub proof fn grounding_only_adds_sources(e: Explanation, draft: Explanation, citations: Vec<Citation>)
    requires
        cited(e, draft, citations),
    ensures
        e.citations == citations,
        e.topic == draft.topic,
        e.level == draft.level,
        e.summary == draft.summary,
        e.plain == draft.plain,
        e.analogy == draft.analogy,
        e.analogy_limits == draft.analogy_limits,
        e.example == draft.example,
        e.corrections == draft.corrections,
        e.caveats == draft.caveats,
{
}

} // verus!
