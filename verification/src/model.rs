//! The data the pipeline passes around: what was asked, what it was resolved to,
//! and the finished explanation.
use vstd::prelude::*;

verus! {

/// How deep the explanation should go.
#[derive(Debug, Clone, Copy, PartialEq, Eq, Structural)]
pub enum Level {
    /// Explain it to a curious 5-year-old: pure intuition, no jargon.
    Five,
    /// Explain it to a sharp 15-year-old: intuition plus the real mechanics.
    Fifteen,
    /// Explain it to a working engineer: precise, with trade-offs and edge cases.
    Expert,
}

pub open spec fn audience_text(level: Level) -> Seq<char> {
    match level {
        Level::Five => "a curious 5-year-old who knows nothing about computers"@,
        Level::Fifteen => "a sharp 15-year-old who has written a little code"@,
        Level::Expert => "a working software engineer who wants precision and trade-offs"@,
    }
}

pub open spec fn jargon_text(level: Level) -> Seq<char> {
    match level {
        Level::Five => "Use zero jargon. Every word must be one the audience already knows."@,
        Level::Fifteen => "Introduce at most three technical terms, and define each one the first time it appears."@,
        Level::Expert => "Use correct technical vocabulary freely, but never hide behind it - each term must do real work."@,
    }
}

/// The level as the user writes it on the command line (its `Display` form).
pub open spec fn level_text(level: Level) -> Seq<char> {
    match level {
        Level::Five => "5"@,
        Level::Fifteen => "15"@,
        Level::Expert => "expert"@,
    }
}

impl Level {
    /// Who the explanation is addressed to.
    pub fn audience(self) -> (r: &'static str)
        ensures
            r@ == audience_text(self),
    {
        match self {
            Level::Five => "a curious 5-year-old who knows nothing about computers",
            Level::Fifteen => "a sharp 15-year-old who has written a little code",
            Level::Expert => "a working software engineer who wants precision and trade-offs",
        }
    }

    /// How much technical vocabulary the explanation may use.
    pub fn jargon_policy(self) -> (r: &'static str)
        ensures
            r@ == jargon_text(self),
    {
        match self {
            Level::Five => "Use zero jargon. Every word must be one the audience already knows.",
            Level::Fifteen => {
                "Introduce at most three technical terms, and define each one the first time it appears."
            },
            Level::Expert => {
                "Use correct technical vocabulary freely, but never hide behind it - each term must do real work."
            },
        }
    }

    /// The level's display form: `5`, `15` or `expert`.
    pub fn label(self) -> (r: &'static str)
        ensures
            r@ == level_text(self),
    {
        match self {
            Level::Five => "5",
            Level::Fifteen => "15",
            Level::Expert => "expert",
        }
    }
}

/// What the user asked for, before any model has looked at it.
#[derive(Debug)]
pub struct Request {
    /// The raw concept string, e.g. "CAP theorem".
    pub query: String,
    /// Optional extra context, e.g. a snippet of source code to ground the explanation in.
    pub context: Option<String>,
    pub level: Level,
}

impl Clone for Request {
    fn clone(&self) -> (r: Self)
        ensures
            r == *self,
    {
        Request {
            query: self.query.clone(),
            context: match &self.context {
                Some(c) => Some(c.clone()),
                None => None,
            },
            level: self.level,
        }
    }
}

/// The concept after disambiguation.
#[derive(Debug, Clone)]
pub struct Topic {
    /// The canonical name of the concept, e.g. "CAP theorem (distributed systems)".
    pub canonical: String,
    /// The field the concept belongs to, used to keep analogies on-domain.
    pub domain: String,
    /// Readings that were considered and rejected, so the user can correct us.
    pub other_readings: Vec<String>,
    /// The request the topic was resolved from.
    pub request: Option<Box<Request>>,
}

#[derive(Debug, Clone)]
pub struct CodeExample {
    pub language: String,
    pub code: String,
    pub commentary: String,
}

#[derive(Debug, Clone)]
pub struct Citation {
    pub title: String,
    pub url: Option<String>,
    /// Which claim in the explanation this source backs up.
    pub supports: String,
}

/// The finished artifact. This is what `--json` prints, and what the cache stores.
#[derive(Debug, Clone)]
pub struct Explanation {
    pub topic: String,
    pub level: Level,
    /// One sentence a reader could repeat back from memory.
    pub summary: String,
    /// The main explanation, in plain language.
    pub plain: String,
    /// A single concrete analogy. Empty string means the explainer chose not to use one.
    pub analogy: String,
    /// Where the analogy stops being true. This is the whole point of the tool.
    pub analogy_limits: Vec<String>,
    pub example: Option<CodeExample>,
    /// Inaccuracies the critic found and fixed, kept for transparency.
    pub corrections: Vec<String>,
    /// Claims the critic could not verify. Read these with suspicion.
    pub caveats: Vec<String>,
    pub citations: Vec<Citation>,
}

/// The views of a list of strings.
pub open spec fn texts(v: Seq<String>) -> Seq<Seq<char>> {
    v.map_values(|s: String| s@)
}

} // verus!
