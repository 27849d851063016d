//! The one error type of the library, and the message each variant reads as.
use crate::text::{decimal, decimal_string};
use vstd::prelude::*;
use vstd::string::StringExecFns;

verus! {

/// Everything that can go wrong between the command line and a finished explanation.
///
/// Causes that come from other crates (an HTTP failure, a JSON syntax error, an
/// I/O error) are carried as their message text.
#[derive(Debug)]
pub enum Error {
    MissingApiKey,
    Api { provider: String, status: u16, body: String },
    /// The model provider could not be reached; holds the transport's own description.
    Transport(String),
    BadModelJson { stage: &'static str, raw: String, source: String },
    Io { path: String, source: String },
    Input(String),
    /// A pipeline run was handed a stage outcome it was not waiting for.
    OutOfTurn,
}

pub type Result<T> = core::result::Result<T, Error>;

/// What each error reads as when shown to the user.
pub open spec fn error_text(e: Error) -> Seq<char> {
    match e {
        Error::MissingApiKey => "no API key found: set PLAINLY_API_KEY (or pass --api-key)"@,
        Error::Api { provider, status, body } => "the "@ + provider@ + " API returned "@
            + decimal(status as nat) + ": "@ + body@,
        Error::Transport(_) => "could not reach the model provider"@,
        Error::BadModelJson { stage, raw, source } =>
            "the model replied with something that was not valid JSON for stage '"@ + stage@
            + "': "@ + source@ + "\n---\n"@ + raw@ + "\n---"@,
        Error::Io { path, source } => "could not read "@ + path@ + ": "@ + source@,
        Error::Input(message) => message@,
        Error::OutOfTurn => "a stage outcome came out of turn"@,
    }
}

impl Error {
    /// The error's message, as the command line prints it.
    pub fn message(&self) -> (r: String)
        ensures
            r@ == error_text(*self),
    {
        match self {
            Error::MissingApiKey => String::from_str(
                "no API key found: set PLAINLY_API_KEY (or pass --api-key)",
            ),
            Error::Api { provider, status, body } => {
                let mut r = String::from_str("the ");
                r.append(provider.as_str());
                r.append(" API returned ");
                let code = decimal_string(*status as u64);
                r.append(code.as_str());
                r.append(": ");
                r.append(body.as_str());
                r
            },
            Error::Transport(_) => String::from_str("could not reach the model provider"),
            Error::BadModelJson { stage, raw, source } => {
                let mut r = String::from_str(
                    "the model replied with something that was not valid JSON for stage '",
                );
                r.append(stage);
                r.append("': ");
                r.append(source.as_str());
                r.append("\n---\n");
                r.append(raw.as_str());
                r.append("\n---");
                r
            },
            Error::Io { path, source } => {
                let mut r = String::from_str("could not read ");
                r.append(path.as_str());
                r.append(": ");
                r.append(source.as_str());
                r
            },
            Error::Input(message) => message.clone(),
            Error::OutOfTurn => String::from_str("a stage outcome came out of turn"),
        }
    }
}

} // verus!
