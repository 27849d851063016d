//! The decisions of a client for any OpenAI-compatible `/chat/completions` endpoint:
//! where it posts, what it calls itself, and how it reads the provider's answer.
//! The HTTP exchange itself is made by the binary.
use crate::error::Error;
use crate::text::{chars_of, concat2, owned, string_of_range};
use vstd::prelude::*;
use vstd::string::StringExecFns;

verus! {

/// `s` without its trailing `/` characters (`str::trim_end_matches('/')`).
pub open spec fn without_trailing_slashes(s: Seq<char>) -> Seq<char>
    decreases s.len(),
{
    if s.len() > 0 && s.last() == '/' {
        without_trailing_slashes(s.drop_last())
    } else {
        s
    }
}

/// The base URL as the client keeps it: without trailing slashes.
pub fn normalize_base_url(base_url: &str) -> (r: String)
    ensures
        r@ == without_trailing_slashes(base_url@),
{
    let v = chars_of(base_url);
    let mut n = v.len();
    assert(v@.subrange(0, n as int) =~= v@);
    while n > 0 && v[n - 1] == '/'
        invariant
            n <= v@.len(),
            without_trailing_slashes(v@) == without_trailing_slashes(v@.subrange(0, n as int)),
        decreases n,
    {
        assert(v@.subrange(0, n as int).drop_last() =~= v@.subrange(0, n - 1));
        n = n - 1;
    }
    proof {
        let s = v@.subrange(0, n as int);
        if n > 0 {
            assert(s.last() == v@[n - 1]);
        }
    }
    string_of_range(&v, 0, n)
}

/// The endpoint a completion is posted to.
pub fn completions_url(base_url: &str) -> (r: String)
    ensures
        r@ == base_url@ + "/chat/completions"@,
{
    concat2(base_url, "/chat/completions")
}

/// The identifier used in cache keys: `{base_url}::{model}`.
pub fn provider_id(base_url: &str, model: &str) -> (r: String)
    ensures
        r@ == base_url@ + "::"@ + model@,
{
    let mut r = String::from_str(base_url);
    r.append("::");
    r.append(model);
    r
}

/// The provider's reply body when its status is a success (200-299); otherwise the
/// API error that carries status and body.
pub fn check_status(provider: &str, status: u16, body: String) -> (r: Result<String, Error>)
    ensures
        200 <= status <= 299 ==> (r matches Ok(b) && b == body),
        !(200 <= status <= 299) ==> (r matches Err(Error::Api { provider: p, status: s, body: b })
            && p@ == provider@ && s == status && b == body),
{
    if 200 <= status && status <= 299 {
        Ok(body)
    } else {
        Err(Error::Api { provider: owned(provider), status, body })
    }
}

pub open spec fn no_choices_text() -> Seq<char> {
    "the provider returned no choices"@
}

/// The content of the first choice of a successful reply, or the API error that
/// says the provider returned none.
pub fn first_choice(provider: &str, status: u16, contents: Vec<String>) -> (r: Result<String, Error>)
    ensures
        contents@.len() > 0 ==> (r matches Ok(c) && c == contents@[0]),
        contents@.len() == 0 ==> (r matches Err(Error::Api { provider: p, status: s, body: b })
            && p@ == provider@ && s == status && b@ == no_choices_text()),
{
    let mut contents = contents;
    if contents.len() > 0 {
        Ok(contents.swap_remove(0))
    } else {
        Err(
            Error::Api {
                provider: owned(provider),
                status,
                body: String::from_str("the provider returned no choices"),
            },
        )
    }
}

} // verus!
