use crate::text::{chars_of, push_str, slice_of, string_of, trim, trimmed};
use vstd::prelude::*;

verus! {

/// Why the text generation service gave no summary. The texts are those of
/// the failures.
#[derive(Debug)]
pub enum LlmError {
    RequestError(String),
    ParseError(String),
    NoContent,
}

impl LlmError {
    /// The error in words.
    pub open spec fn spec_message(self) -> Seq<char> {
        match self {
            LlmError::RequestError(cause) => "HTTP request failed: "@ + cause@,
            LlmError::ParseError(cause) => "Failed to parse JSON response: "@ + cause@,
            LlmError::NoContent => "No content in LLM response"@,
        }
    }

    /// The error in words.
    pub fn message(&self) -> (r: String)
        ensures
            r@ == self.spec_message(),
    {
        match self {
            LlmError::RequestError(cause) => {
                let mut out = chars_of("HTTP request failed: ");
                push_str(&mut out, cause.as_str());
                string_of(&out)
            },
            LlmError::ParseError(cause) => {
                let mut out = chars_of("Failed to parse JSON response: ");
                push_str(&mut out, cause.as_str());
                string_of(&out)
            },
            LlmError::NoContent => "No content in LLM response".to_string(),
        }
    }
}

/// The most tokens that are asked of the service for one summary.
pub const MAX_TOKENS: u32 = 500;

/// `s` without the slashes at its end.
pub open spec fn trim_end_slashes(s: Seq<char>) -> Seq<char>
    decreases s.len(),
{
    if s.len() > 0 && s.last() == '/' {
        trim_end_slashes(s.drop_last())
    } else {
        s
    }
}

/// The address to which a chat request goes at a service with the base
/// address `base_url`.
pub open spec fn completions_url_of(base_url: Seq<char>) -> Seq<char> {
    base_url + "/v1/chat/completions"@
}

/// What the answer of the service yields: the text of its first choice,
/// trimmed; `None` where it made no choice.
pub open spec fn summary_of_choices(choices: Seq<Seq<char>>) -> Option<Seq<char>> {
    if choices.len() == 0 {
        None
    } else {
        Some(trim(choices[0]))
    }
}

/// A client of the text generation service.
pub struct LlmClient {
    pub base_url: String,
}

impl LlmClient {
    /// A client of the service at `base_url`; slashes at its end are
    /// dropped.
    pub fn new(base_url: &str) -> (r: Self)
        ensures
            r.base_url@ == trim_end_slashes(base_url@),
    {
        let v = chars_of(base_url);
        let mut n: usize = v.len();
        assert(v@.take(n as int) == v@);
        while n > 0 && v[n - 1] == '/'
            invariant
                n <= v.len(),
                trim_end_slashes(v@) == trim_end_slashes(v@.take(n as int)),
            decreases n,
        {
            assert(v@.take(n as int).drop_last() == v@.take(n - 1));
            n -= 1;
        }
        let kept = slice_of(&v, 0, n);
        assert(kept@ == v@.take(n as int));
        LlmClient { base_url: string_of(&kept) }
    }

    /// The address to which chat requests go.
    pub fn completions_url(&self) -> (r: String)
        ensures
            r@ == completions_url_of(self.base_url@),
    {
        let mut out = chars_of(self.base_url.as_str());
        push_str(&mut out, "/v1/chat/completions");
        string_of(&out)
    }
}

/// The summary in the answer of the service, which made the choices
/// `choices`: the text of the first, trimmed. An answer without a choice is
/// the error `NoContent`.
pub fn summary_from_choices(choices: &Vec<String>) -> (r: Result<String, LlmError>)
    ensures
        match r {
            Ok(s) => choices@.len() > 0 && s@ == trim(choices@[0]@),
            Err(e) => choices@.len() == 0 && e == LlmError::NoContent,
        },
{
    if choices.len() == 0 {
        Err(LlmError::NoContent)
    } else {
        let v = chars_of(choices[0].as_str());
        Ok(string_of(&trimmed(&v)))
    }
}

} // verus!
