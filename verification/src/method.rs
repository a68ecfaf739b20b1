//! The closed vocabulary of HTTP request methods.

use vstd::prelude::*;
use vstd::string::*;

use crate::error::ParseError;
use crate::text::{str_to_chars, match_token_ci, token_eq_ci, trim, trim_range};

verus! {

/// An HTTP request method. The vocabulary is closed: a request carries one
/// of these variants, never a free-form token.
#[derive(Clone, Copy, Debug, PartialEq, Eq, Hash, Structural)]
pub enum Method {
    GET,
    HEAD,
    POST,
    PUT,
    DELETE,
    CONNECT,
    TRACE,
    PATCH,
}

impl Method {
    /// The canonical uppercase wire token of this method.
    pub open spec fn token(self) -> Seq<char> {
        match self {
            Method::GET => "GET"@,
            Method::HEAD => "HEAD"@,
            Method::POST => "POST"@,
            Method::PUT => "PUT"@,
            Method::DELETE => "DELETE"@,
            Method::CONNECT => "CONNECT"@,
            Method::TRACE => "TRACE"@,
            Method::PATCH => "PATCH"@,
        }
    }

    /// The method whose token the text names, compared without regard to
    /// ASCII case after trimming, or nothing when no token matches.
    pub open spec fn spec_parse(s: Seq<char>) -> Option<Method> {
        let t = trim(s);
        if token_eq_ci(t, "GET"@) {
            Some(Method::GET)
        } else if token_eq_ci(t, "HEAD"@) {
            Some(Method::HEAD)
        } else if token_eq_ci(t, "POST"@) {
            Some(Method::POST)
        } else if token_eq_ci(t, "PUT"@) {
            Some(Method::PUT)
        } else if token_eq_ci(t, "DELETE"@) {
            Some(Method::DELETE)
        } else if token_eq_ci(t, "CONNECT"@) {
            Some(Method::CONNECT)
        } else if token_eq_ci(t, "TRACE"@) {
            Some(Method::TRACE)
        } else if token_eq_ci(t, "PATCH"@) {
            Some(Method::PATCH)
        } else {
            None
        }
    }

    /// Resolves a method token. Succeeds exactly on the known tokens,
    /// without regard to ASCII case or surrounding whitespace.
    pub fn parse(text: &str) -> (r: Result<Method, ParseError>)
        ensures
            r == match Method::spec_parse(text@) {
                Some(m) => Ok::<Method, ParseError>(m),
                None => Err::<Method, ParseError>(ParseError::InvalidToken),
            },
    {
        let v = str_to_chars(text);
        let n = v.len();
        proof {
            assert(v@.subrange(0, n as int) =~= v@);
        }
        Method::parse_in(&v, 0, n)
    }

    /// Resolves the method token standing at `v[lo..hi]`.
    pub fn parse_in(v: &Vec<char>, lo: usize, hi: usize) -> (r: Result<Method, ParseError>)
        requires
            lo <= hi <= v@.len(),
        ensures
            r == match Method::spec_parse(v@.subrange(lo as int, hi as int)) {
                Some(m) => Ok::<Method, ParseError>(m),
                None => Err::<Method, ParseError>(ParseError::InvalidToken),
            },
    {
        let (lo, hi) = trim_range(v, lo, hi);
        if match_token_ci(v, lo, hi, "GET") {
            Ok(Method::GET)
        } else if match_token_ci(v, lo, hi, "HEAD") {
            Ok(Method::HEAD)
        } else if match_token_ci(v, lo, hi, "POST") {
            Ok(Method::POST)
        } else if match_token_ci(v, lo, hi, "PUT") {
            Ok(Method::PUT)
        } else if match_token_ci(v, lo, hi, "DELETE") {
            Ok(Method::DELETE)
        } else if match_token_ci(v, lo, hi, "CONNECT") {
            Ok(Method::CONNECT)
        } else if match_token_ci(v, lo, hi, "TRACE") {
            Ok(Method::TRACE)
        } else if match_token_ci(v, lo, hi, "PATCH") {
            Ok(Method::PATCH)
        } else {
            Err(ParseError::InvalidToken)
        }
    }

    /// The canonical uppercase token, e.g. `"GET"`. Total: every variant
    /// has a token.
    pub fn to_text(&self) -> (r: String)
        ensures
            r@ == self.token(),
    {
        match self {
            Method::GET => String::from_str("GET"),
            Method::HEAD => String::from_str("HEAD"),
            Method::POST => String::from_str("POST"),
            Method::PUT => String::from_str("PUT"),
            Method::DELETE => String::from_str("DELETE"),
            Method::CONNECT => String::from_str("CONNECT"),
            Method::TRACE => String::from_str("TRACE"),
            Method::PATCH => String::from_str("PATCH"),
        }
    }
}

/// Every canonical method token is a fit start-line token and parses
/// back to its own method.
pub proof fn lemma_method_parse_token(m: Method)
    ensures
        crate::wire::token_ok(m.token()),
        Method::spec_parse(m.token()) == Some(m),
{
    reveal_strlit("GET");
    reveal_strlit("HEAD");
    reveal_strlit("POST");
    reveal_strlit("PUT");
    reveal_strlit("DELETE");
    reveal_strlit("CONNECT");
    reveal_strlit("TRACE");
    reveal_strlit("PATCH");
    crate::text::lemma_upper_id("GET"@);
    crate::text::lemma_upper_id("HEAD"@);
    crate::text::lemma_upper_id("POST"@);
    crate::text::lemma_upper_id("PUT"@);
    crate::text::lemma_upper_id("DELETE"@);
    crate::text::lemma_upper_id("CONNECT"@);
    crate::text::lemma_upper_id("TRACE"@);
    crate::text::lemma_upper_id("PATCH"@);
    assert(crate::wire::token_ok(m.token()));
    crate::text::lemma_trim_id(m.token());
}

/// Case-insensitivity law: two texts that fold to the same characters,
/// such as `"get"`, `"GET"` and `"Get"`, parse to the same method.
pub proof fn lemma_method_parse_case_insensitive(s: Seq<char>, t: Seq<char>)
    requires
        crate::text::upper(s) == crate::text::upper(t),
    ensures
        Method::spec_parse(s) == Method::spec_parse(t),
{
    crate::text::lemma_upper_trim(s);
    crate::text::lemma_upper_trim(t);
}

} // verus!
