//! The closed vocabulary of HTTP status codes.

use vstd::prelude::*;
use vstd::string::*;

use crate::error::ParseError;
use crate::text::{str_to_chars, match_token_ci, token_eq_ci, trim, trim_range, upper};

verus! {

/// An HTTP status code. The vocabulary is closed; each variant has a fixed
/// numeric code and a fixed canonical reason phrase.
#[derive(Clone, Copy, Debug, PartialEq, Eq, Hash, Structural)]
pub enum StatusCode {
    OK,
    BadRequest,
    NotFound,
    InternalServerError,
}

impl StatusCode {
    /// The three-digit numeric code of this status.
    pub open spec fn number(self) -> u16 {
        match self {
            StatusCode::OK => 200,
            StatusCode::BadRequest => 400,
            StatusCode::NotFound => 404,
            StatusCode::InternalServerError => 500,
        }
    }

    /// The three digits of the numeric code as wire text.
    pub open spec fn digits(self) -> Seq<char> {
        match self {
            StatusCode::OK => "200"@,
            StatusCode::BadRequest => "400"@,
            StatusCode::NotFound => "404"@,
            StatusCode::InternalServerError => "500"@,
        }
    }

    /// The canonical `"CODE REASON"` text of this status.
    pub open spec fn token(self) -> Seq<char> {
        match self {
            StatusCode::OK => "200 OK"@,
            StatusCode::BadRequest => "400 Bad Request"@,
            StatusCode::NotFound => "404 Not Found"@,
            StatusCode::InternalServerError => "500 Internal Server Error"@,
        }
    }

    /// The status the text names, either by its three digits or by its
    /// canonical `"CODE REASON"` form, compared without regard to ASCII
    /// case after trimming; nothing when no form matches.
    pub open spec fn spec_parse(s: Seq<char>) -> Option<StatusCode> {
        let t = trim(s);
        if token_eq_ci(t, "200"@) || token_eq_ci(t, "200 OK"@) {
            Some(StatusCode::OK)
        } else if token_eq_ci(t, "400"@) || token_eq_ci(t, "400 Bad Request"@) {
            Some(StatusCode::BadRequest)
        } else if token_eq_ci(t, "404"@) || token_eq_ci(t, "404 Not Found"@) {
            Some(StatusCode::NotFound)
        } else if token_eq_ci(t, "500"@) || token_eq_ci(t, "500 Internal Server Error"@) {
            Some(StatusCode::InternalServerError)
        } else {
            None
        }
    }

    /// Resolves a status token, by number or by canonical text. Succeeds
    /// exactly on the known forms, without regard to ASCII case or
    /// surrounding whitespace.
    pub fn parse(text: &str) -> (r: Result<StatusCode, ParseError>)
        ensures
            r == match StatusCode::spec_parse(text@) {
                Some(c) => Ok::<StatusCode, ParseError>(c),
                None => Err::<StatusCode, ParseError>(ParseError::InvalidCode),
            },
    {
        let v = str_to_chars(text);
        let n = v.len();
        proof {
            assert(v@.subrange(0, n as int) =~= v@);
        }
        StatusCode::parse_in(&v, 0, n)
    }

    /// Resolves the status token standing at `v[lo..hi]`.
    pub fn parse_in(v: &Vec<char>, lo: usize, hi: usize) -> (r: Result<StatusCode, ParseError>)
        requires
            lo <= hi <= v@.len(),
        ensures
            r == match StatusCode::spec_parse(v@.subrange(lo as int, hi as int)) {
                Some(c) => Ok::<StatusCode, ParseError>(c),
                None => Err::<StatusCode, ParseError>(ParseError::InvalidCode),
            },
    {
        let (lo, hi) = trim_range(v, lo, hi);
        if match_token_ci(v, lo, hi, "200") || match_token_ci(v, lo, hi, "200 OK") {
            Ok(StatusCode::OK)
        } else if match_token_ci(v, lo, hi, "400") || match_token_ci(
            v,
            lo,
            hi,
            "400 Bad Request",
        ) {
            Ok(StatusCode::BadRequest)
        } else if match_token_ci(v, lo, hi, "404") || match_token_ci(
            v,
            lo,
            hi,
            "404 Not Found",
        ) {
            Ok(StatusCode::NotFound)
        } else if match_token_ci(v, lo, hi, "500") || match_token_ci(
            v,
            lo,
            hi,
            "500 Internal Server Error",
        ) {
            Ok(StatusCode::InternalServerError)
        } else {
            Err(ParseError::InvalidCode)
        }
    }

    /// The canonical `"CODE REASON"` text, e.g. `"200 OK"`. Total.
    pub fn to_text(&self) -> (r: String)
        ensures
            r@ == self.token(),
    {
        match self {
            StatusCode::OK => String::from_str("200 OK"),
            StatusCode::BadRequest => String::from_str("400 Bad Request"),
            StatusCode::NotFound => String::from_str("404 Not Found"),
            StatusCode::InternalServerError => String::from_str("500 Internal Server Error"),
        }
    }

    /// The three digits of the numeric code, e.g. `"200"`.
    pub fn to_digits(&self) -> (r: String)
        ensures
            r@ == self.digits(),
    {
        match self {
            StatusCode::OK => String::from_str("200"),
            StatusCode::BadRequest => String::from_str("400"),
            StatusCode::NotFound => String::from_str("404"),
            StatusCode::InternalServerError => String::from_str("500"),
        }
    }

    /// The numeric code. Total.
    pub fn to_number(&self) -> (r: u16)
        ensures
            r == self.number(),
    {
        match self {
            StatusCode::OK => 200,
            StatusCode::BadRequest => 400,
            StatusCode::NotFound => 404,
            StatusCode::InternalServerError => 500,
        }
    }

    /// The status with the given numeric code. Succeeds exactly on the
    /// four known codes and rejects every other number.
    pub fn from_number(n: u16) -> (r: Result<StatusCode, ParseError>)
        ensures
            r == if n == 200 {
                Ok::<StatusCode, ParseError>(StatusCode::OK)
            } else if n == 400 {
                Ok::<StatusCode, ParseError>(StatusCode::BadRequest)
            } else if n == 404 {
                Ok::<StatusCode, ParseError>(StatusCode::NotFound)
            } else if n == 500 {
                Ok::<StatusCode, ParseError>(StatusCode::InternalServerError)
            } else {
                Err::<StatusCode, ParseError>(ParseError::InvalidCode)
            },
    {
        if n == 200 {
            Ok(StatusCode::OK)
        } else if n == 400 {
            Ok(StatusCode::BadRequest)
        } else if n == 404 {
            Ok(StatusCode::NotFound)
        } else if n == 500 {
            Ok(StatusCode::InternalServerError)
        } else {
            Err(ParseError::InvalidCode)
        }
    }
}

/// Every status digit token is a fit start-line token and parses back
/// to its own status.
pub proof fn lemma_status_parse_digits(c: StatusCode)
    ensures
        crate::wire::token_ok(c.digits()),
        StatusCode::spec_parse(c.digits()) == Some(c),
{
    reveal_strlit("200");
    reveal_strlit("400");
    reveal_strlit("404");
    reveal_strlit("500");
    reveal_strlit("200 OK");
    reveal_strlit("400 Bad Request");
    reveal_strlit("404 Not Found");
    reveal_strlit("500 Internal Server Error");
    crate::text::lemma_upper_id("200"@);
    crate::text::lemma_upper_id("400"@);
    crate::text::lemma_upper_id("404"@);
    crate::text::lemma_upper_id("500"@);
    assert(crate::wire::token_ok(c.digits()));
    crate::text::lemma_trim_id(c.digits());
    assert(upper("400"@).len() == 3);
    assert(upper("404"@).len() == 3);
    assert(upper("500"@).len() == 3);
    assert(upper("200 OK"@).len() == 6);
    assert(upper("400 Bad Request"@).len() == 15);
    assert(upper("404 Not Found"@).len() == 13);
    assert(upper("500 Internal Server Error"@).len() == 25);
}

/// Case-insensitivity law: two texts that fold to the same characters,
/// such as `"200 ok"` and `"200 OK"`, parse to the same status.
pub proof fn lemma_status_parse_case_insensitive(s: Seq<char>, t: Seq<char>)
    requires
        crate::text::upper(s) == crate::text::upper(t),
    ensures
        StatusCode::spec_parse(s) == StatusCode::spec_parse(t),
{
    crate::text::lemma_upper_trim(s);
    crate::text::lemma_upper_trim(t);
}

} // verus!
