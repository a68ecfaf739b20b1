//! The closed vocabulary of HTTP protocol version tokens.

use vstd::prelude::*;
use vstd::string::*;

use crate::error::ParseError;
use crate::text::{str_to_chars, match_token_ci, token_eq_ci, trim, trim_range};

verus! {

/// An HTTP protocol version tag. The vocabulary is closed.
#[derive(Clone, Copy, Debug, PartialEq, Eq, Hash, Structural)]
pub enum Version {
    HTTP0_9,
    HTTP1_0,
    HTTP1_1,
    HTTP2_0,
}

impl Version {
    /// The canonical uppercase wire token of this version.
    pub open spec fn token(self) -> Seq<char> {
        match self {
            Version::HTTP0_9 => "HTTP/0.9"@,
            Version::HTTP1_0 => "HTTP/1.0"@,
            Version::HTTP1_1 => "HTTP/1.1"@,
            Version::HTTP2_0 => "HTTP/2.0"@,
        }
    }

    /// The version whose token the text names, compared without regard to
    /// ASCII case after trimming, or nothing when no token matches.
    pub open spec fn spec_parse(s: Seq<char>) -> Option<Version> {
        let t = trim(s);
        if token_eq_ci(t, "HTTP/0.9"@) {
            Some(Version::HTTP0_9)
        } else if token_eq_ci(t, "HTTP/1.0"@) {
            Some(Version::HTTP1_0)
        } else if token_eq_ci(t, "HTTP/1.1"@) {
            Some(Version::HTTP1_1)
        } else if token_eq_ci(t, "HTTP/2.0"@) {
            Some(Version::HTTP2_0)
        } else {
            None
        }
    }

    /// Resolves a version token. Succeeds exactly on the known tokens,
    /// without regard to ASCII case or surrounding whitespace.
    pub fn parse(text: &str) -> (r: Result<Version, ParseError>)
        ensures
            r == match Version::spec_parse(text@) {
                Some(v) => Ok::<Version, ParseError>(v),
                None => Err::<Version, ParseError>(ParseError::InvalidToken),
            },
    {
        let v = str_to_chars(text);
        let n = v.len();
        proof {
            assert(v@.subrange(0, n as int) =~= v@);
        }
        Version::parse_in(&v, 0, n)
    }

    /// Resolves the version token standing at `v[lo..hi]`.
    pub fn parse_in(v: &Vec<char>, lo: usize, hi: usize) -> (r: Result<Version, ParseError>)
        requires
            lo <= hi <= v@.len(),
        ensures
            r == match Version::spec_parse(v@.subrange(lo as int, hi as int)) {
                Some(ver) => Ok::<Version, ParseError>(ver),
                None => Err::<Version, ParseError>(ParseError::InvalidToken),
            },
    {
        let (lo, hi) = trim_range(v, lo, hi);
        if match_token_ci(v, lo, hi, "HTTP/0.9") {
            Ok(Version::HTTP0_9)
        } else if match_token_ci(v, lo, hi, "HTTP/1.0") {
            Ok(Version::HTTP1_0)
        } else if match_token_ci(v, lo, hi, "HTTP/1.1") {
            Ok(Version::HTTP1_1)
        } else if match_token_ci(v, lo, hi, "HTTP/2.0") {
            Ok(Version::HTTP2_0)
        } else {
            Err(ParseError::InvalidToken)
        }
    }

    /// The canonical uppercase token, e.g. `"HTTP/1.1"`. Total.
    pub fn to_text(&self) -> (r: String)
        ensures
            r@ == self.token(),
    {
        match self {
            Version::HTTP0_9 => String::from_str("HTTP/0.9"),
            Version::HTTP1_0 => String::from_str("HTTP/1.0"),
            Version::HTTP1_1 => String::from_str("HTTP/1.1"),
            Version::HTTP2_0 => String::from_str("HTTP/2.0"),
        }
    }
}

/// Every canonical version token is a fit start-line token and parses
/// back to its own version.
pub proof fn lemma_version_parse_token(ver: Version)
    ensures
        crate::wire::token_ok(ver.token()),
        Version::spec_parse(ver.token()) == Some(ver),
{
    reveal_strlit("HTTP/0.9");
    reveal_strlit("HTTP/1.0");
    reveal_strlit("HTTP/1.1");
    reveal_strlit("HTTP/2.0");
    crate::text::lemma_upper_id("HTTP/0.9"@);
    crate::text::lemma_upper_id("HTTP/1.0"@);
    crate::text::lemma_upper_id("HTTP/1.1"@);
    crate::text::lemma_upper_id("HTTP/2.0"@);
    assert("HTTP/0.9"@[5] == '0' && "HTTP/0.9"@[7] == '9');
    assert("HTTP/1.0"@[5] == '1' && "HTTP/1.0"@[7] == '0');
    assert("HTTP/1.1"@[5] == '1' && "HTTP/1.1"@[7] == '1');
    assert("HTTP/2.0"@[5] == '2' && "HTTP/2.0"@[7] == '0');
    assert(crate::wire::token_ok(ver.token()));
    crate::text::lemma_trim_id(ver.token());
}

/// Case-insensitivity law: two texts that fold to the same characters,
/// such as `"http/1.1"` and `"HTTP/1.1"`, parse to the same version.
pub proof fn lemma_version_parse_case_insensitive(s: Seq<char>, t: Seq<char>)
    requires
        crate::text::upper(s) == crate::text::upper(t),
    ensures
        Version::spec_parse(s) == Version::spec_parse(t),
{
    crate::text::lemma_upper_trim(s);
    crate::text::lemma_upper_trim(t);
}

} // verus!
