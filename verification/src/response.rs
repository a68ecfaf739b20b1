//! HTTP responses: the typed aggregate, its wire-text parser and its
//! serializer, and the round-trip law connecting them.

use vstd::prelude::*;
use vstd::string::*;

use crate::error::ParseError;
use crate::headers::{HeaderPairs, Headers};
use crate::status::{lemma_status_parse_digits, StatusCode};
use crate::text::{
    chars_to_string, find_char, find_char_from, lemma_find_char_at, lemma_find_char_shift,
    str_to_chars,
};
use crate::version::{lemma_version_parse_token, Version};
use crate::wire::{
    build_headers, crlf, crlf_join, find_delim, find_delim_from, header_lines_of,
    header_pairs_ok, lemma_build_headers_inverse, lemma_lines_block_join, lemma_render_delim,
    lemma_split_crlf_join, line_ok, lines_block, parse_header_lines, render, split_head_lines,
    split_lines, write_headers,
};

verus! {

/// The mathematical content of a response: what its wire text encodes.
pub ghost struct ResponseView {
    pub version: Version,
    pub status_code: StatusCode,
    pub reason_phrase: Seq<char>,
    pub headers: HeaderPairs,
    pub body: Seq<char>,
}

impl ResponseView {
    /// A response that can be put on the wire and read back unchanged:
    /// the reason phrase is free text without CR or LF, and the headers
    /// are fit for the wire.
    pub open spec fn wf(self) -> bool {
        line_ok(self.reason_phrase) && header_pairs_ok(self.headers)
    }

    /// The status line: version, numeric code and reason phrase,
    /// space-separated; the reason phrase may itself contain spaces.
    pub open spec fn start_line(self) -> Seq<char> {
        self.version.token() + seq![' '] + self.status_code.digits() + seq![' ']
            + self.reason_phrase
    }
}

/// The status line split at its first two spaces: version token, status
/// token, and the reason phrase verbatim after the second space.
pub open spec fn parse_status_line(l: Seq<char>) -> Result<
    (Version, StatusCode, Seq<char>),
    ParseError,
> {
    match find_char_from(l, ' ', 0) {
        None => Err(ParseError::MalformedResponseLine),
        Some(j1) => {
            let vtok = l.subrange(0, j1 as int);
            let rest = l.subrange(j1 as int + 1, l.len() as int);
            match find_char_from(rest, ' ', 0) {
                None => Err(ParseError::MalformedResponseLine),
                Some(j2) => {
                    let ctok = rest.subrange(0, j2 as int);
                    let reason = rest.subrange(j2 as int + 1, rest.len() as int);
                    match Version::spec_parse(vtok) {
                        None => Err(ParseError::InvalidVersion),
                        Some(ver) => match StatusCode::spec_parse(ctok) {
                            None => Err(ParseError::InvalidStatus),
                            Some(c) => Ok((ver, c, reason)),
                        },
                    }
                },
            }
        },
    }
}

/// An HTTP response: protocol version, status code, the reason phrase as
/// the server wrote it, headers and body. The reason phrase is kept
/// verbatim, so a non-canonical phrase survives a round trip.
#[derive(Debug, Clone, PartialEq)]
pub struct Response {
    pub version: Version,
    pub status_code: StatusCode,
    pub reason_phrase: String,
    pub headers: Headers,
    pub body: String,
}

impl View for Response {
    type V = ResponseView;

    open spec fn view(&self) -> ResponseView {
        ResponseView {
            version: self.version,
            status_code: self.status_code,
            reason_phrase: self.reason_phrase@,
            headers: self.headers@,
            body: self.body@,
        }
    }
}

impl Response {
    /// What parsing a raw text buffer yields: the typed response, or the
    /// error naming the first defect the parser meets.
    pub open spec fn spec_parse(t: Seq<char>) -> Result<ResponseView, ParseError> {
        match find_delim_from(t, 0) {
            None => Err(ParseError::MalformedMessage),
            Some(p) => {
                let lines = split_lines(t.subrange(0, p as int));
                let body = t.subrange(p as int + 4, t.len() as int);
                if lines.len() == 0 {
                    Err(ParseError::MalformedResponseLine)
                } else {
                    match parse_status_line(lines[0]) {
                        Err(e) => Err(e),
                        Ok((ver, c, reason)) => match build_headers(
                            Seq::empty(),
                            lines.drop_first(),
                        ) {
                            None => Err(ParseError::MalformedHeader),
                            Some(hs) => Ok(
                                ResponseView {
                                    version: ver,
                                    status_code: c,
                                    reason_phrase: reason,
                                    headers: hs,
                                    body,
                                },
                            ),
                        },
                    }
                }
            },
        }
    }

    /// The canonical wire text of a response: the status line, every
    /// header line, the blank line, then the body verbatim.
    pub open spec fn spec_serialize(d: ResponseView) -> Seq<char> {
        render(seq![d.start_line()] + header_lines_of(d.headers), d.body)
    }

    /// A response assembled from its components, taken as given.
    pub fn new(
        version: Version,
        status_code: StatusCode,
        reason_phrase: String,
        headers: Headers,
        body: String,
    ) -> (r: Response)
        ensures
            r@ == (ResponseView {
                version,
                status_code,
                reason_phrase: reason_phrase@,
                headers: headers@,
                body: body@,
            }),
    {
        Response { version, status_code, reason_phrase, headers, body }
    }

    /// Parses one complete response message. Succeeds exactly when the
    /// text has a blank-line delimiter, a status line with a known
    /// version and status and a reason phrase, and a colon in every
    /// header line; each defect is reported as the error
    /// [`Response::spec_parse`] names for it.
    pub fn parse(text: &str) -> (r: Result<Response, ParseError>)
        ensures
            match r {
                Ok(resp) => Response::spec_parse(text@) == Ok::<ResponseView, ParseError>(resp@)
                    && resp.headers.wf(),
                Err(e) => Response::spec_parse(text@) == Err::<ResponseView, ParseError>(e),
            },
    {
        let v = str_to_chars(text);
        let p = match find_delim(&v) {
            None => {
                return Err(ParseError::MalformedMessage);
            },
            Some(p) => p,
        };
        let n = v.len();
        let lines = split_head_lines(&v, p);
        let body = chars_to_string(&v, p + 4, n);
        let ghost glines = split_lines(v@.subrange(0, p as int));
        if lines.len() == 0 {
            return Err(ParseError::MalformedResponseLine);
        }
        let line0 = &lines[0];
        let n0 = line0.len();
        proof {
            assert(lines.deep_view()[0] =~= line0@);
            assert(glines[0] == line0@);
        }
        let j1 = match find_char(line0, 0, ' ') {
            None => {
                return Err(ParseError::MalformedResponseLine);
            },
            Some(j) => j,
        };
        let ghost vtok = line0@.subrange(0, j1 as int);
        let ghost rest = line0@.subrange(j1 as int + 1, n0 as int);
        proof {
            assert(line0@.subrange(0, j1 as int + 1) + rest =~= line0@);
            lemma_find_char_shift(line0@.subrange(0, j1 as int + 1), rest, ' ', 0);
        }
        let j2 = match find_char(line0, j1 + 1, ' ') {
            None => {
                proof {
                    if find_char_from(rest, ' ', 0) is Some {
                        assert(find_char_from(line0@, ' ', (j1 + 1) as nat) is Some);
                    }
                }
                return Err(ParseError::MalformedResponseLine);
            },
            Some(j) => j,
        };
        let ghost jr = (j2 - j1 - 1) as nat;
        proof {
            assert(find_char_from(rest, ' ', 0) == Some(jr));
            assert(rest.subrange(0, jr as int) =~= line0@.subrange(j1 as int + 1, j2 as int));
            assert(rest.subrange(jr as int + 1, rest.len() as int) =~= line0@.subrange(
                j2 as int + 1,
                n0 as int,
            ));
        }
        let version = match Version::parse_in(line0, 0, j1) {
            Err(_) => {
                return Err(ParseError::InvalidVersion);
            },
            Ok(ver) => ver,
        };
        let status_code = match StatusCode::parse_in(line0, j1 + 1, j2) {
            Err(_) => {
                return Err(ParseError::InvalidStatus);
            },
            Ok(c) => c,
        };
        let reason_phrase = chars_to_string(line0, j2 + 1, n0);
        proof {
            assert(parse_status_line(line0@) == Ok::<(Version, StatusCode, Seq<char>), ParseError>(
                (version, status_code, reason_phrase@),
            ));
        }
        let headers = match parse_header_lines(&lines, 1) {
            Err(e) => {
                proof {
                    assert(lines.deep_view().subrange(1, lines.deep_view().len() as int)
                        =~= glines.drop_first());
                }
                return Err(e);
            },
            Ok(h) => h,
        };
        proof {
            assert(lines.deep_view().subrange(1, lines.deep_view().len() as int)
                =~= glines.drop_first());
        }
        Ok(Response { version, status_code, reason_phrase, headers, body })
    }

    /// Writes the response in canonical CRLF wire form: status line,
    /// header lines in insertion order, blank line, body verbatim.
    /// Total: it cannot fail.
    pub fn serialize(&self) -> (r: String)
        ensures
            r@ == Response::spec_serialize(self@),
    {
        let mut out = String::new();
        let vt = self.version.to_text();
        out.append(vt.as_str());
        out.append(" ");
        let ct = self.status_code.to_digits();
        out.append(ct.as_str());
        out.append(" ");
        out.append(self.reason_phrase.as_str());
        out.append("\r\n");
        proof {
            reveal_strlit(" ");
            reveal_strlit("\r\n");
            assert(" "@ =~= seq![' ']);
            assert("\r\n"@ =~= crlf());
            assert(out@ =~= self@.start_line() + crlf());
        }
        write_headers(&mut out, &self.headers);
        out.append("\r\n");
        out.append(self.body.as_str());
        proof {
            reveal_strlit("\r\n");
            assert("\r\n"@ =~= crlf());
            let lines = seq![self@.start_line()] + header_lines_of(self@.headers);
            assert(lines[0] == self@.start_line());
            assert(lines.drop_first() =~= header_lines_of(self@.headers));
            assert(lines_block(lines) == lines[0] + crlf() + lines_block(lines.drop_first()));
            assert(out@ =~= Response::spec_serialize(self@));
        }
        out
    }
}

/// Round-trip law: a well-formed response serialized to wire text and
/// parsed back yields the response unchanged, the reason phrase included.
pub proof fn lemma_response_round_trip(d: ResponseView)
    requires
        d.wf(),
    ensures
        Response::spec_parse(Response::spec_serialize(d)) == Ok::<ResponseView, ParseError>(d),
{
    let sl = d.start_line();
    let hls = header_lines_of(d.headers);
    let lines = seq![sl] + hls;
    let t = Response::spec_serialize(d);
    lemma_version_parse_token(d.version);
    lemma_status_parse_digits(d.status_code);
    let vt = d.version.token();
    let ct = d.status_code.digits();
    assert(sl =~= vt + seq![' '] + ct + seq![' '] + d.reason_phrase);
    assert forall|j: int| 0 <= j < sl.len() implies sl[j] != '\r' && sl[j] != '\n' by {
        if j < vt.len() {
            assert(sl[j] == vt[j]);
        } else if j == vt.len() {
            assert(sl[j] == ' ');
        } else if j < vt.len() + 1 + ct.len() {
            assert(sl[j] == ct[j - vt.len() - 1]);
        } else if j == vt.len() + 1 + ct.len() {
            assert(sl[j] == ' ');
        } else {
            assert(sl[j] == d.reason_phrase[j - vt.len() - 2 - ct.len()]);
        }
    }
    assert forall|i: int| 0 <= i < lines.len() implies line_ok(#[trigger] lines[i])
        && lines[i].len() > 0 by {
        if i == 0 {
            assert(lines[0] == sl);
        } else {
            let p = d.headers[i - 1];
            assert(crate::wire::name_ok(p.0) && crate::wire::value_ok(p.1));
            assert(lines[i] == p.0 + seq![':', ' '] + p.1);
            assert forall|j: int| 0 <= j < lines[i].len() implies lines[i][j] != '\r'
                && lines[i][j] != '\n' by {
                if j < p.0.len() {
                    assert(lines[i][j] == p.0[j]);
                } else if j == p.0.len() {
                    assert(lines[i][j] == ':');
                } else if j == p.0.len() + 1 {
                    assert(lines[i][j] == ' ');
                } else {
                    assert(lines[i][j] == p.1[j - p.0.len() - 2]);
                }
            }
        }
    }
    lemma_render_delim(lines, d.body);
    let p = crlf_join(lines).len();
    lemma_lines_block_join(lines);
    assert(t =~= crlf_join(lines) + crlf() + crlf() + d.body);
    assert(find_delim_from(t, 0) == Some(p));
    assert(t.subrange(0, p as int) =~= crlf_join(lines));
    assert(t.subrange(p as int + 4, t.len() as int) =~= d.body);
    lemma_split_crlf_join(lines);
    assert(split_lines(t.subrange(0, p as int)) == lines);
    // The status line parses back to its three components.
    assert forall|j: int| 0 <= j < vt.len() implies sl[j] != ' ' by {
        assert(sl[j] == vt[j]);
    }
    assert(sl[vt.len() as int] == ' ');
    lemma_find_char_at(sl, ' ', 0, vt.len());
    assert(sl.subrange(0, vt.len() as int) =~= vt);
    let rest = sl.subrange(vt.len() as int + 1, sl.len() as int);
    assert(rest =~= ct + seq![' '] + d.reason_phrase);
    assert forall|j: int| 0 <= j < ct.len() implies rest[j] != ' ' by {
        assert(rest[j] == ct[j]);
    }
    assert(rest[ct.len() as int] == ' ');
    lemma_find_char_at(rest, ' ', 0, ct.len());
    assert(rest.subrange(0, ct.len() as int) =~= ct);
    assert(rest.subrange(ct.len() as int + 1, rest.len() as int) =~= d.reason_phrase);
    assert(parse_status_line(sl) == Ok::<(Version, StatusCode, Seq<char>), ParseError>(
        (d.version, d.status_code, d.reason_phrase),
    ));
    // The header lines build the mapping back.
    assert(Seq::<(Seq<char>, Seq<char>)>::empty() + d.headers =~= d.headers);
    lemma_build_headers_inverse(Seq::empty(), d.headers);
    assert(lines.drop_first() =~= hls);
    assert(build_headers(Seq::empty(), lines.drop_first()) == Some(d.headers));
    assert(Response::spec_parse(t) == Ok::<ResponseView, ParseError>(
        ResponseView {
            version: d.version,
            status_code: d.status_code,
            reason_phrase: d.reason_phrase,
            headers: d.headers,
            body: d.body,
        },
    ));
    assert(ResponseView {
        version: d.version,
        status_code: d.status_code,
        reason_phrase: d.reason_phrase,
        headers: d.headers,
        body: d.body,
    } == d);
}

} // verus!
