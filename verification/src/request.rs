//! HTTP requests: the typed aggregate, its wire-text parser and its
//! serializer, and the round-trip law connecting them.

use vstd::prelude::*;
use vstd::string::*;

use crate::error::ParseError;
use crate::headers::{HeaderPairs, Headers};
use crate::method::{lemma_method_parse_token, Method};
use crate::text::{
    chars_to_string, find_char, find_char_from, lemma_find_char_at, lemma_find_char_none,
    lemma_find_char_shift, str_to_chars,
};
use crate::version::{lemma_version_parse_token, Version};
use crate::wire::{
    build_headers, crlf, crlf_join, find_delim, find_delim_from, header_lines_of,
    header_pairs_ok, lemma_build_headers_inverse, lemma_lines_block_join, lemma_render_delim,
    lemma_split_crlf_join, line_ok, lines_block, parse_header_lines, path_ok, render,
    split_head_lines, split_lines, write_headers,
};

verus! {

/// The mathematical content of a request: what its wire text encodes.
pub ghost struct RequestView {
    pub method: Method,
    pub path: Seq<char>,
    pub version: Version,
    pub headers: HeaderPairs,
    pub body: Seq<char>,
}

impl RequestView {
    /// A request that can be put on the wire and read back unchanged: the
    /// path is a single token free of spaces, CR and LF, and the headers
    /// are fit for the wire.
    pub open spec fn wf(self) -> bool {
        path_ok(self.path) && header_pairs_ok(self.headers)
    }

    /// The request line: method, path and version, space-separated.
    pub open spec fn start_line(self) -> Seq<char> {
        self.method.token() + seq![' '] + self.path + seq![' '] + self.version.token()
    }
}

/// The request line split into exactly three space-separated tokens:
/// method, path and version, the method and version resolved against
/// their vocabularies.
pub open spec fn parse_request_line(l: Seq<char>) -> Result<
    (Method, Seq<char>, Version),
    ParseError,
> {
    match find_char_from(l, ' ', 0) {
        None => Err(ParseError::MalformedRequestLine),
        Some(j1) => {
            let mtok = l.subrange(0, j1 as int);
            let rest = l.subrange(j1 as int + 1, l.len() as int);
            match find_char_from(rest, ' ', 0) {
                None => Err(ParseError::MalformedRequestLine),
                Some(j2) => {
                    let path = rest.subrange(0, j2 as int);
                    let vtok = rest.subrange(j2 as int + 1, rest.len() as int);
                    if find_char_from(vtok, ' ', 0) is Some {
                        Err(ParseError::MalformedRequestLine)
                    } else {
                        match Method::spec_parse(mtok) {
                            None => Err(ParseError::InvalidMethod),
                            Some(m) => match Version::spec_parse(vtok) {
                                None => Err(ParseError::InvalidVersion),
                                Some(ver) => Ok((m, path, ver)),
                            },
                        }
                    }
                },
            }
        },
    }
}

/// An HTTP request: method, target path, protocol version, headers and
/// body. A value type with no hidden state; `parse` and `serialize` are
/// pure conversions between it and wire text.
#[derive(Debug, Clone, PartialEq)]
pub struct Request {
    pub method: Method,
    pub path: String,
    pub version: Version,
    pub headers: Headers,
    pub body: String,
}

impl View for Request {
    type V = RequestView;

    open spec fn view(&self) -> RequestView {
        RequestView {
            method: self.method,
            path: self.path@,
            version: self.version,
            headers: self.headers@,
            body: self.body@,
        }
    }
}

impl Request {
    /// What parsing a raw text buffer yields: the typed request, or the
    /// error naming the first defect the parser meets.
    pub open spec fn spec_parse(t: Seq<char>) -> Result<RequestView, ParseError> {
        match find_delim_from(t, 0) {
            None => Err(ParseError::MalformedMessage),
            Some(p) => {
                let lines = split_lines(t.subrange(0, p as int));
                let body = t.subrange(p as int + 4, t.len() as int);
                if lines.len() == 0 {
                    Err(ParseError::MalformedRequestLine)
                } else {
                    match parse_request_line(lines[0]) {
                        Err(e) => Err(e),
                        Ok((m, path, ver)) => match build_headers(
                            Seq::empty(),
                            lines.drop_first(),
                        ) {
                            None => Err(ParseError::MalformedHeader),
                            Some(hs) => Ok(
                                RequestView {
                                    method: m,
                                    path,
                                    version: ver,
                                    headers: hs,
                                    body,
                                },
                            ),
                        },
                    }
                }
            },
        }
    }

    /// The canonical wire text of a request: the request line, every
    /// header line, the blank line, then the body verbatim.
    pub open spec fn spec_serialize(d: RequestView) -> Seq<char> {
        render(seq![d.start_line()] + header_lines_of(d.headers), d.body)
    }

    /// A request assembled from its components, taken as given.
    pub fn new(
        method: Method,
        path: String,
        version: Version,
        headers: Headers,
        body: String,
    ) -> (r: Request)
        ensures
            r@ == (RequestView {
                method,
                path: path@,
                version,
                headers: headers@,
                body: body@,
            }),
    {
        Request { method, path, version, headers, body }
    }

    /// Parses one complete request message. Succeeds exactly when the
    /// text has a blank-line delimiter, a request line of three tokens
    /// with a known method and version, and a colon in every header
    /// line; each defect is reported as the error [`Request::spec_parse`]
    /// names for it.
    pub fn parse(text: &str) -> (r: Result<Request, ParseError>)
        ensures
            match r {
                Ok(req) => Request::spec_parse(text@) == Ok::<RequestView, ParseError>(req@) && req.headers.wf(),
                Err(e) => Request::spec_parse(text@) == Err::<RequestView, ParseError>(e),
            },
    {
        let v = str_to_chars(text);
        let p = match find_delim(&v) {
            None => {
                return Err(ParseError::MalformedMessage);
            },
            Some(p) => p,
        };
        let n = v.len();
        let lines = split_head_lines(&v, p);
        let body = chars_to_string(&v, p + 4, n);
        let ghost glines = split_lines(v@.subrange(0, p as int));
        if lines.len() == 0 {
            return Err(ParseError::MalformedRequestLine);
        }
        let line0 = &lines[0];
        let n0 = line0.len();
        proof {
            assert(lines.deep_view()[0] =~= line0@);
            assert(glines[0] == line0@);
        }
        let j1 = match find_char(line0, 0, ' ') {
            None => {
                return Err(ParseError::MalformedRequestLine);
            },
            Some(j) => j,
        };
        let ghost mtok = line0@.subrange(0, j1 as int);
        let ghost rest = line0@.subrange(j1 as int + 1, n0 as int);
        proof {
            assert(line0@.subrange(0, j1 as int + 1) + rest =~= line0@);
            lemma_find_char_shift(line0@.subrange(0, j1 as int + 1), rest, ' ', 0);
        }
        let j2 = match find_char(line0, j1 + 1, ' ') {
            None => {
                proof {
                    if find_char_from(rest, ' ', 0) is Some {
                        assert(find_char_from(line0@, ' ', (j1 + 1) as nat) is Some);
                    }
                }
                return Err(ParseError::MalformedRequestLine);
            },
            Some(j) => j,
        };
        let ghost jr = (j2 - j1 - 1) as nat;
        proof {
            assert(find_char_from(rest, ' ', 0) == Some(jr));
        }
        let ghost path_tok = rest.subrange(0, jr as int);
        let ghost vtok = rest.subrange(jr as int + 1, rest.len() as int);
        proof {
            assert(path_tok =~= line0@.subrange(j1 as int + 1, j2 as int));
            assert(vtok =~= line0@.subrange(j2 as int + 1, n0 as int));
            assert(line0@.subrange(0, j2 as int + 1) + vtok =~= line0@);
            lemma_find_char_shift(line0@.subrange(0, j2 as int + 1), vtok, ' ', 0);
        }
        match find_char(line0, j2 + 1, ' ') {
            Some(_) => {
                return Err(ParseError::MalformedRequestLine);
            },
            None => {
                proof {
                    if find_char_from(vtok, ' ', 0) is Some {
                        assert(find_char_from(line0@, ' ', (j2 + 1) as nat) is Some);
                    }
                }
            },
        };
        let method = match Method::parse_in(line0, 0, j1) {
            Err(_) => {
                return Err(ParseError::InvalidMethod);
            },
            Ok(m) => m,
        };
        let version = match Version::parse_in(line0, j2 + 1, n0) {
            Err(_) => {
                return Err(ParseError::InvalidVersion);
            },
            Ok(ver) => ver,
        };
        let path = chars_to_string(line0, j1 + 1, j2);
        proof {
            assert(parse_request_line(line0@) == Ok::<(Method, Seq<char>, Version), ParseError>((method, path@, version)));
        }
        let headers = match parse_header_lines(&lines, 1) {
            Err(e) => {
                proof {
                    assert(lines.deep_view().subrange(1, lines.deep_view().len() as int)
                        =~= glines.drop_first());
                }
                return Err(e);
            },
            Ok(h) => h,
        };
        proof {
            assert(lines.deep_view().subrange(1, lines.deep_view().len() as int)
                =~= glines.drop_first());
        }
        Ok(Request { method, path, version, headers, body })
    }

    /// Writes the request in canonical CRLF wire form: request line,
    /// header lines in insertion order, blank line, body verbatim. Total:
    /// it cannot fail.
    pub fn serialize(&self) -> (r: String)
        ensures
            r@ == Request::spec_serialize(self@),
    {
        let mut out = String::new();
        let mt = self.method.to_text();
        out.append(mt.as_str());
        out.append(" ");
        out.append(self.path.as_str());
        out.append(" ");
        let vt = self.version.to_text();
        out.append(vt.as_str());
        out.append("\r\n");
        proof {
            reveal_strlit(" ");
            reveal_strlit("\r\n");
            assert(" "@ =~= seq![' ']);
            assert("\r\n"@ =~= crlf());
            assert(out@ =~= self@.start_line() + crlf());
        }
        let ghost mid = out@;
        write_headers(&mut out, &self.headers);
        out.append("\r\n");
        out.append(self.body.as_str());
        proof {
            reveal_strlit("\r\n");
            assert("\r\n"@ =~= crlf());
            let lines = seq![self@.start_line()] + header_lines_of(self@.headers);
            assert(lines[0] == self@.start_line());
            assert(lines.drop_first() =~= header_lines_of(self@.headers));
            assert(lines_block(lines) == lines[0] + crlf() + lines_block(lines.drop_first()));
            assert(out@ =~= Request::spec_serialize(self@));
        }
        out
    }
}

/// Round-trip law: a well-formed request serialized to wire text and
/// parsed back yields the request unchanged.
pub proof fn lemma_request_round_trip(d: RequestView)
    requires
        d.wf(),
    ensures
        Request::spec_parse(Request::spec_serialize(d)) == Ok::<RequestView, ParseError>(d),
{
    let sl = d.start_line();
    let hls = header_lines_of(d.headers);
    let lines = seq![sl] + hls;
    let t = Request::spec_serialize(d);
    lemma_method_parse_token(d.method);
    lemma_version_parse_token(d.version);
    let mt = d.method.token();
    let vt = d.version.token();
    assert(sl =~= mt + seq![' '] + d.path + seq![' '] + vt);
    assert forall|j: int| 0 <= j < sl.len() implies sl[j] != '\r' && sl[j] != '\n' by {
        if j < mt.len() {
            assert(sl[j] == mt[j]);
        } else if j == mt.len() {
            assert(sl[j] == ' ');
        } else if j < mt.len() + 1 + d.path.len() {
            assert(sl[j] == d.path[j - mt.len() - 1]);
        } else if j == mt.len() + 1 + d.path.len() {
            assert(sl[j] == ' ');
        } else {
            assert(sl[j] == vt[j - mt.len() - 2 - d.path.len()]);
        }
    }
    assert forall|i: int| 0 <= i < lines.len() implies line_ok(#[trigger] lines[i])
        && lines[i].len() > 0 by {
        if i == 0 {
            assert(lines[0] == sl);
        } else {
            let p = d.headers[i - 1];
            assert(crate::wire::name_ok(p.0) && crate::wire::value_ok(p.1));
            assert(lines[i] == p.0 + seq![':', ' '] + p.1);
            assert forall|j: int| 0 <= j < lines[i].len() implies lines[i][j] != '\r'
                && lines[i][j] != '\n' by {
                if j < p.0.len() {
                    assert(lines[i][j] == p.0[j]);
                } else if j == p.0.len() {
                    assert(lines[i][j] == ':');
                } else if j == p.0.len() + 1 {
                    assert(lines[i][j] == ' ');
                } else {
                    assert(lines[i][j] == p.1[j - p.0.len() - 2]);
                }
            }
        }
    }
    lemma_render_delim(lines, d.body);
    let p = crlf_join(lines).len();
    lemma_lines_block_join(lines);
    assert(t =~= crlf_join(lines) + crlf() + crlf() + d.body);
    assert(find_delim_from(t, 0) == Some(p));
    assert(t.subrange(0, p as int) =~= crlf_join(lines));
    assert(t.subrange(p as int + 4, t.len() as int) =~= d.body);
    lemma_split_crlf_join(lines);
    assert(split_lines(t.subrange(0, p as int)) == lines);
    // The request line parses back to its three components.
    assert forall|j: int| 0 <= j < mt.len() implies sl[j] != ' ' by {
        assert(sl[j] == mt[j]);
    }
    assert(sl[mt.len() as int] == ' ');
    lemma_find_char_at(sl, ' ', 0, mt.len());
    assert(sl.subrange(0, mt.len() as int) =~= mt);
    let rest = sl.subrange(mt.len() as int + 1, sl.len() as int);
    assert(rest =~= d.path + seq![' '] + vt);
    assert forall|j: int| 0 <= j < d.path.len() implies rest[j] != ' ' by {
        assert(rest[j] == d.path[j]);
    }
    assert(rest[d.path.len() as int] == ' ');
    lemma_find_char_at(rest, ' ', 0, d.path.len());
    assert(rest.subrange(0, d.path.len() as int) =~= d.path);
    let vtok = rest.subrange(d.path.len() as int + 1, rest.len() as int);
    assert(vtok =~= vt);
    lemma_find_char_none(vtok, ' ', 0);
    assert(parse_request_line(sl) == Ok::<(Method, Seq<char>, Version), ParseError>((d.method, d.path, d.version)));
    // The header lines build the mapping back.
    assert(Seq::<(Seq<char>, Seq<char>)>::empty() + d.headers =~= d.headers);
    lemma_build_headers_inverse(Seq::empty(), d.headers);
    assert(lines.drop_first() =~= hls);
    assert(build_headers(Seq::empty(), lines.drop_first()) == Some(d.headers));
    assert(Request::spec_parse(t) == Ok::<RequestView, ParseError>(
        RequestView {
            method: d.method,
            path: d.path,
            version: d.version,
            headers: d.headers,
            body: d.body,
        },
    ));
    assert(RequestView {
        method: d.method,
        path: d.path,
        version: d.version,
        headers: d.headers,
        body: d.body,
    } == d);
}

} // verus!
