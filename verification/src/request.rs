//! The request model and parser: request line, headers, body — and the
//! router that maps a parsed request to one of the built-in behaviors.

use crate::byteops::{bytes_eq, lower_bytes, to_lower};
use crate::gzip::{compress_with_gzip, gzip_of};
use crate::headers::HeaderMap;
use crate::numbers::{dec_digits, render_dec};
use crate::response::{content_type_text, ContentType, Response, StatusCode};
use crate::split::{find_first, find_sub, lemma_find_sub_characterization,
    lemma_matches_at_single, lemma_split_on_concat, lemma_split_on_whole, matches_at, split_all,
    split_on};
use crate::wire::{accept_encoding_key, accept_encoding_key_bytes, colon_sp, colon_sp_bytes,
    content_encoding_name, content_encoding_name_bytes,
    content_length_name, content_length_name_bytes, content_type_name, content_type_name_bytes,
    crlf, crlf_bytes, double_crlf, double_crlf_bytes, echo_token, echo_token_bytes, files_token,
    files_token_bytes, get_token, get_token_bytes, gzip_token, gzip_token_bytes, http_protocol,
    http_protocol_bytes, post_token, post_token_bytes, user_agent_token, user_agent_token_bytes};
use vstd::prelude::*;

verus! {

/// The request methods the server understands.
#[derive(Clone, Copy, Debug, PartialEq, Eq, Structural)]
pub enum RequestType {
    Get,
    Post,
}

/// The protocol versions the server understands.
#[derive(Clone, Copy, Debug, PartialEq, Eq, Structural)]
pub enum ProtocolVersion {
    HTTP1P1,
}

/// Why a request could not be read or parsed. Either error is fatal to its
/// connection: no response is sent for it.
#[derive(Clone, Copy, Debug, PartialEq, Eq, Structural)]
pub enum ParseError {
    MalformedRequestLine,
    MalformedContentLength,
}

/// The first line of a request: method, target, version.
pub struct RequestLine {
    pub request_type: RequestType,
    pub url: Vec<u8>,
    pub protocol: ProtocolVersion,
}

/// The method a token denotes, if any.
pub open spec fn spec_parse_method(tok: Seq<u8>) -> Option<RequestType> {
    if tok == get_token() {
        Some(RequestType::Get)
    } else if tok == post_token() {
        Some(RequestType::Post)
    } else {
        None
    }
}

/// What parsing a request line yields: the method and the target, provided
/// the line has exactly three space-separated tokens, a supported method,
/// and the supported protocol version.
pub open spec fn spec_parse_line(line: Seq<u8>) -> Option<(RequestType, Seq<u8>)> {
    let toks = split_on(line, seq![32u8]);
    if toks.len() != 3 || toks[2] != http_protocol() {
        None
    } else {
        match spec_parse_method(toks[0]) {
            Some(t) => Some((t, toks[1])),
            None => None,
        }
    }
}

impl RequestLine {
    /// Parse `METHOD SP TARGET SP VERSION`. Returns `None` exactly when the
    /// token count is not three, the version is unsupported, or the method
    /// is unsupported.
    pub fn parse_line(line: &[u8]) -> (r: Option<RequestLine>)
        ensures
            match r {
                Some(rl) => spec_parse_line(line@) == Some((rl.request_type, rl.url@))
                    && rl.protocol is HTTP1P1,
                None => spec_parse_line(line@) is None,
            },
    {
        let sp: Vec<u8> = vec![32u8];
        proof {
            assert(sp@ =~= seq![32u8]);
        }
        let mut toks = split_all(line, sp.as_slice());
        proof {
            assert(toks.deep_view().len() == toks@.len());
        }
        if toks.len() != 3 {
            return None;
        }
        proof {
            assert(toks.deep_view()[0] == toks@[0]@);
            assert(toks.deep_view()[1] == toks@[1]@);
            assert(toks.deep_view()[2] == toks@[2]@);
        }
        let http = http_protocol_bytes();
        if !bytes_eq(toks[2].as_slice(), http.as_slice()) {
            return None;
        }
        let get = get_token_bytes();
        let post = post_token_bytes();
        let request_type = if bytes_eq(toks[0].as_slice(), get.as_slice()) {
            RequestType::Get
        } else if bytes_eq(toks[0].as_slice(), post.as_slice()) {
            RequestType::Post
        } else {
            return None;
        };
        let url = toks.swap_remove(1);
        Some(RequestLine { request_type, url, protocol: ProtocolVersion::HTTP1P1 })
    }
}

/// A request line built from a supported method token, any target without a
/// space, and the supported version parses back to exactly those parts.
pub proof fn lemma_parse_line_echoes(method: Seq<u8>, target: Seq<u8>)
    requires
        method == get_token() || method == post_token(),
        forall|i: int| 0 <= i < target.len() ==> target[i] != 32u8,
    ensures
        spec_parse_line(method + seq![32u8] + target + seq![32u8] + http_protocol()) == Some(
            (
                if method == get_token() {
                    RequestType::Get
                } else {
                    RequestType::Post
                },
                target,
            ),
        ),
{
    let sp = seq![32u8];
    let tail = target + seq![32u8] + http_protocol();
    let line = method + seq![32u8] + target + seq![32u8] + http_protocol();
    lemma_matches_at_single(method + sp, 32u8);
    assert(forall|i: int| 0 <= i < method.len() ==> method[i] != 32u8) by {
        assert(method == get_token() || method == post_token());
    }
    assert(forall|j: int| !matches_at(method + sp, sp, j) || j == method.len()) by {
        assert(forall|i: int| 0 <= i < method.len() ==> (method + sp)[i] != 32u8);
    }
    lemma_split_on_concat(method, tail, sp);
    assert(line =~= method + sp + tail);
    lemma_matches_at_single(target + sp, 32u8);
    assert(forall|j: int| !matches_at(target + sp, sp, j) || j == target.len()) by {
        assert(forall|i: int| 0 <= i < target.len() ==> (target + sp)[i] != 32u8);
    }
    lemma_split_on_concat(target, http_protocol(), sp);
    lemma_matches_at_single(http_protocol(), 32u8);
    assert(forall|j: int| !matches_at(http_protocol(), sp, j)) by {
        assert(forall|i: int| 0 <= i < http_protocol().len() ==> http_protocol()[i] != 32u8);
    }
    lemma_split_on_whole(http_protocol(), sp);
    assert(split_on(line, sp) =~= seq![method, target, http_protocol()]);
    assert(split_on(line, sp)[2] == http_protocol());
    assert(method != http_protocol() && (method == get_token() || method == post_token()));
}

/// What parsing one header line yields: the ASCII-lowercased name before the
/// first `": "` and everything after it, or nothing if no `": "` occurs.
pub open spec fn spec_parse_header_line(line: Seq<u8>) -> Option<(Seq<u8>, Seq<u8>)> {
    match find_sub(line, colon_sp()) {
        Some(i) => Some((lower_bytes(line.subrange(0, i)), line.skip(i + 2))),
        None => None,
    }
}

/// The header map accumulated from `lines[i..]`, starting from `acc`:
/// each conforming line is inserted in turn, and the first line without a
/// `": "` separator ends the accumulation.
pub open spec fn spec_accumulate_headers(
    lines: Seq<Seq<u8>>,
    i: int,
    acc: Map<Seq<u8>, Seq<u8>>,
) -> Map<Seq<u8>, Seq<u8>>
    decreases lines.len() - i,
{
    if !(0 <= i < lines.len()) {
        acc
    } else {
        match spec_parse_header_line(lines[i]) {
            Some(kv) => spec_accumulate_headers(lines, i + 1, acc.insert(kv.0, kv.1)),
            None => acc,
        }
    }
}

/// What parsing a whole framed request yields: the text is split on the
/// blank line, the first segment into lines; the first line must parse as a
/// request line, and the following lines are accumulated as headers up to
/// the first non-conforming one.
pub open spec fn spec_parse_request(text: Seq<u8>) -> Option<
    (RequestType, Seq<u8>, Map<Seq<u8>, Seq<u8>>),
> {
    let segments = split_on(text, double_crlf());
    let lines = split_on(segments[0], crlf());
    match spec_parse_line(lines[0]) {
        Some(tu) => Some(
            (tu.0, tu.1, spec_accumulate_headers(lines, 1, Map::<Seq<u8>, Seq<u8>>::empty())),
        ),
        None => None,
    }
}

/// One parsed request: request line, headers, body bytes.
pub struct Request {
    pub line: RequestLine,
    pub headers: HeaderMap,
    pub body: Vec<u8>,
}

impl Request {
    /// Well-formed: the header map holds no duplicate names.
    pub open spec fn wf(&self) -> bool {
        self.headers.wf()
    }

    /// Split one header line on its first `": "` into the lowercased name
    /// and the value.
    pub fn parse_header_line(header_line: &[u8]) -> (r: Option<(Vec<u8>, Vec<u8>)>)
        ensures
            match r {
                Some(kv) => spec_parse_header_line(header_line@) == Some((kv.0@, kv.1@)),
                None => spec_parse_header_line(header_line@) is None,
            },
    {
        let cs = colon_sp_bytes();
        let n = header_line.len();
        match find_first(header_line, cs.as_slice()) {
            Some(i) => {
                proof {
                    lemma_find_sub_characterization(header_line@, colon_sp());
                }
                let name = vstd::slice::slice_subrange(header_line, 0, i);
                let key = to_lower(name);
                let value = vstd::slice::slice_to_vec(
                    vstd::slice::slice_subrange(header_line, i + 2, n),
                );
                proof {
                    assert(value@ =~= header_line@.skip(i + 2));
                }
                Some((key, value))
            },
            None => None,
        }
    }

    /// Parse the framed text (start line and headers, as joined lines) and
    /// attach the separately read body unchanged.
    pub fn parse_string_with_body(request_string: Vec<u8>, body: Vec<u8>) -> (r: Result<
        Request,
        ParseError,
    >)
        ensures
            match r {
                Ok(req) => req.wf() && req.line.protocol is HTTP1P1 && req.body == body
                    && spec_parse_request(request_string@) == Some(
                    (req.line.request_type, req.line.url@, req.headers@),
                ),
                Err(e) => e is MalformedRequestLine && spec_parse_request(request_string@) is None,
            },
    {
        let dcrlf = double_crlf_bytes();
        let segments = split_all(request_string.as_slice(), dcrlf.as_slice());
        let crlf_v = crlf_bytes();
        proof {
            assert(segments.deep_view()[0] == segments@[0]@);
        }
        let lines = split_all(segments[0].as_slice(), crlf_v.as_slice());
        proof {
            assert(lines.deep_view()[0] == lines@[0]@);
        }
        let line = match RequestLine::parse_line(lines[0].as_slice()) {
            Some(rl) => rl,
            None => {
                return Err(ParseError::MalformedRequestLine);
            },
        };
        let ghost lines_dv = lines.deep_view();
        let mut headers = HeaderMap::new();
        let mut i: usize = 1;
        let mut done = false;
        while i < lines.len() && !done
            invariant
                1 <= i <= lines_dv.len(),
                lines_dv == lines.deep_view(),
                lines_dv.len() == lines@.len(),
                headers.wf(),
                spec_accumulate_headers(lines_dv, 1, Map::<Seq<u8>, Seq<u8>>::empty())
                    == spec_accumulate_headers(lines_dv, i as int, headers@),
                done ==> spec_parse_header_line(lines_dv[i as int]) is None,
            decreases lines@.len() - i + (if done { 0int } else { 1int }),
        {
            proof {
                assert(lines.deep_view()[i as int] == lines@[i as int]@);
            }
            match Self::parse_header_line(lines[i].as_slice()) {
                Some(kv) => {
                    proof {
                        let l = lines_dv[i as int];
                        match find_sub(l, colon_sp()) {
                            Some(i0) => {
                                crate::byteops::lemma_lower_bytes_idempotent(l.subrange(0, i0));
                            },
                            None => {},
                        }
                        assert(lower_bytes(kv.0@) == kv.0@);
                    }
                    headers.insert(kv.0, kv.1);
                    i = i + 1;
                },
                None => {
                    done = true;
                },
            }
        }
        proof {
            if !done {
                assert(i as int == lines_dv.len());
            }
            assert(spec_accumulate_headers(lines_dv, i as int, headers@) == headers@);
        }
        Ok(Request { line, headers, body })
    }

    /// Look a header up by name, case-insensitively.
    pub fn read_field_from_header(&self, field: &[u8]) -> (r: Option<&Vec<u8>>)
        requires
            self.wf(),
        ensures
            match r {
                Some(v) => self.headers@.contains_key(lower_bytes(field@)) && v@
                    == self.headers@[lower_bytes(field@)],
                None => !self.headers@.contains_key(lower_bytes(field@)),
            },
    {
        self.headers.get(field)
    }
}

/// What the router asks the file store to do for a `files` route.
pub enum FileOperation {
    ReadFile { path: Vec<u8> },
    WriteFile { path: Vec<u8>, content: Vec<u8> },
}

/// What routing a request yields: either a finished response, or a file
/// operation whose outcome decides the response.
pub enum Routed {
    Done(Response),
    File(FileOperation),
}

/// How a file operation went, as reported back by the file store.
pub enum FileOutcome {
    ReadOk(Vec<u8>),
    ReadFailed,
    WriteOk,
    WriteFailed,
}

/// The target's path segments after the leading slash.
pub open spec fn spec_segments(url: Seq<u8>) -> Seq<Seq<u8>> {
    split_on(url, seq![47u8]).skip(1)
}

/// Does `b` separate encodings in an `Accept-Encoding` value? The value is
/// a comma-or-space-separated list.
pub open spec fn is_list_sep(b: u8) -> bool {
    b == 44 || b == 32
}

/// Does `gzip` stand as a whole token — a maximal run free of commas and
/// spaces — at position `i` of the listed encodings?
pub open spec fn spec_gzip_token_at(s: Seq<u8>, i: int) -> bool {
    &&& 0 <= i
    &&& i + 4 <= s.len()
    &&& s.subrange(i, i + 4) == gzip_token()
    &&& (i == 0 || is_list_sep(s[i - 1]))
    &&& (i + 4 == s.len() || is_list_sep(s[i + 4]))
}

/// Is `gzip` among the listed encodings?
pub open spec fn spec_has_gzip(s: Seq<u8>) -> bool {
    exists|i: int| spec_gzip_token_at(s, i)
}

/// Did the client advertise a server-supported encoding? The
/// `Accept-Encoding` value is read as a comma-or-space-separated list, and
/// `gzip` is the only encoding the server supports.
pub open spec fn spec_accepts_gzip(headers: Map<Seq<u8>, Seq<u8>>) -> bool {
    &&& headers.contains_key(accept_encoding_key())
    &&& spec_has_gzip(headers[accept_encoding_key()])
}

/// The file name resolved under the served root: a `/` separator is
/// inserted only when the root lacks a trailing one.
pub open spec fn spec_file_path(root: Seq<u8>, name: Seq<u8>) -> Seq<u8> {
    if root.len() > 0 && root.last() == 47u8 {
        root + name
    } else {
        root + seq![47u8] + name
    }
}

/// A response with the given status and neither headers nor body.
pub open spec fn spec_is_empty_response(r: Response, status: StatusCode) -> bool {
    &&& r.status == status
    &&& r.headers.entries_seq() == Seq::<(Seq<u8>, Seq<u8>)>::empty()
    &&& r.body@ == Seq::<u8>::empty()
}

/// A `200 OK` response carrying `body` with exactly a `Content-Type` and a
/// `Content-Length` header.
pub open spec fn spec_is_payload_response(r: Response, ct: ContentType, body: Seq<u8>) -> bool {
    &&& r.status is OK
    &&& r.body@ == body
    &&& r.headers.entries_seq() == seq![
        (content_type_name(), content_type_text(ct)),
        (content_length_name(), dec_digits(body.len())),
    ]
}

/// The echo response for `text`: plain text, compressed (with the headers
/// saying so and the length recomputed) exactly when the request accepts
/// gzip.
pub open spec fn spec_is_echo_response(
    r: Response,
    req_headers: Map<Seq<u8>, Seq<u8>>,
    text: Seq<u8>,
) -> bool {
    if spec_accepts_gzip(req_headers) {
        &&& r.status is OK
        &&& r.body@ == gzip_of(text)
        &&& r.headers.entries_seq() == seq![
            (content_type_name(), content_type_text(ContentType::PlainText)),
            (content_length_name(), dec_digits(gzip_of(text).len())),
            (content_encoding_name(), gzip_token()),
        ]
    } else {
        spec_is_payload_response(r, ContentType::PlainText, text)
    }
}

/// The routing contract: which behavior each target and method selects,
/// and what the router hands back for it.
pub open spec fn spec_routed(req: Request, root: Seq<u8>, r: Routed) -> bool {
    let url = req.line.url@;
    let segs = spec_segments(url);
    if url == seq![47u8] {
        match r {
            Routed::Done(resp) => resp.wf() && spec_is_empty_response(resp, StatusCode::OK),
            _ => false,
        }
    } else if segs.len() == 0 {
        match r {
            Routed::Done(resp) => resp.wf() && spec_is_empty_response(resp, StatusCode::NotFound),
            _ => false,
        }
    } else if segs[0] == echo_token() && segs.len() > 1 {
        match r {
            Routed::Done(resp) => resp.wf() && spec_is_echo_response(resp, req.headers@, segs[1]),
            _ => false,
        }
    } else if segs[0] == user_agent_token() {
        match r {
            Routed::Done(resp) => resp.wf() && if req.headers@.contains_key(user_agent_token()) {
                spec_is_payload_response(
                    resp,
                    ContentType::PlainText,
                    req.headers@[user_agent_token()],
                )
            } else {
                spec_is_empty_response(resp, StatusCode::NotFound)
            },
            _ => false,
        }
    } else if segs[0] == files_token() && segs.len() > 1 {
        match req.line.request_type {
            RequestType::Get => match r {
                Routed::File(FileOperation::ReadFile { path }) => path@ == spec_file_path(
                    root,
                    segs[1],
                ),
                _ => false,
            },
            RequestType::Post => match r {
                Routed::File(FileOperation::WriteFile { path, content }) => path@
                    == spec_file_path(root, segs[1]) && content@ == req.body@,
                _ => false,
            },
        }
    } else {
        match r {
            Routed::Done(resp) => resp.wf() && spec_is_empty_response(resp, StatusCode::NotFound),
            _ => false,
        }
    }
}

/// The file name resolved under the served root.
fn build_file_path(root: &[u8], name: &[u8]) -> (r: Vec<u8>)
    ensures
        r@ == spec_file_path(root@, name@),
{
    let mut path = vstd::slice::slice_to_vec(root);
    if !(root.len() > 0 && root[root.len() - 1] == 47) {
        path.push(47);
    }
    path.extend_from_slice(name);
    proof {
        assert(path@ =~= spec_file_path(root@, name@));
    }
    path
}

impl Request {
    /// The `Content-Type` and `Content-Length` headers every payload
    /// response carries.
    pub fn construct_headers(&self, content_type: ContentType, response_body: &[u8]) -> (r:
        HeaderMap)
        ensures
            r.wf(),
            r.entries_seq() == seq![
                (content_type_name(), content_type_text(content_type)),
                (content_length_name(), dec_digits(response_body@.len())),
            ],
    {
        let mut headers = HeaderMap::new();
        headers.insert(content_type_name_bytes(), content_type.to_bytes());
        proof {
            assert(lower_bytes(content_length_name()) != lower_bytes(content_type_name())) by {
                assert(lower_bytes(content_length_name()).len() == 14);
                assert(lower_bytes(content_type_name()).len() == 12);
            }
        }
        headers.insert(content_length_name_bytes(), render_dec(response_body.len()));
        proof {
            assert(headers.entries_seq() =~= seq![
                (content_type_name(), content_type_text(content_type)),
                (content_length_name(), dec_digits(response_body@.len())),
            ]);
        }
        headers
    }

    /// The first client-listed encoding the server supports, reading the
    /// value as a comma-or-space-separated list; only `gzip` is supported,
    /// so the answer is `gzip` exactly when it appears as a whole token.
    pub fn find_available_encoding(&self, encodings: &[u8]) -> (r: Option<Vec<u8>>)
        ensures
            match r {
                Some(v) => v@ == gzip_token() && spec_has_gzip(encodings@),
                None => !spec_has_gzip(encodings@),
            },
    {
        let g = gzip_token_bytes();
        let n = encodings.len();
        if n < 4 {
            proof {
                assert(forall|j: int| !spec_gzip_token_at(encodings@, j));
            }
            return None;
        }
        let mut i: usize = 0;
        while i <= n - 4
            invariant
                4 <= n,
                n == encodings@.len(),
                i <= n - 3,
                g@ == gzip_token(),
                forall|j: int| 0 <= j < i ==> !spec_gzip_token_at(encodings@, j),
            decreases n - i,
        {
            let piece = vstd::slice::slice_subrange(encodings, i, i + 4);
            let mut matched = bytes_eq(piece, g.as_slice());
            if matched && i > 0 {
                let prev = encodings[i - 1];
                if !(prev == 44 || prev == 32) {
                    matched = false;
                    proof {
                        assert(!is_list_sep(encodings@[i - 1]));
                    }
                }
            }
            if matched && i + 4 < n {
                let next = encodings[i + 4];
                if !(next == 44 || next == 32) {
                    matched = false;
                    proof {
                        assert(!is_list_sep(encodings@[i + 4]));
                    }
                }
            }
            proof {
                assert(piece@ =~= encodings@.subrange(i as int, i + 4));
            }
            if matched {
                proof {
                    assert(spec_gzip_token_at(encodings@, i as int));
                }
                return Some(g);
            }
            proof {
                assert(!spec_gzip_token_at(encodings@, i as int));
            }
            i = i + 1;
        }
        proof {
            assert forall|j: int| !spec_gzip_token_at(encodings@, j) by {
                if 0 <= j && j + 4 <= encodings@.len() {
                    assert(j < i);
                }
            }
        }
        None
    }

    /// The echo response: the given text as a plain-text body, gzip-
    /// compressed exactly when the request accepts it.
    pub fn construct_echo_response(&self, text: &[u8]) -> (r: Response)
        requires
            self.wf(),
        ensures
            r.wf(),
            spec_is_echo_response(r, self.headers@, text@),
    {
        let ae = accept_encoding_key_bytes();
        proof {
            assert(lower_bytes(accept_encoding_key()) =~= accept_encoding_key());
        }
        let mut use_gzip = false;
        match self.headers.get(ae.as_slice()) {
            Some(encodings) => {
                match self.find_available_encoding(encodings.as_slice()) {
                    Some(_enc) => {
                        use_gzip = true;
                    },
                    None => {},
                }
            },
            None => {},
        }
        if use_gzip {
            let body_vec = vstd::slice::slice_to_vec(text);
            let compressed = compress_with_gzip(&body_vec);
            let mut headers = self.construct_headers(
                ContentType::PlainText,
                compressed.as_slice(),
            );
            proof {
                let entries = headers.entries_seq();
                assert(lower_bytes(content_encoding_name()).len() == 16);
                assert(lower_bytes(content_type_name()).len() == 12);
                assert(lower_bytes(content_length_name()).len() == 14);
                crate::headers::lemma_map_of_no_match(entries, lower_bytes(
                    content_encoding_name(),
                ));
            }
            let ghost entries_before = headers.entries_seq();
            headers.insert(content_encoding_name_bytes(), gzip_token_bytes());
            proof {
                assert(headers.entries_seq() =~= entries_before.push(
                    (content_encoding_name(), gzip_token()),
                ));
                assert(headers.entries_seq() =~= seq![
                    (content_type_name(), content_type_text(ContentType::PlainText)),
                    (content_length_name(), dec_digits(gzip_of(text@).len())),
                    (content_encoding_name(), gzip_token()),
                ]);
            }
            Response::construct_ok_with_body(compressed, Some(headers))
        } else {
            let body_vec = vstd::slice::slice_to_vec(text);
            let headers = self.construct_headers(ContentType::PlainText, body_vec.as_slice());
            Response::construct_ok_with_body(body_vec, Some(headers))
        }
    }

    /// The user-agent response: the `User-Agent` header's value as a
    /// plain-text body, or `404 Not Found` when the header is absent.
    pub fn construct_user_agent_response(&self) -> (r: Response)
        requires
            self.wf(),
        ensures
            r.wf(),
            if self.headers@.contains_key(user_agent_token()) {
                spec_is_payload_response(
                    r,
                    ContentType::PlainText,
                    self.headers@[user_agent_token()],
                )
            } else {
                spec_is_empty_response(r, StatusCode::NotFound)
            },
    {
        let ua = user_agent_token_bytes();
        proof {
            assert(lower_bytes(user_agent_token()) =~= user_agent_token());
        }
        let value = match self.read_field_from_header(ua.as_slice()) {
            Some(v) => vstd::slice::slice_to_vec(v.as_slice()),
            None => {
                return Response::construct_not_found();
            },
        };
        let headers = self.construct_headers(ContentType::PlainText, value.as_slice());
        Response::construct_ok_with_body(value, Some(headers))
    }

    /// The response for a `files` route once the file store has reported
    /// the outcome of the requested operation: file bytes become a `200`
    /// octet-stream payload, a completed write becomes `201 Created`, and
    /// any failure becomes `404 Not Found`.
    pub fn construct_file_response(&self, outcome: FileOutcome) -> (r: Response)
        requires
            self.wf(),
        ensures
            r.wf(),
            match outcome {
                FileOutcome::ReadOk(data) => spec_is_payload_response(
                    r,
                    ContentType::OctetStream,
                    data@,
                ),
                FileOutcome::ReadFailed => spec_is_empty_response(r, StatusCode::NotFound),
                FileOutcome::WriteOk => spec_is_empty_response(r, StatusCode::Created),
                FileOutcome::WriteFailed => spec_is_empty_response(r, StatusCode::NotFound),
            },
    {
        match outcome {
            FileOutcome::ReadOk(data) => {
                let headers = self.construct_headers(ContentType::OctetStream, data.as_slice());
                Response::construct_ok_with_body(data, Some(headers))
            },
            FileOutcome::ReadFailed => Response::construct_not_found(),
            FileOutcome::WriteOk => Response::construct_created(),
            FileOutcome::WriteFailed => Response::construct_not_found(),
        }
    }

    /// Route the request: finished responses for the built-in behaviors,
    /// or the file operation the file store must perform under `root`.
    pub fn construct_response(&self, root: &[u8]) -> (r: Routed)
        requires
            self.wf(),
        ensures
            spec_routed(*self, root@, r),
    {
        let slash: Vec<u8> = vec![47u8];
        proof {
            assert(slash@ =~= seq![47u8]);
        }
        if bytes_eq(self.line.url.as_slice(), slash.as_slice()) {
            return Routed::Done(Response::default());
        }
        let segs = split_all(self.line.url.as_slice(), slash.as_slice());
        let ghost segs_dv = segs.deep_view();
        proof {
            assert(spec_segments(self.line.url@) =~= segs_dv.skip(1));
        }
        if segs.len() <= 1 {
            return Routed::Done(Response::construct_not_found());
        }
        proof {
            assert(segs_dv[1] == segs@[1]@);
            assert(spec_segments(self.line.url@)[0] == segs_dv[1]);
        }
        let echo = echo_token_bytes();
        if bytes_eq(segs[1].as_slice(), echo.as_slice()) && segs.len() > 2 {
            proof {
                assert(segs_dv[2] == segs@[2]@);
                assert(spec_segments(self.line.url@)[1] == segs_dv[2]);
            }
            return Routed::Done(self.construct_echo_response(segs[2].as_slice()));
        }
        let ua = user_agent_token_bytes();
        if bytes_eq(segs[1].as_slice(), ua.as_slice()) {
            return Routed::Done(self.construct_user_agent_response());
        }
        let files = files_token_bytes();
        if bytes_eq(segs[1].as_slice(), files.as_slice()) && segs.len() > 2 {
            proof {
                assert(segs_dv[2] == segs@[2]@);
                assert(spec_segments(self.line.url@)[1] == segs_dv[2]);
            }
            let path = build_file_path(root, segs[2].as_slice());
            match self.line.request_type {
                RequestType::Get => {
                    return Routed::File(FileOperation::ReadFile { path });
                },
                RequestType::Post => {
                    let content = vstd::slice::slice_to_vec(self.body.as_slice());
                    return Routed::File(FileOperation::WriteFile { path, content });
                },
            }
        }
        Routed::Done(Response::construct_not_found())
    }
}

/// An echo request whose headers accept gzip is answered with the
/// compressed text: the routed response is `200 OK`, its body is the gzip
/// stream of the echoed segment, its `Content-Encoding` header is `gzip`,
/// and its `Content-Length` header is the compressed length — not the
/// length of the uncompressed text.
pub proof fn lemma_echo_gzip_response(req: Request, root: Seq<u8>, r: Routed)
    requires
        req.wf(),
        spec_routed(req, root, r),
        req.line.url@ != seq![47u8],
        spec_segments(req.line.url@).len() > 1,
        spec_segments(req.line.url@)[0] == echo_token(),
        spec_accepts_gzip(req.headers@),
    ensures
        match r {
            Routed::Done(resp) => {
                let text = spec_segments(req.line.url@)[1];
                &&& resp.status is OK
                &&& resp.body@ == gzip_of(text)
                &&& resp.headers@.contains_key(lower_bytes(content_encoding_name()))
                &&& resp.headers@[lower_bytes(content_encoding_name())] == gzip_token()
                &&& resp.headers@.contains_key(lower_bytes(content_length_name()))
                &&& resp.headers@[lower_bytes(content_length_name())] == dec_digits(
                    gzip_of(text).len(),
                )
            },
            _ => false,
        },
{
    match r {
        Routed::Done(resp) => {
            let entries = resp.headers.entries_seq();
            crate::headers::lemma_map_of_match(entries, lower_bytes(content_encoding_name()), 2);
            crate::headers::lemma_map_of_match(entries, lower_bytes(content_length_name()), 1);
        },
        _ => {},
    }
}

/// Writing a file and reading it back returns the stored bytes exactly:
/// for one target under one served root, the `files` POST hands the store
/// the request body verbatim under the resolved path, and the `files` GET
/// asks the store for that same path — so a store that returns what was
/// written returns the posted body, and `construct_file_response` turns it
/// into `200 OK` with exactly those bytes (its contract).
pub proof fn lemma_files_round_trip(
    post: Request,
    get: Request,
    root: Seq<u8>,
    posted: Routed,
    fetched: Routed,
)
    requires
        post.wf(),
        get.wf(),
        post.line.request_type is Post,
        get.line.request_type is Get,
        post.line.url@ == get.line.url@,
        post.line.url@ != seq![47u8],
        spec_segments(post.line.url@).len() > 1,
        spec_segments(post.line.url@)[0] == files_token(),
        spec_routed(post, root, posted),
        spec_routed(get, root, fetched),
    ensures
        match posted {
            Routed::File(FileOperation::WriteFile { path, content }) => {
                &&& content@ == post.body@
                &&& match fetched {
                    Routed::File(FileOperation::ReadFile { path: read_path }) => read_path@
                        == path@,
                    _ => false,
                }
            },
            _ => false,
        },
{
}

} // verus!
