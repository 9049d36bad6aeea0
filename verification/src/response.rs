//! The response model: status, headers, body, and the serializer that turns
//! a response into wire bytes.

use crate::headers::HeaderMap;
use crate::wire::{colon_sp, crlf, crlf_bytes, http_protocol, http_protocol_bytes};
use vstd::prelude::*;

verus! {

/// The statuses the built-in handlers produce.
#[derive(Clone, Copy, Debug, PartialEq, Eq, Structural)]
pub enum StatusCode {
    OK,
    NotFound,
    Created,
}

/// The content types the built-in handlers attach.
#[derive(Clone, Copy, Debug, PartialEq, Eq, Structural)]
pub enum ContentType {
    PlainText,
    OctetStream,
}

/// The display text of a content type: `"text/plain"` or
/// `"application/octet-stream"`.
pub open spec fn content_type_text(ct: ContentType) -> Seq<u8> {
    match ct {
        ContentType::PlainText => seq![
            't' as u8,
            'e' as u8,
            'x' as u8,
            't' as u8,
            '/' as u8,
            'p' as u8,
            'l' as u8,
            'a' as u8,
            'i' as u8,
            'n' as u8,
        ],
        ContentType::OctetStream => seq![
            'a' as u8,
            'p' as u8,
            'p' as u8,
            'l' as u8,
            'i' as u8,
            'c' as u8,
            'a' as u8,
            't' as u8,
            'i' as u8,
            'o' as u8,
            'n' as u8,
            '/' as u8,
            'o' as u8,
            'c' as u8,
            't' as u8,
            'e' as u8,
            't' as u8,
            '-' as u8,
            's' as u8,
            't' as u8,
            'r' as u8,
            'e' as u8,
            'a' as u8,
            'm' as u8,
        ],
    }
}

impl ContentType {
    /// The display text as bytes.
    pub fn to_bytes(&self) -> (r: Vec<u8>)
        ensures
            r@ == content_type_text(*self),
    {
        match self {
            ContentType::PlainText => {
                let v: Vec<u8> = vec![
                    't' as u8,
                    'e' as u8,
                    'x' as u8,
                    't' as u8,
                    '/' as u8,
                    'p' as u8,
                    'l' as u8,
                    'a' as u8,
                    'i' as u8,
                    'n' as u8,
                ];
                proof {
                    assert(v@ =~= content_type_text(*self));
                }
                v
            },
            ContentType::OctetStream => {
                let v: Vec<u8> = vec![
                    'a' as u8,
                    'p' as u8,
                    'p' as u8,
                    'l' as u8,
                    'i' as u8,
                    'c' as u8,
                    'a' as u8,
                    't' as u8,
                    'i' as u8,
                    'o' as u8,
                    'n' as u8,
                    '/' as u8,
                    'o' as u8,
                    'c' as u8,
                    't' as u8,
                    'e' as u8,
                    't' as u8,
                    '-' as u8,
                    's' as u8,
                    't' as u8,
                    'r' as u8,
                    'e' as u8,
                    'a' as u8,
                    'm' as u8,
                ];
                proof {
                    assert(v@ =~= content_type_text(*self));
                }
                v
            },
        }
    }
}

/// The status text, with its leading space: `" 200 OK"`, `" 404 Not Found"`,
/// or `" 201 Created"`.
pub open spec fn status_text(s: StatusCode) -> Seq<u8> {
    match s {
        StatusCode::OK => seq![
            ' ' as u8,
            '2' as u8,
            '0' as u8,
            '0' as u8,
            ' ' as u8,
            'O' as u8,
            'K' as u8,
        ],
        StatusCode::NotFound => seq![
            ' ' as u8,
            '4' as u8,
            '0' as u8,
            '4' as u8,
            ' ' as u8,
            'N' as u8,
            'o' as u8,
            't' as u8,
            ' ' as u8,
            'F' as u8,
            'o' as u8,
            'u' as u8,
            'n' as u8,
            'd' as u8,
        ],
        StatusCode::Created => seq![
            ' ' as u8,
            '2' as u8,
            '0' as u8,
            '1' as u8,
            ' ' as u8,
            'C' as u8,
            'r' as u8,
            'e' as u8,
            'a' as u8,
            't' as u8,
            'e' as u8,
            'd' as u8,
        ],
    }
}

/// The status line: protocol, status text, line terminator.
pub open spec fn status_line_bytes(s: StatusCode) -> Seq<u8> {
    http_protocol() + status_text(s) + crlf()
}

/// The serialized header section: every entry as `Name: Value` plus a line
/// terminator, in stored order.
pub open spec fn header_block(entries: Seq<(Seq<u8>, Seq<u8>)>) -> Seq<u8>
    decreases entries.len(),
{
    if entries.len() == 0 {
        Seq::empty()
    } else {
        header_block(entries.drop_last()) + entries.last().0 + colon_sp() + entries.last().1
            + crlf()
    }
}

/// The wire bytes of a whole response. A `Created` response carries nothing
/// after its status line except the terminating blank line; otherwise the
/// headers are emitted, then a blank line, then the body (followed by a line
/// terminator) if it is non-empty.
pub open spec fn spec_serialize(
    status: StatusCode,
    entries: Seq<(Seq<u8>, Seq<u8>)>,
    body: Seq<u8>,
) -> Seq<u8> {
    status_line_bytes(status) + if status is Created {
        crlf()
    } else {
        header_block(entries) + crlf() + if body.len() > 0 {
            body + crlf()
        } else {
            Seq::empty()
        }
    }
}

/// One HTTP response: status, headers, body bytes.
pub struct Response {
    pub status: StatusCode,
    pub headers: HeaderMap,
    pub body: Vec<u8>,
}

impl Default for Response {
    /// The default response: `200 OK` with no headers and no body.
    fn default() -> (r: Response)
        ensures
            r.wf(),
            r.status is OK,
            r.headers@ == Map::<Seq<u8>, Seq<u8>>::empty(),
            r.headers.entries_seq() == Seq::<(Seq<u8>, Seq<u8>)>::empty(),
            r.body@ == Seq::<u8>::empty(),
    {
        let r = Response { status: StatusCode::OK, headers: HeaderMap::new(), body: Vec::new() };
        proof {
            assert(r.body@ =~= Seq::<u8>::empty());
        }
        r
    }
}

impl Response {
    /// Well-formed: the header map holds no duplicate names.
    pub open spec fn wf(&self) -> bool {
        self.headers.wf()
    }

    /// A response assembled from its parts.
    pub fn new(status: StatusCode, headers: HeaderMap, body: Vec<u8>) -> (r: Response)
        ensures
            r.status == status,
            r.headers == headers,
            r.body == body,
    {
        Response { status, headers, body }
    }

    /// A `200 OK` response with the given body and headers (none given
    /// means no headers).
    pub fn construct_ok_with_body(body: Vec<u8>, headers: Option<HeaderMap>) -> (r: Response)
        requires
            match headers {
                Some(h) => h.wf(),
                None => true,
            },
        ensures
            r.wf(),
            r.status is OK,
            r.body == body,
            match headers {
                Some(h) => r.headers == h,
                None => r.headers@ == Map::<Seq<u8>, Seq<u8>>::empty() && r.headers.entries_seq()
                    == Seq::<(Seq<u8>, Seq<u8>)>::empty(),
            },
    {
        let headers = match headers {
            Some(h) => h,
            None => HeaderMap::new(),
        };
        Response { status: StatusCode::OK, headers, body }
    }

    /// A bare `201 Created` response: no headers, no body.
    pub fn construct_created() -> (r: Response)
        ensures
            r.wf(),
            r.status is Created,
            r.headers.entries_seq() == Seq::<(Seq<u8>, Seq<u8>)>::empty(),
            r.body@ == Seq::<u8>::empty(),
    {
        let r = Response { status: StatusCode::Created, headers: HeaderMap::new(), body: Vec::new() };
        proof {
            assert(r.body@ =~= Seq::<u8>::empty());
        }
        r
    }

    /// A bare `404 Not Found` response: no headers, no body.
    pub fn construct_not_found() -> (r: Response)
        ensures
            r.wf(),
            r.status is NotFound,
            r.headers@ == Map::<Seq<u8>, Seq<u8>>::empty(),
            r.headers.entries_seq() == Seq::<(Seq<u8>, Seq<u8>)>::empty(),
            r.body@ == Seq::<u8>::empty(),
    {
        let r = Response { status: StatusCode::NotFound, headers: HeaderMap::new(), body: Vec::new() };
        proof {
            assert(r.body@ =~= Seq::<u8>::empty());
        }
        r
    }

    /// Serialize the whole response to wire bytes.
    pub fn get_response_string(&self) -> (r: Vec<u8>)
        requires
            self.wf(),
        ensures
            r@ == spec_serialize(self.status, self.headers.entries_seq(), self.body@),
    {
        let mut out: Vec<u8> = Vec::new();
        self.push_status_line_string(&mut out);
        match self.status {
            StatusCode::Created => {
                let mut term = crlf_bytes();
                out.append(&mut term);
                return out;
            },
            _ => {},
        }
        self.push_header_string(&mut out);
        self.push_body_string(&mut out);
        out
    }

    /// Append the status line to `dest`.
    fn push_status_line_string(&self, dest: &mut Vec<u8>)
        ensures
            final(dest)@ == old(dest)@ + status_line_bytes(self.status),
    {
        let mut proto = http_protocol_bytes();
        dest.append(&mut proto);
        match self.status {
            StatusCode::OK => {
                let mut text: Vec<u8> = vec![
                    ' ' as u8,
                    '2' as u8,
                    '0' as u8,
                    '0' as u8,
                    ' ' as u8,
                    'O' as u8,
                    'K' as u8,
                ];
                proof {
                    assert(text@ =~= status_text(self.status));
                }
                dest.append(&mut text);
            },
            StatusCode::NotFound => {
                let mut text: Vec<u8> = vec![
                    ' ' as u8,
                    '4' as u8,
                    '0' as u8,
                    '4' as u8,
                    ' ' as u8,
                    'N' as u8,
                    'o' as u8,
                    't' as u8,
                    ' ' as u8,
                    'F' as u8,
                    'o' as u8,
                    'u' as u8,
                    'n' as u8,
                    'd' as u8,
                ];
                proof {
                    assert(text@ =~= status_text(self.status));
                }
                dest.append(&mut text);
            },
            StatusCode::Created => {
                let mut text: Vec<u8> = vec![
                    ' ' as u8,
                    '2' as u8,
                    '0' as u8,
                    '1' as u8,
                    ' ' as u8,
                    'C' as u8,
                    'r' as u8,
                    'e' as u8,
                    'a' as u8,
                    't' as u8,
                    'e' as u8,
                    'd' as u8,
                ];
                proof {
                    assert(text@ =~= status_text(self.status));
                }
                dest.append(&mut text);
            },
        }
        let mut term = crlf_bytes();
        dest.append(&mut term);
        proof {
            assert(dest@ =~= old(dest)@ + status_line_bytes(self.status));
        }
    }

    /// Append every header line and the blank line that ends the header
    /// section to `dest`.
    fn push_header_string(&self, dest: &mut Vec<u8>)
        requires
            self.wf(),
        ensures
            final(dest)@ == old(dest)@ + header_block(self.headers.entries_seq()) + crlf(),
    {
        let n = self.headers.entry_count();
        let mut i: usize = 0;
        while i < n
            invariant
                self.wf(),
                n == self.headers.entries_seq().len(),
                i <= n,
                dest@ == old(dest)@ + header_block(self.headers.entries_seq().take(i as int)),
            decreases n - i,
        {
            let entry = self.headers.entry_at(i);
            dest.extend_from_slice(entry.0.as_slice());
            let mut sep = crate::wire::colon_sp_bytes();
            dest.append(&mut sep);
            dest.extend_from_slice(entry.1.as_slice());
            let mut term = crlf_bytes();
            dest.append(&mut term);
            i = i + 1;
            proof {
                let entries = self.headers.entries_seq();
                assert(entries.take(i as int).drop_last() =~= entries.take(i - 1));
                assert(entries.take(i as int).last() == entries[i - 1]);
                assert(dest@ =~= old(dest)@ + header_block(entries.take(i as int)));
            }
        }
        let mut term = crlf_bytes();
        dest.append(&mut term);
        proof {
            assert(self.headers.entries_seq().take(n as int) =~= self.headers.entries_seq());
            assert(dest@ =~= old(dest)@ + header_block(self.headers.entries_seq()) + crlf());
        }
    }

    /// Append the body (if non-empty) followed by a line terminator.
    fn push_body_string(&self, dest: &mut Vec<u8>)
        ensures
            final(dest)@ == old(dest)@ + if self.body@.len() > 0 {
                self.body@ + crlf()
            } else {
                Seq::<u8>::empty()
            },
    {
        if self.body.len() > 0 {
            dest.extend_from_slice(self.body.as_slice());
            let mut term = crlf_bytes();
            dest.append(&mut term);
        }
        proof {
            assert(dest@ =~= old(dest)@ + if self.body@.len() > 0 {
                self.body@ + crlf()
            } else {
                Seq::<u8>::empty()
            });
        }
    }
}

} // verus!
