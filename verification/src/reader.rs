//! Framing one HTTP message off a byte stream, as a small state machine.
//!
//! The caller performs the blocking reads and hands the results in: one
//! line at a time while the reader is in `ReadingHeaders`, then — only if a
//! nonzero `Content-Length` was declared — exactly that many raw bytes
//! while it is in `ReadingBody`. The reader never completes a message with
//! a declared body until those bytes arrive, and the body it reports is
//! exactly the bytes handed in: it never invents content.

use crate::byteops::{spec_trim, starts_with, trim_bytes};
use crate::numbers::{dec_value, is_digits, parse_dec};
use crate::request::{spec_parse_request, ParseError, Request};
use crate::split::{join_with, lemma_join_snoc, split_on, split_all};
use crate::wire::{colon_sp, colon_sp_bytes, content_length_name, content_length_name_bytes, crlf,
    crlf_bytes};
use vstd::prelude::*;

verus! {

/// Where the reader stands.
#[derive(Clone, Copy, Debug, PartialEq, Eq, Structural)]
pub enum ReaderState {
    ReadingHeaders,
    ReadingBody,
    Done,
    Failed,
}

/// What the caller should do next.
#[derive(Clone, Copy, Debug, PartialEq, Eq, Structural)]
pub enum ReadStep {
    More,
    NeedBody { length: usize },
    Complete,
    Error(ParseError),
}

/// The accumulated state of framing one message: the trimmed non-empty
/// lines seen so far (the body, once read, is appended as one final entry),
/// the separately tracked body, and the declared body length, if any.
pub struct MessageReader {
    pub lines: Vec<Vec<u8>>,
    pub body: Vec<u8>,
    pub has_content: bool,
    pub content_length: usize,
    pub state: ReaderState,
}

/// Does the raw line open with `Content-Length`?
pub open spec fn spec_is_content_length_line(line: Seq<u8>) -> bool {
    line.len() >= content_length_name().len() && line.take(
        content_length_name().len() as int,
    ) == content_length_name()
}

/// The body length a trimmed `Content-Length` line declares: the piece
/// after the first `": "`, read as decimal digits. `None` when there is no
/// such piece, it is not all digits, or the value does not fit in `usize`.
pub open spec fn spec_declared_length(trimmed: Seq<u8>) -> Option<int> {
    let pieces = split_on(trimmed, colon_sp());
    if pieces.len() < 2 {
        None
    } else if pieces[1].len() > 0 && is_digits(pieces[1]) && dec_value(pieces[1]) <= usize::MAX {
        Some(dec_value(pieces[1]))
    } else {
        None
    }
}

/// The framed text that is parsed: the sole line plus a terminator when
/// only one line was ever read, else the lines joined by the terminator.
pub open spec fn spec_message_text(lines: Seq<Seq<u8>>) -> Seq<u8> {
    if lines.len() == 1 {
        lines[0] + crlf()
    } else {
        join_with(lines, crlf())
    }
}

/// Join the lines with the line terminator.
fn join_lines(lines: &Vec<Vec<u8>>) -> (r: Vec<u8>)
    ensures
        r@ == join_with(lines.deep_view(), crlf()),
{
    let mut out: Vec<u8> = Vec::new();
    let ghost dv = lines.deep_view();
    proof {
        assert(dv.take(0) =~= Seq::<Seq<u8>>::empty());
        assert(out@ =~= join_with(dv.take(0), crlf()));
    }
    let mut i: usize = 0;
    while i < lines.len()
        invariant
            dv == lines.deep_view(),
            dv.len() == lines@.len(),
            i <= lines@.len(),
            out@ == join_with(dv.take(i as int), crlf()),
        decreases lines@.len() - i,
    {
        if i > 0 {
            let mut term = crlf_bytes();
            out.append(&mut term);
        }
        proof {
            assert(dv[i as int] == lines@[i as int]@);
        }
        out.extend_from_slice(lines[i].as_slice());
        i = i + 1;
        proof {
            assert(dv.take(i as int).drop_last() =~= dv.take(i - 1));
            assert(dv.take(i as int).last() == dv[i - 1]);
            if i == 1 {
                assert(out@ =~= join_with(dv.take(1), crlf()));
            } else {
                lemma_join_snoc(dv.take(i as int), crlf());
                assert(out@ =~= join_with(dv.take(i as int), crlf()));
            }
        }
    }
    proof {
        assert(dv.take(dv.len() as int) =~= dv);
    }
    out
}

impl MessageReader {
    /// A fresh reader: no lines, no body, nothing declared.
    pub fn new() -> (r: MessageReader)
        ensures
            r.state is ReadingHeaders,
            r.lines.deep_view() == Seq::<Seq<u8>>::empty(),
            r.body@ == Seq::<u8>::empty(),
            !r.has_content,
            r.content_length == 0,
    {
        let r = MessageReader {
            lines: Vec::new(),
            body: Vec::new(),
            has_content: false,
            content_length: 0,
            state: ReaderState::ReadingHeaders,
        };
        proof {
            assert(r.lines.deep_view() =~= Seq::<Seq<u8>>::empty());
            assert(r.body@ =~= Seq::<u8>::empty());
        }
        r
    }

    /// Feed one raw line (terminator included) read from the stream.
    ///
    /// A non-blank line is trimmed and recorded; one opening with
    /// `Content-Length` must declare a parseable length, or the read fails
    /// for good. The first blank line either asks for the declared body or
    /// completes the message — completion without a body happens only when
    /// no nonzero length was declared, and the body is never touched here.
    pub fn feed_line(&mut self, line: Vec<u8>) -> (r: ReadStep)
        requires
            old(self).state is ReadingHeaders,
        ensures
            final(self).body == old(self).body,
            match r {
                ReadStep::More => final(self).state is ReadingHeaders && spec_trim(line@).len() > 0
                    && final(self).lines.deep_view() == old(self).lines.deep_view().push(
                    spec_trim(line@),
                ) && if spec_is_content_length_line(line@) {
                    spec_declared_length(spec_trim(line@)) == Some(
                        final(self).content_length as int,
                    ) && final(self).has_content
                } else {
                    final(self).has_content == old(self).has_content && final(self).content_length
                        == old(self).content_length
                },
                ReadStep::NeedBody { length } => final(self).state is ReadingBody
                    && spec_trim(line@).len() == 0 && old(self).has_content
                    && length == old(self).content_length && length != 0
                    && final(self).lines == old(self).lines
                    && final(self).content_length == old(self).content_length
                    && final(self).has_content,
                ReadStep::Complete => final(self).state is Done && spec_trim(line@).len() == 0 && (
                !old(self).has_content || old(self).content_length == 0) && final(self).lines
                    == old(self).lines && final(self).body@.len() == old(self).body@.len(),
                ReadStep::Error(e) => e is MalformedContentLength && final(self).state is Failed
                    && spec_is_content_length_line(line@) && spec_declared_length(
                    spec_trim(line@),
                ) is None,
            },
    {
        let trimmed = trim_bytes(line.as_slice());
        if trimmed.len() > 0 {
            let cl = content_length_name_bytes();
            let is_cl = starts_with(line.as_slice(), cl.as_slice());
            let ghost prev_lines = self.lines.deep_view();
            let entry = vstd::slice::slice_to_vec(trimmed.as_slice());
            self.lines.push(entry);
            proof {
                assert(self.lines.deep_view() =~~= prev_lines.push(spec_trim(line@)));
            }
            if is_cl {
                let cs = colon_sp_bytes();
                let pieces = split_all(trimmed.as_slice(), cs.as_slice());
                if pieces.len() < 2 {
                    self.state = ReaderState::Failed;
                    return ReadStep::Error(ParseError::MalformedContentLength);
                }
                proof {
                    assert(pieces.deep_view()[1] == pieces@[1]@);
                }
                match parse_dec(pieces[1].as_slice()) {
                    Some(n) => {
                        self.content_length = n;
                        self.has_content = true;
                    },
                    None => {
                        self.state = ReaderState::Failed;
                        return ReadStep::Error(ParseError::MalformedContentLength);
                    },
                }
            }
            ReadStep::More
        } else {
            if self.has_content && self.content_length != 0 {
                self.state = ReaderState::ReadingBody;
                ReadStep::NeedBody { length: self.content_length }
            } else {
                self.state = ReaderState::Done;
                ReadStep::Complete
            }
        }
    }

    /// Feed the body: exactly the declared number of raw bytes, read
    /// verbatim from the stream. The body becomes those bytes — nothing
    /// else — and they are also appended as the final line-buffer entry.
    pub fn feed_body(&mut self, bytes: Vec<u8>) -> (r: ReadStep)
        requires
            old(self).state is ReadingBody,
            bytes@.len() == old(self).content_length,
        ensures
            r is Complete,
            final(self).state is Done,
            final(self).body == bytes,
            final(self).lines.deep_view() == old(self).lines.deep_view().push(bytes@),
            final(self).content_length == old(self).content_length,
            final(self).has_content == old(self).has_content,
    {
        let ghost prev_lines = self.lines.deep_view();
        let entry = vstd::slice::slice_to_vec(bytes.as_slice());
        self.lines.push(entry);
        proof {
            assert(self.lines.deep_view() =~~= prev_lines.push(bytes@));
        }
        self.body = bytes;
        self.state = ReaderState::Done;
        ReadStep::Complete
    }

    /// Parse the framed message: the recorded lines joined back into the
    /// header text, with the separately tracked body attached verbatim.
    pub fn finish(self) -> (r: Result<Request, ParseError>)
        requires
            self.state is Done,
        ensures
            match r {
                Ok(req) => req.wf() && req.line.protocol is HTTP1P1 && req.body == self.body
                    && spec_parse_request(spec_message_text(self.lines.deep_view())) == Some(
                    (req.line.request_type, req.line.url@, req.headers@),
                ),
                Err(e) => e is MalformedRequestLine && spec_parse_request(
                    spec_message_text(self.lines.deep_view()),
                ) is None,
            },
    {
        let MessageReader { lines, body, .. } = self;
        let text: Vec<u8> = if lines.len() == 1 {
            proof {
                assert(lines.deep_view()[0] == lines@[0]@);
            }
            let mut t = vstd::slice::slice_to_vec(lines[0].as_slice());
            let mut term = crlf_bytes();
            t.append(&mut term);
            proof {
                assert(t@ =~= spec_message_text(lines.deep_view()));
            }
            t
        } else {
            let t = join_lines(&lines);
            t
        };
        Request::parse_string_with_body(text, body)
    }
}

} // verus!
