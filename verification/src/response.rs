//! The grammar of a response as it arrives on the wire, and a parser that
//! takes the bytes in whatever pieces they come.
//!
//! A response is a status line, header lines up to a blank line, and a body.
//! Lines end with a line feed. The body has the length that the
//! `content-length` header announces, or runs to the end of the connection
//! when there is no such header.
//!
//! What cannot be read as a response is answered with a synthetic response
//! that says why: a malformed status line, a status code out of range, a
//! length that is no number, a body that is cut short. A header line without
//! a colon is passed over.

use crate::http_rules::status_code_accepted;
use crate::message::{
    failure_response, kept_headers, names_accepted, status_in_range, BridgeResponse, Failure,
    Header, HeaderMap, ResponseModel,
};
use crate::text::{
    ascii, copy_range, find_byte, first_byte, first_non_space, first_space, fold,
    fold_bytes, has_prefix, lemma_first_byte, parse_unsigned, read_unsigned, skip_non_spaces,
    skip_spaces, starts_with, text_bytes, trim, trim_bytes, COLON, CR, LF,
};
use vstd::prelude::*;
use vstd::slice::slice_subrange;

verus! {

/// Whether a line feed stands at or after `from`.
pub open spec fn has_line(s: Seq<u8>, from: int) -> bool {
    first_byte(s, from, LF) < s.len()
}

/// The index behind the line that starts at `from`: behind its line feed,
/// or the end of `s` where the line is not ended.
pub open spec fn line_end(s: Seq<u8>, from: int) -> int {
    let i = first_byte(s, from, LF);
    if i < s.len() {
        i + 1
    } else {
        s.len() as int
    }
}

/// What a status line has to start with.
pub open spec fn protocol_token() -> Seq<u8> {
    ascii("HTTP/1.1 "@)
}

/// The second of the words of `line` that white space separates.
pub open spec fn second_word(line: Seq<u8>) -> Option<Seq<u8>> {
    let a = first_non_space(line, 0);
    let b = first_space(line, a);
    let c = first_non_space(line, b);
    let d = first_space(line, c);
    if c < line.len() {
        Some(line.subrange(c, d))
    } else {
        None
    }
}

/// The status code that a status line gives: the number that its second
/// word spells. A line that does not start with the protocol token, has no
/// second word, or whose second word spells no number up to 65535 is
/// malformed and gives none.
pub open spec fn status_of_line(line: Seq<u8>) -> Option<u16> {
    if starts_with(line, protocol_token()) {
        match second_word(line) {
            Some(word) => match parse_unsigned(word, 65535) {
                Some(n) => Some(n as u16),
                None => None,
            },
            None => None,
        }
    } else {
        None
    }
}

/// The header field that a line holds: what stands before the first colon,
/// trimmed and in lower case, and what stands behind it, trimmed. A line
/// without a colon holds none.
pub open spec fn header_of_line(line: Seq<u8>) -> Option<(Seq<u8>, Seq<u8>)> {
    let c = first_byte(line, 0, COLON);
    if c < line.len() {
        Some((fold(trim(line.subrange(0, c))), trim(line.subrange(c + 1, line.len() as int))))
    } else {
        None
    }
}

/// The line that ends the header block: a line feed alone, or after a
/// carriage return.
pub open spec fn is_blank(line: Seq<u8>) -> bool {
    line == seq![LF] || line == seq![CR, LF]
}

/// `headers` after `line` was read: its field is put in, over what stood
/// under the same name; a line that holds no field changes nothing.
pub open spec fn absorb(headers: Map<Seq<u8>, Seq<u8>>, line: Seq<u8>) -> Map<Seq<u8>, Seq<u8>> {
    match header_of_line(line) {
        Some(field) => headers.insert(field.0, field.1),
        None => headers,
    }
}

/// The status code that the status line `line` gives, if it gives one.
pub fn read_status(line: &[u8]) -> (code: Option<u16>)
    ensures
        code == status_of_line(line@),
{
    proof {
        reveal_strlit("HTTP/1.1 ");
    }
    let token = text_bytes("HTTP/1.1 ");
    if !has_prefix(line, token.as_slice()) {
        return None;
    }
    let a: usize = skip_spaces(line, 0);
    let b: usize = skip_non_spaces(line, a);
    let c: usize = skip_spaces(line, b);
    if c >= line.len() {
        return None;
    }
    let d: usize = skip_non_spaces(line, c);
    match read_unsigned(slice_subrange(line, c, d), 65535) {
        Some(n) => Some(n as u16),
        None => None,
    }
}

/// The header field that `line` holds, if it holds one.
pub fn read_header(line: &[u8]) -> (field: Option<Header>)
    ensures
        match header_of_line(line@) {
            Some(f) => field is Some && field->0.name@ == f.0 && field->0.value@ == f.1,
            None => field is None,
        },
{
    let c: usize = find_byte(line, 0, COLON);
    if c >= line.len() {
        return None;
    }
    let before = trim_bytes(slice_subrange(line, 0, c));
    let name = fold_bytes(before.as_slice());
    let value = trim_bytes(slice_subrange(line, c + 1, line.len()));
    Some(Header { name, value })
}

/// Whether `line` ends the header block.
pub fn line_is_blank(line: &[u8]) -> (r: bool)
    ensures
        r == is_blank(line@),
{
    if line.len() == 1 {
        assert(line@ == seq![line@[0]]);
        line[0] == LF
    } else if line.len() == 2 {
        assert(line@ == seq![line@[0], line@[1]]);
        line[0] == CR && line[1] == LF
    } else {
        false
    }
}

/// How far a run over header lines came.
pub ghost struct Scan {
    /// The fields of the lines that were read.
    pub headers: Map<Seq<u8>, Seq<u8>>,
    /// Where the next line starts; behind the blank line, once it was read.
    pub at: int,
    /// Whether the blank line was read.
    pub complete: bool,
}

/// Reads the header lines of `s` from `from` on, with `acc` read before:
/// line by line up to the blank line, or up to the last line that is ended.
pub open spec fn scan_headers(s: Seq<u8>, from: int, acc: Map<Seq<u8>, Seq<u8>>) -> Scan
    decreases s.len() - from,
    via scan_headers_decreases
{
    if 0 <= from && has_line(s, from) {
        let e = line_end(s, from);
        let line = s.subrange(from, e);
        if is_blank(line) {
            Scan { headers: acc, at: e, complete: true }
        } else {
            scan_headers(s, e, absorb(acc, line))
        }
    } else {
        Scan { headers: acc, at: from, complete: false }
    }
}

#[via_fn]
proof fn scan_headers_decreases(s: Seq<u8>, from: int, acc: Map<Seq<u8>, Seq<u8>>) {
    if 0 <= from && has_line(s, from) {
        lemma_first_byte(s, from, LF);
    }
}

/// How the length of the body is known.
#[derive(Debug, Clone, Copy, PartialEq, Eq)]
pub enum Framing {
    /// A `content-length` header announces it.
    Length(usize),
    /// No `content-length` header: the body runs to the end of the connection.
    ToClose,
    /// The `content-length` header spells no number.
    Invalid,
}

/// The name of the header that announces the length of the body.
pub open spec fn length_name() -> Seq<u8> {
    ascii("content-length"@)
}

/// How the length of the body is known from `headers`.
pub open spec fn framing_of(headers: Map<Seq<u8>, Seq<u8>>) -> Framing {
    if headers.dom().contains(length_name()) {
        match parse_unsigned(headers[length_name()], usize::MAX as nat) {
            Some(n) => Framing::Length(n as usize),
            None => Framing::Invalid,
        }
    } else {
        Framing::ToClose
    }
}

/// What reading a response comes to, before it is put together.
pub ghost enum Outcome {
    /// The parts of a response: the status code of the status line, the
    /// fields of the header lines and the bytes of the body.
    Parts { status: u16, headers: Map<Seq<u8>, Seq<u8>>, body: Seq<u8> },
    /// No response could be read.
    Failed(Failure),
}

/// The response with the given parts: the headers whose value is not
/// accepted are left out; where the status code is out of range or a name
/// among the other headers is not accepted, the internal failure takes the
/// place of the response.
pub open spec fn complete_response(
    status: u16,
    headers: Map<Seq<u8>, Seq<u8>>,
    body: Seq<u8>,
) -> ResponseModel {
    if status_in_range(status) && names_accepted(kept_headers(headers)) {
        ResponseModel { status, headers: kept_headers(headers), body }
    } else {
        failure_response(Failure::Internal)
    }
}

/// The response that is handed back for `outcome`.
pub open spec fn render(outcome: Outcome) -> ResponseModel {
    match outcome {
        Outcome::Parts { status, headers, body } => complete_response(status, headers, body),
        Outcome::Failed(failure) => failure_response(failure),
    }
}

/// What is settled while the connection is open, `available` being what
/// has come of the body: nothing as long as the body is not whole.
pub open spec fn framed_early(
    status: u16,
    headers: Map<Seq<u8>, Seq<u8>>,
    available: Seq<u8>,
) -> Option<Outcome> {
    match framing_of(headers) {
        Framing::Invalid => Some(Outcome::Failed(Failure::InvalidContentLength)),
        Framing::Length(n) => if n <= available.len() {
            Some(Outcome::Parts { status, headers, body: available.subrange(0, n as int) })
        } else {
            None
        },
        Framing::ToClose => None,
    }
}

/// What reading comes to when the connection has ended, `available` being
/// what has come of the body.
pub open spec fn framed_at_close(
    status: u16,
    headers: Map<Seq<u8>, Seq<u8>>,
    available: Seq<u8>,
) -> Outcome {
    match framing_of(headers) {
        Framing::Invalid => Outcome::Failed(Failure::InvalidContentLength),
        Framing::Length(n) => if n <= available.len() {
            Outcome::Parts { status, headers, body: available.subrange(0, n as int) }
        } else {
            Outcome::Failed(Failure::TruncatedBody)
        },
        Framing::ToClose => Outcome::Parts { status, headers, body: available },
    }
}

/// How much of the head of a response the bytes `s` hold.
pub ghost enum Head {
    /// The status line is not ended.
    Status,
    /// The status line is malformed.
    Malformed,
    /// The status line gives a code outside 100 to 599.
    Rejected,
    /// The status line is read and the header block is not ended; `at` is
    /// where the next header line starts.
    Fields { status: u16, headers: Map<Seq<u8>, Seq<u8>>, at: int },
    /// The header block is read; the body starts at `start`.
    Body { status: u16, headers: Map<Seq<u8>, Seq<u8>>, start: int },
}

/// The head of the response as far as the bytes `s` hold it.
pub open spec fn head_of(s: Seq<u8>) -> Head {
    if !has_line(s, 0) {
        Head::Status
    } else {
        let e = line_end(s, 0);
        match status_of_line(s.subrange(0, e)) {
            None => Head::Malformed,
            Some(status) => if !status_in_range(status) {
                Head::Rejected
            } else {
                let scan = scan_headers(s, e, Map::empty());
                if scan.complete {
                    Head::Body { status, headers: scan.headers, start: scan.at }
                } else {
                    Head::Fields { status, headers: scan.headers, at: scan.at }
                }
            },
        }
    }
}

/// What the bytes `s` settle while the connection is still open, if they
/// settle anything.
pub open spec fn early_outcome(s: Seq<u8>) -> Option<Outcome> {
    match head_of(s) {
        Head::Status => None,
        Head::Malformed => Some(Outcome::Failed(Failure::MalformedStatusLine)),
        Head::Rejected => Some(Outcome::Failed(Failure::Internal)),
        Head::Fields { .. } => None,
        Head::Body { status, headers, start } => framed_early(
            status,
            headers,
            s.subrange(start, s.len() as int),
        ),
    }
}

/// What reading comes to when the connection ends after the bytes `s`. A
/// last line that is not ended counts as a line.
pub open spec fn outcome_at_close(s: Seq<u8>) -> Outcome {
    match head_of(s) {
        Head::Status => match status_of_line(s) {
            None => Outcome::Failed(Failure::MalformedStatusLine),
            Some(status) => if status_in_range(status) {
                framed_at_close(status, Map::empty(), Seq::empty())
            } else {
                Outcome::Failed(Failure::Internal)
            },
        },
        Head::Malformed => Outcome::Failed(Failure::MalformedStatusLine),
        Head::Rejected => Outcome::Failed(Failure::Internal),
        Head::Fields { status, headers, at } => {
            let last = if at < s.len() {
                absorb(headers, s.subrange(at, s.len() as int))
            } else {
                headers
            };
            framed_at_close(status, last, Seq::empty())
        },
        Head::Body { status, headers, start } => framed_at_close(
            status,
            headers,
            s.subrange(start, s.len() as int),
        ),
    }
}

/// The response that the bytes `s` settle while the connection is still
/// open, if they settle one.
pub open spec fn early_response(s: Seq<u8>) -> Option<ResponseModel> {
    match early_outcome(s) {
        Some(outcome) => Some(render(outcome)),
        None => None,
    }
}

/// The response when the connection ends after the bytes `s`.
pub open spec fn response_at_close(s: Seq<u8>) -> ResponseModel {
    render(outcome_at_close(s))
}

/// The stage of reading after the bytes `s`, as long as they settle nothing.
pub open spec fn phase_of(s: Seq<u8>) -> Phase {
    match head_of(s) {
        Head::Status => Phase::AwaitStatusLine,
        Head::Fields { .. } => Phase::AwaitHeaders,
        Head::Body { .. } => Phase::AwaitBody,
        Head::Malformed => Phase::Done,
        Head::Rejected => Phase::Done,
    }
}

/// The failure that stands for a read error after the bytes `s`.
pub open spec fn read_failure_of(s: Seq<u8>) -> Failure {
    match head_of(s) {
        Head::Status => Failure::ReadStatus,
        Head::Malformed => Failure::Internal,
        Head::Rejected => Failure::Internal,
        Head::Fields { .. } => Failure::ReadHeaders,
        Head::Body { headers, .. } => match framing_of(headers) {
            Framing::ToClose => Failure::ReadBodyToClose,
            _ => Failure::ReadBody,
        },
    }
}

/// More bytes do not move a line feed that is there.
pub proof fn lemma_first_byte_extend(s: Seq<u8>, t: Seq<u8>, from: int, b: u8)
    requires
        0 <= from <= s.len(),
        first_byte(s, from, b) < s.len(),
    ensures
        first_byte(s + t, from, b) == first_byte(s, from, b),
    decreases s.len() - from,
{
    if from < s.len() {
        assert((s + t)[from] == s[from]);
        if s[from] != b {
            lemma_first_byte_extend(s, t, from + 1, b);
        }
    }
}

/// More bytes do not change a line that is ended.
pub proof fn lemma_line_extend(s: Seq<u8>, t: Seq<u8>, from: int)
    requires
        0 <= from <= s.len(),
        has_line(s, from),
    ensures
        has_line(s + t, from),
        line_end(s + t, from) == line_end(s, from),
        from < line_end(s, from) <= s.len(),
        (s + t).subrange(from, line_end(s, from)) == s.subrange(from, line_end(s, from)),
{
    lemma_first_byte_extend(s, t, from, LF);
    lemma_first_byte(s, from, LF);
}

/// A run over header lines stops within the bytes, and where it stops short
/// of the blank line no line is ended.
pub proof fn lemma_scan_bounds(s: Seq<u8>, from: int, acc: Map<Seq<u8>, Seq<u8>>)
    requires
        0 <= from <= s.len(),
    ensures
        from <= scan_headers(s, from, acc).at <= s.len(),
        !scan_headers(s, from, acc).complete ==> !has_line(s, scan_headers(s, from, acc).at),
    decreases s.len() - from,
{
    if has_line(s, from) {
        lemma_first_byte(s, from, LF);
        let e = line_end(s, from);
        let line = s.subrange(from, e);
        if !is_blank(line) {
            lemma_scan_bounds(s, e, absorb(acc, line));
        }
    }
}

/// More bytes leave a header block that is read as it is, and let a run
/// that stopped at an open line go on from where it stopped.
pub proof fn lemma_scan_extend(s: Seq<u8>, t: Seq<u8>, from: int, acc: Map<Seq<u8>, Seq<u8>>)
    requires
        0 <= from <= s.len(),
    ensures
        scan_headers(s, from, acc).complete ==> scan_headers(s + t, from, acc) == scan_headers(
            s,
            from,
            acc,
        ),
        !scan_headers(s, from, acc).complete ==> scan_headers(s + t, from, acc) == scan_headers(
            s + t,
            scan_headers(s, from, acc).at,
            scan_headers(s, from, acc).headers,
        ),
    decreases s.len() - from,
{
    if has_line(s, from) {
        lemma_line_extend(s, t, from);
        let e = line_end(s, from);
        let line = s.subrange(from, e);
        if !is_blank(line) {
            lemma_scan_extend(s, t, e, absorb(acc, line));
        }
    }
}

/// How the length of the body is known from `headers`.
pub fn decide_framing(headers: &HeaderMap) -> (f: Framing)
    requires
        headers.wf(),
    ensures
        f == framing_of(headers@),
{
    proof {
        reveal_strlit("content-length");
    }
    let name = text_bytes("content-length");
    match headers.get(name.as_slice()) {
        Some(value) => match read_unsigned(value.as_slice(), usize::MAX as u64) {
            Some(n) => Framing::Length(n as usize),
            None => Framing::Invalid,
        },
        None => Framing::ToClose,
    }
}

/// Puts a response together from its parts.
pub fn complete(status: u16, headers: &HeaderMap, body: Vec<u8>) -> (r: BridgeResponse)
    requires
        headers.wf(),
    ensures
        r@ == complete_response(status, headers@, body@),
        r.wf(),
{
    let kept = headers.with_accepted_values();
    if status_usable(status) && kept.all_names_accepted() {
        BridgeResponse { status, headers: kept, body }
    } else {
        BridgeResponse::failure(Failure::Internal)
    }
}

/// The response for a connection that has ended with `available` of the
/// body received.
pub fn frame_at_close(status: u16, headers: &HeaderMap, available: &[u8]) -> (r: BridgeResponse)
    requires
        headers.wf(),
    ensures
        r@ == render(framed_at_close(status, headers@, available@)),
        r.wf(),
{
    match decide_framing(headers) {
        Framing::Invalid => BridgeResponse::failure(Failure::InvalidContentLength),
        Framing::Length(n) => {
            if n <= available.len() {
                complete(status, headers, copy_range(available, 0, n))
            } else {
                BridgeResponse::failure(Failure::TruncatedBody)
            }
        },
        Framing::ToClose => {
            assert(available@.subrange(0, available.len() as int) == available@);
            complete(status, headers, copy_range(available, 0, available.len()))
        },
    }
}

/// Whether `code` may stand in a response.
pub fn status_usable(code: u16) -> (r: bool)
    ensures
        r == status_in_range(code),
{
    status_code_accepted(code) && code <= 599
}

/// The stage that a parser is in.
#[derive(Debug, Clone, Copy, PartialEq, Eq)]
pub enum Phase {
    /// The status line is awaited.
    AwaitStatusLine,
    /// Header lines are awaited.
    AwaitHeaders,
    /// The body is awaited.
    AwaitBody,
    /// The response was handed out.
    Done,
}

/// A parser that takes the bytes of one response as they arrive and hands
/// the response out as soon as it is settled.
pub struct ResponseParser {
    buf: Vec<u8>,
    at: usize,
    phase: Phase,
    status: u16,
    headers: HeaderMap,
    framing: Framing,
}

impl ResponseParser {
    /// Every byte that was fed.
    pub closed spec fn received(&self) -> Seq<u8> {
        self.buf@
    }

    /// Whether the response was handed out.
    pub closed spec fn finished(&self) -> bool {
        self.phase is Done
    }

    /// The status line is read, and its code is in range.
    spec fn status_known(&self) -> bool {
        let s = self.buf@;
        &&& has_line(s, 0)
        &&& status_of_line(s.subrange(0, line_end(s, 0))) == Some(self.status)
        &&& status_in_range(self.status)
    }

    /// What holds of the parts while lines may still wait to be read.
    spec fn on_course(&self) -> bool {
        let s = self.buf@;
        &&& self.headers.wf()
        &&& self.at <= s.len()
        &&& match self.phase {
            Phase::AwaitStatusLine => self.headers@ == Map::<Seq<u8>, Seq<u8>>::empty(),
            Phase::AwaitHeaders => {
                &&& self.status_known()
                &&& scan_headers(s, self.at as int, self.headers@) == scan_headers(
                    s,
                    line_end(s, 0),
                    Map::empty(),
                )
            },
            Phase::AwaitBody => {
                &&& head_of(s) == Head::Body {
                    status: self.status,
                    headers: self.headers@,
                    start: self.at as int,
                }
                &&& self.framing == framing_of(self.headers@)
            },
            Phase::Done => true,
        }
    }

    /// The parts agree with the bytes received, and nothing more can be
    /// read from them.
    pub closed spec fn wf(&self) -> bool {
        &&& self.on_course()
        &&& !self.finished() ==> early_response(self.buf@) is None
        &&& match self.phase {
            Phase::AwaitStatusLine => head_of(self.buf@) is Status,
            Phase::AwaitHeaders => head_of(self.buf@) == Head::Fields {
                status: self.status,
                headers: self.headers@,
                at: self.at as int,
            },
            _ => true,
        }
    }

    /// A parser that has received nothing.
    pub fn new() -> (p: ResponseParser)
        ensures
            p.wf(),
            !p.finished(),
            p.received() == Seq::<u8>::empty(),
    {
        ResponseParser {
            buf: Vec::new(),
            at: 0,
            phase: Phase::AwaitStatusLine,
            status: 500,
            headers: HeaderMap::new(),
            framing: Framing::ToClose,
        }
    }

    /// The stage that the parser is in.
    pub fn phase(&self) -> (p: Phase)
        requires
            self.wf(),
        ensures
            (p is Done) == self.finished(),
            !self.finished() ==> p == phase_of(self.received()),
    {
        self.phase
    }

    /// Reads the status line, if it is ended.
    fn take_status_line(&mut self) -> (r: Option<BridgeResponse>)
        requires
            old(self).on_course(),
            old(self).phase is AwaitStatusLine,
        ensures
            final(self).on_course(),
            final(self).buf@ == old(self).buf@,
            match head_of(final(self).buf@) {
                Head::Status => r is None && final(self).phase is AwaitStatusLine,
                Head::Malformed => r is Some && r->0@ == failure_response(
                    Failure::MalformedStatusLine,
                ) && r->0.wf() && final(self).phase is Done,
                Head::Rejected => r is Some && r->0@ == failure_response(Failure::Internal)
                    && r->0.wf() && final(self).phase is Done,
                _ => r is None && final(self).phase is AwaitHeaders,
            },
    {
        let e: usize = find_byte(self.buf.as_slice(), 0, LF);
        if e >= self.buf.len() {
            return None;
        }
        let code: u16 = match read_status(slice_subrange(self.buf.as_slice(), 0, e + 1)) {
            Some(code) => code,
            None => {
                self.phase = Phase::Done;
                return Some(BridgeResponse::failure(Failure::MalformedStatusLine));
            },
        };
        if !status_usable(code) {
            self.phase = Phase::Done;
            return Some(BridgeResponse::failure(Failure::Internal));
        }
        self.status = code;
        self.at = e + 1;
        self.phase = Phase::AwaitHeaders;
        None
    }

    /// Reads header lines as far as they are ended.
    fn take_header_lines(&mut self) -> (r: Option<BridgeResponse>)
        requires
            old(self).on_course(),
            old(self).phase is AwaitHeaders,
        ensures
            final(self).on_course(),
            final(self).buf@ == old(self).buf@,
            !(head_of(final(self).buf@) is Status),
            !(head_of(final(self).buf@) is Malformed),
            !(head_of(final(self).buf@) is Rejected),
            match head_of(final(self).buf@) {
                Head::Fields { status, headers, at } => r is None && final(self).phase
                    is AwaitHeaders && final(self).status == status && final(self).headers@
                    == headers && final(self).at == at,
                Head::Body { headers, .. } => if framing_of(headers) is Invalid {
                    r is Some && r->0@ == failure_response(Failure::InvalidContentLength)
                        && r->0.wf() && final(self).phase is Done
                } else {
                    r is None && final(self).phase is AwaitBody
                },
                _ => true,
            },
    {
        loop
            invariant_except_break
                self.on_course(),
            invariant
                self.phase is AwaitHeaders,
                self.buf@ == old(self).buf@,
                self.headers.wf(),
                self.at <= self.buf@.len(),
                self.status_known(),
            ensures
                scan_headers(self.buf@, line_end(self.buf@, 0), Map::empty()) == (Scan {
                    headers: self.headers@,
                    at: self.at as int,
                    complete: true,
                }),
            decreases self.buf@.len() - self.at,
        {
            let e: usize = find_byte(self.buf.as_slice(), self.at, LF);
            if e >= self.buf.len() {
                return None;
            }
            proof {
                lemma_first_byte(self.buf@, self.at as int, LF);
            }
            let line = slice_subrange(self.buf.as_slice(), self.at, e + 1);
            if line_is_blank(line) {
                self.at = e + 1;
                break;
            }
            match read_header(line) {
                Some(field) => {
                    self.headers.insert(field.name, field.value);
                },
                None => {},
            }
            self.at = e + 1;
        }
        let framing = decide_framing(&self.headers);
        match framing {
            Framing::Invalid => {
                self.phase = Phase::Done;
                Some(BridgeResponse::failure(Failure::InvalidContentLength))
            },
            _ => {
                self.framing = framing;
                self.phase = Phase::AwaitBody;
                None
            },
        }
    }

    /// Hands the response out if the body is whole.
    fn take_body(&mut self) -> (r: Option<BridgeResponse>)
        requires
            old(self).on_course(),
            old(self).phase is AwaitBody,
            !(old(self).framing is Invalid),
        ensures
            final(self).on_course(),
            final(self).buf@ == old(self).buf@,
            match early_response(final(self).buf@) {
                Some(m) => r is Some && r->0@ == m && r->0.wf() && final(self).phase is Done,
                None => r is None && final(self).phase is AwaitBody,
            },
    {
        match self.framing {
            Framing::Length(n) => {
                if self.buf.len() - self.at >= n {
                    let body = copy_range(self.buf.as_slice(), self.at, self.at + n);
                    assert(body@ == self.buf@.subrange(self.at as int, self.buf@.len() as int).subrange(
                        0,
                        n as int,
                    ));
                    self.phase = Phase::Done;
                    Some(complete(self.status, &self.headers, body))
                } else {
                    None
                }
            },
            _ => None,
        }
    }

    /// Reads on from the bytes received as far as they go.
    fn advance(&mut self) -> (r: Option<BridgeResponse>)
        requires
            old(self).on_course(),
            !old(self).finished(),
            old(self).phase is AwaitBody ==> !(old(self).framing is Invalid),
        ensures
            final(self).wf(),
            final(self).buf@ == old(self).buf@,
            match early_response(final(self).buf@) {
                Some(m) => r is Some && r->0@ == m && r->0.wf() && final(self).finished(),
                None => r is None && !final(self).finished(),
            },
    {
        if let Phase::AwaitStatusLine = self.phase {
            let early = self.take_status_line();
            if early.is_some() {
                return early;
            }
        }
        if let Phase::AwaitHeaders = self.phase {
            let early = self.take_header_lines();
            if early.is_some() {
                return early;
            }
        }
        if let Phase::AwaitBody = self.phase {
            return self.take_body();
        }
        None
    }

    /// Takes the next bytes that arrived. Returns the response once the
    /// bytes received settle it; after that, further bytes are ignored.
    pub fn feed(&mut self, chunk: &[u8]) -> (r: Option<BridgeResponse>)
        requires
            old(self).wf(),
        ensures
            final(self).wf(),
            old(self).finished() ==> r is None && final(self).finished() && final(self).received()
                == old(self).received(),
            !old(self).finished() ==> final(self).received() == old(self).received() + chunk@,
            !old(self).finished() ==> match early_response(final(self).received()) {
                Some(m) => r is Some && r->0@ == m && r->0.wf() && final(self).finished(),
                None => r is None && !final(self).finished(),
            },
    {
        if let Phase::Done = self.phase {
            return None;
        }
        let ghost before = self.buf@;
        crate::text::append_bytes(&mut self.buf, chunk);
        proof {
            match self.phase {
                Phase::AwaitHeaders => {
                    lemma_line_extend(before, chunk@, 0);
                    lemma_scan_extend(before, chunk@, line_end(before, 0), Map::empty());
                },
                Phase::AwaitBody => {
                    lemma_line_extend(before, chunk@, 0);
                    lemma_scan_extend(before, chunk@, line_end(before, 0), Map::empty());
                },
                _ => {},
            }
        }
        self.advance()
    }

    /// The response when the connection has ended; none if the response was
    /// handed out before.
    pub fn close(&mut self) -> (r: Option<BridgeResponse>)
        requires
            old(self).wf(),
        ensures
            final(self).wf(),
            final(self).finished(),
            final(self).received() == old(self).received(),
            old(self).finished() ==> r is None,
            !old(self).finished() ==> r is Some && r->0@ == response_at_close(old(self).received())
                && r->0.wf(),
    {
        let response = match self.phase {
            Phase::Done => None,
            Phase::AwaitStatusLine => {
                match read_status(self.buf.as_slice()) {
                    None => Some(BridgeResponse::failure(Failure::MalformedStatusLine)),
                    Some(code) => {
                        if status_usable(code) {
                            let nothing: Vec<u8> = Vec::new();
                            Some(frame_at_close(code, &self.headers, nothing.as_slice()))
                        } else {
                            Some(BridgeResponse::failure(Failure::Internal))
                        }
                    },
                }
            },
            Phase::AwaitHeaders => {
                if self.at < self.buf.len() {
                    let line = slice_subrange(self.buf.as_slice(), self.at, self.buf.len());
                    match read_header(line) {
                        Some(field) => {
                            self.headers.insert(field.name, field.value);
                        },
                        None => {},
                    }
                }
                let nothing: Vec<u8> = Vec::new();
                Some(frame_at_close(self.status, &self.headers, nothing.as_slice()))
            },
            Phase::AwaitBody => {
                let rest = slice_subrange(self.buf.as_slice(), self.at, self.buf.len());
                Some(frame_at_close(self.status, &self.headers, rest))
            },
        };
        self.phase = Phase::Done;
        response
    }

    /// The failure that stands for a read error at this point.
    pub fn read_failure(&self) -> (f: Failure)
        requires
            self.wf(),
        ensures
            !self.finished() ==> f == read_failure_of(self.received()),
            self.finished() ==> f == Failure::Internal,
    {
        match self.phase {
            Phase::AwaitStatusLine => Failure::ReadStatus,
            Phase::AwaitHeaders => Failure::ReadHeaders,
            Phase::AwaitBody => match self.framing {
                Framing::ToClose => Failure::ReadBodyToClose,
                _ => Failure::ReadBody,
            },
            Phase::Done => Failure::Internal,
        }
    }
}

} // verus!
