//! The head of a request as it is written to the server: request line,
//! `Host`, the headers of the intercepted request as they came, the length
//! of the body, a default content type where none was given, and a blank
//! line.

use crate::message::{fields_of, BridgeRequest, Header, ServerEndpoint};
use crate::text::{
    append_bytes, ascii, bytes_equal, decimal, fold, fold_bytes, push_decimal, text_bytes, CR, LF,
};
use vstd::prelude::*;

verus! {

/// The end of a line: carriage return and line feed.
pub open spec fn crlf() -> Seq<u8> {
    seq![CR, LF]
}

/// One header line: name, colon, space, value, line end.
pub open spec fn header_line(name: Seq<u8>, value: Seq<u8>) -> Seq<u8> {
    name + ascii(": "@) + value + crlf()
}

/// The lines of `fields`, in order.
pub open spec fn header_lines(fields: Seq<(Seq<u8>, Seq<u8>)>) -> Seq<u8>
    decreases fields.len(),
{
    if fields.len() == 0 {
        Seq::empty()
    } else {
        header_lines(fields.drop_last()) + header_line(fields.last().0, fields.last().1)
    }
}

/// Whether a field is called `name`, letter case left aside.
pub open spec fn names_field(fields: Seq<(Seq<u8>, Seq<u8>)>, name: Seq<u8>) -> bool {
    exists|i: int| 0 <= i < fields.len() && fold(#[trigger] fields[i].0) == name
}

/// The request line: method, target and protocol version.
pub open spec fn request_line(method: Seq<u8>, target: Seq<u8>) -> Seq<u8> {
    method + ascii(" "@) + target + ascii(" HTTP/1.1"@) + crlf()
}

/// The content type that is written where the request names none.
pub open spec fn default_content_type() -> Seq<u8> {
    header_line(ascii("Content-Type"@), ascii("application/json"@))
}

/// The head of the request, up to and with the blank line.
pub open spec fn request_head(
    authority: Seq<u8>,
    method: Seq<u8>,
    target: Seq<u8>,
    fields: Seq<(Seq<u8>, Seq<u8>)>,
    body_len: nat,
) -> Seq<u8> {
    request_line(method, target) + header_line(ascii("Host"@), authority) + header_lines(fields)
        + header_line(ascii("Content-Length"@), decimal(body_len)) + (if names_field(
        fields,
        ascii("content-type"@),
    ) {
        Seq::empty()
    } else {
        default_content_type()
    }) + crlf()
}

fn push_text(out: &mut Vec<u8>, text: &str)
    requires
        text.is_ascii(),
    ensures
        final(out)@ == old(out)@ + ascii(text@),
{
    let bytes = text_bytes(text);
    append_bytes(out, bytes.as_slice());
}

fn push_header_line(out: &mut Vec<u8>, name: &[u8], value: &[u8])
    ensures
        final(out)@ == old(out)@ + header_line(name@, value@),
{
    proof {
        reveal_strlit(": ");
    }
    append_bytes(out, name);
    push_text(out, ": ");
    append_bytes(out, value);
    out.push(CR);
    out.push(LF);
    assert(out@ == old(out)@ + header_line(name@, value@));
}

/// Whether one of `headers` is called `name`, letter case left aside;
/// `name` is given in lower case.
pub fn has_header(headers: &Vec<Header>, name: &[u8]) -> (r: bool)
    ensures
        r == names_field(fields_of(headers@), name@),
{
    let mut i: usize = 0;
    while i < headers.len()
        invariant
            i <= headers.len(),
            forall|j: int| 0 <= j < i ==> fold(#[trigger] fields_of(headers@)[j].0) != name@,
        decreases headers.len() - i,
    {
        let folded = fold_bytes(headers[i].name.as_slice());
        if bytes_equal(folded.as_slice(), name) {
            assert(fold(fields_of(headers@)[i as int].0) == name@);
            return true;
        }
        i += 1;
    }
    false
}

/// The bytes to write before the body of `request`.
pub fn serialize_head(endpoint: &ServerEndpoint, request: &BridgeRequest) -> (head: Vec<u8>)
    ensures
        head@ == request_head(
            endpoint.authority_spec(),
            request.method@,
            request.target@,
            fields_of(request.headers@),
            request.body@.len(),
        ),
{
    proof {
        reveal_strlit(" ");
        reveal_strlit(" HTTP/1.1");
        reveal_strlit("Host");
        reveal_strlit("Content-Length");
        reveal_strlit("Content-Type");
        reveal_strlit("content-type");
        reveal_strlit("application/json");
    }
    let ghost fields = fields_of(request.headers@);
    let mut out: Vec<u8> = Vec::new();
    append_bytes(&mut out, request.method.as_slice());
    push_text(&mut out, " ");
    append_bytes(&mut out, request.target.as_slice());
    push_text(&mut out, " HTTP/1.1");
    out.push(CR);
    out.push(LF);
    assert(out@ == request_line(request.method@, request.target@));
    let host = text_bytes("Host");
    let authority = endpoint.authority();
    push_header_line(&mut out, host.as_slice(), authority.as_slice());
    let ghost base = out@;
    let mut i: usize = 0;
    assert(header_lines(fields.subrange(0, 0)) == Seq::<u8>::empty());
    assert(out@ == base + header_lines(fields.subrange(0, 0)));
    while i < request.headers.len()
        invariant
            i <= request.headers.len(),
            fields == fields_of(request.headers@),
            out@ == base + header_lines(fields.subrange(0, i as int)),
        decreases request.headers.len() - i,
    {
        let ghost so_far = out@;
        let header = &request.headers[i];
        push_header_line(&mut out, header.name.as_slice(), header.value.as_slice());
        proof {
            let next = fields.subrange(0, i + 1);
            assert(next.drop_last() == fields.subrange(0, i as int));
            assert(next.last() == fields[i as int]);
            assert(out@ == base + header_lines(next));
        }
        i += 1;
    }
    assert(fields.subrange(0, fields.len() as int) == fields);
    let length_label = text_bytes("Content-Length");
    let mut length: Vec<u8> = Vec::new();
    push_decimal(&mut length, request.body.len() as u64);
    assert(length@ == decimal(request.body@.len()));
    push_header_line(&mut out, length_label.as_slice(), length.as_slice());
    let wanted = text_bytes("content-type");
    if !has_header(&request.headers, wanted.as_slice()) {
        let name = text_bytes("Content-Type");
        let value = text_bytes("application/json");
        push_header_line(&mut out, name.as_slice(), value.as_slice());
    } else {
        assert(out@ + Seq::<u8>::empty() == out@);
    }
    out.push(CR);
    out.push(LF);
    out
}

} // verus!
