//! What holds of the grammar of responses: a well-formed response is read
//! back as it was written, a body without announced length is read to the
//! end of the connection, a malformed status line gives status 500 with a
//! text as body, no failure comes out with an empty body, and a response that
//! is settled stays as it is whatever follows.

use crate::http_rules::{is_name_byte, is_value_byte, name_accepted, value_accepted};
use crate::message::{
    diagnostic, failure_response, kept_headers, map_of, names_accepted, presentable,
    status_in_range, Failure, ResponseModel,
};
use crate::request::{crlf, header_line, header_lines};
use crate::response::{
    absorb, early_outcome, early_response, framing_of, has_line, head_of, header_of_line,
    is_blank, lemma_line_extend, lemma_scan_bounds, lemma_scan_extend, line_end,
    outcome_at_close, protocol_token, render, response_at_close, scan_headers, second_word,
    status_of_line, Framing, Head, Outcome, Scan,
};
use crate::text::{
    ascii, decimal, first_byte, fold, is_digit, is_space, lemma_decimal_spells, lemma_first_byte,
    lemma_first_byte_is, lemma_first_non_space_is, lemma_first_space_is, lemma_parse_decimal,
    lemma_trim_padded, parse_unsigned, starts_with, COLON, CR, LF, SPACE,
};
use vstd::prelude::*;

verus! {

/// `s` holds no line feed.
pub open spec fn no_line_feed(s: Seq<u8>) -> bool {
    forall|i: int| 0 <= i < s.len() ==> s[i] != LF
}

/// A status line as a server writes it: the protocol token, the digits of
/// the status code, a space, a reason phrase and the line end.
pub open spec fn status_line(status: u16, reason: Seq<u8>) -> Seq<u8> {
    protocol_token() + decimal(status as nat) + seq![SPACE] + reason + crlf()
}

/// The bytes of the protocol token.
pub proof fn lemma_protocol_token()
    ensures
        protocol_token() == seq![0x48u8, 0x54, 0x54, 0x50, 0x2f, 0x31, 0x2e, 0x31, 0x20],
{
    reveal_strlit("HTTP/1.1 ");
    assert(protocol_token() =~= seq![0x48u8, 0x54, 0x54, 0x50, 0x2f, 0x31, 0x2e, 0x31, 0x20]);
}

/// A status line that is written as `status_line` says is read as the
/// status code that it was written for, and it is one line.
pub proof fn lemma_status_line(status: u16, reason: Seq<u8>)
    requires
        no_line_feed(reason),
    ensures
        status_of_line(status_line(status, reason)) == Some(status),
        first_byte(status_line(status, reason), 0, LF) == status_line(status, reason).len() - 1,
{
    lemma_protocol_token();
    lemma_decimal_spells(status as nat);
    lemma_parse_decimal(status as nat, 65535);
    let token = protocol_token();
    let digits = decimal(status as nat);
    let line = status_line(status, reason);
    let d = 9 + digits.len();
    assert(line.len() == d + 1 + reason.len() + 2);
    assert forall|i: int| 0 <= i < 9 implies line[i] == token[i] by {}
    assert forall|i: int| 9 <= i < d implies line[i] == digits[i - 9] by {}
    assert(line[d as int] == SPACE);
    assert forall|i: int| d < i < d + 1 + reason.len() implies line[i] == reason[i - d - 1] by {}
    assert(line[line.len() - 2] == CR);
    assert(line[line.len() - 1] == LF);
    assert(line.subrange(0, 9) == token);
    assert(starts_with(line, token));
    assert forall|i: int| 9 <= i < d implies !is_space(line[i]) by {
        assert(is_digit(digits[i - 9]));
    }
    lemma_first_non_space_is(line, 0, 0);
    lemma_first_space_is(line, 0, 8);
    lemma_first_non_space_is(line, 8, 9);
    lemma_first_space_is(line, 9, d as int);
    assert(line.subrange(9, d as int) == digits);
    assert(second_word(line) == Some(digits));
    assert forall|i: int| 0 <= i < line.len() - 1 implies line[i] != LF by {
        if 9 <= i < d {
            assert(is_digit(digits[i - 9]));
        } else if d < i < d + 1 + reason.len() {
            assert(reason[i - d - 1] != LF);
        }
    }
    lemma_first_byte_is(line, 0, LF, line.len() - 1);
}

/// A header field as a server may write it: an accepted name, and an
/// accepted value without white space at its ends.
pub open spec fn field_well_formed(field: (Seq<u8>, Seq<u8>)) -> bool {
    &&& name_accepted(field.0)
    &&& value_accepted(field.1)
    &&& field.1.len() > 0 ==> !is_space(field.1[0]) && !is_space(field.1.last())
}

/// A header line that holds a well-formed field is read as that field, the
/// name in lower case; it is one line, and not the blank one.
pub proof fn lemma_header_line(name: Seq<u8>, value: Seq<u8>)
    requires
        field_well_formed((name, value)),
    ensures
        header_of_line(header_line(name, value)) == Some((fold(name), value)),
        first_byte(header_line(name, value), 0, LF) == header_line(name, value).len() - 1,
        !is_blank(header_line(name, value)),
        header_line(name, value).len() == name.len() + value.len() + 4,
{
    reveal_strlit(": ");
    let line = header_line(name, value);
    let n = name.len() as int;
    let sep = ascii(": "@);
    assert(sep =~= seq![COLON, SPACE]);
    assert(line.len() == n + 2 + value.len() + 2);
    assert forall|i: int| 0 <= i < n implies line[i] == name[i] by {}
    assert(line[n] == COLON);
    assert(line[n + 1] == SPACE);
    assert forall|i: int| n + 2 <= i < n + 2 + value.len() implies line[i] == value[i - n - 2] by {}
    assert(line[line.len() - 2] == CR);
    assert(line[line.len() - 1] == LF);
    assert forall|i: int| 0 <= i < n implies line[i] != COLON && line[i] != LF by {
        assert(is_name_byte(name[i]));
    }
    lemma_first_byte_is(line, 0, COLON, n);
    assert forall|i: int| 0 <= i < line.len() - 1 implies line[i] != LF by {
        if i < n {
        } else if n + 2 <= i < n + 2 + value.len() {
            assert(is_value_byte(value[i - n - 2]));
        }
    }
    lemma_first_byte_is(line, 0, LF, line.len() - 1);
    assert(line.subrange(0, n) == name);
    assert(is_name_byte(name[0]) && is_name_byte(name.last()));
    lemma_trim_padded(Seq::empty(), name, Seq::empty());
    assert(Seq::<u8>::empty() + name + Seq::<u8>::empty() == name);
    let before = seq![SPACE];
    let after = crlf();
    assert(line.subrange(n + 1, line.len() as int) == before + value + after);
    lemma_trim_padded(before, value, after);
}

/// `fields` with each name in lower case.
pub open spec fn folded(fields: Seq<(Seq<u8>, Seq<u8>)>) -> Seq<(Seq<u8>, Seq<u8>)> {
    Seq::new(fields.len(), |i: int| (fold(fields[i].0), fields[i].1))
}

/// Each of `fields` is well-formed.
pub open spec fn well_formed_fields(fields: Seq<(Seq<u8>, Seq<u8>)>) -> bool {
    forall|i: int| 0 <= i < fields.len() ==> field_well_formed(#[trigger] fields[i])
}

/// A response as a server writes it: status line, header lines, blank line
/// and body.
pub open spec fn wire(
    status: u16,
    reason: Seq<u8>,
    fields: Seq<(Seq<u8>, Seq<u8>)>,
    body: Seq<u8>,
) -> Seq<u8> {
    status_line(status, reason) + header_lines(fields) + crlf() + body
}

/// The lines of the first `k` fields are what the lines of all fields start
/// with.
pub proof fn lemma_lines_prefix(fields: Seq<(Seq<u8>, Seq<u8>)>, k: int)
    requires
        0 <= k <= fields.len(),
    ensures
        header_lines(fields.subrange(0, k)).len() <= header_lines(fields).len(),
        header_lines(fields).subrange(0, header_lines(fields.subrange(0, k)).len() as int)
            == header_lines(fields.subrange(0, k)),
    decreases fields.len(),
{
    if k == fields.len() {
        assert(fields.subrange(0, k) == fields);
        assert(header_lines(fields).subrange(0, header_lines(fields).len() as int)
            == header_lines(fields));
    } else {
        let front = fields.drop_last();
        assert(front.subrange(0, k) == fields.subrange(0, k));
        lemma_lines_prefix(front, k);
        let part = header_lines(fields.subrange(0, k));
        assert(header_lines(fields).subrange(0, part.len() as int) == header_lines(
            front,
        ).subrange(0, part.len() as int));
    }
}

/// Every name in a map of fields is the name of a field, and its value is
/// the value of that field.
pub proof fn lemma_map_of_entries(fields: Seq<(Seq<u8>, Seq<u8>)>, k: Seq<u8>)
    requires
        map_of(fields).dom().contains(k),
    ensures
        exists|i: int| 0 <= i < fields.len() && #[trigger] fields[i] == (k, map_of(fields)[k]),
    decreases fields.len(),
{
    if fields.len() > 0 {
        if fields.last().0 == k {
            assert(fields[fields.len() - 1] == (k, map_of(fields)[k]));
        } else {
            let front = fields.drop_last();
            lemma_map_of_entries(front, k);
            let i = choose|i: int| 0 <= i < front.len() && #[trigger] front[i] == (
                k,
                map_of(front)[k],
            );
            assert(fields[i] == (k, map_of(fields)[k]));
        }
    }
}

/// The lower-case form of an accepted name is an accepted name.
pub proof fn lemma_fold_keeps_names(name: Seq<u8>)
    requires
        name_accepted(name),
    ensures
        name_accepted(fold(name)),
{
    assert forall|i: int| 0 <= i < fold(name).len() implies is_name_byte(
        #[trigger] fold(name)[i],
    ) by {
        assert(is_name_byte(name[i]));
    }
}

/// Header lines of well-formed fields are read one by one: the run over
/// the first `k` of them arrives behind their lines with their fields.
proof fn lemma_scan_fields(s: Seq<u8>, base: int, fields: Seq<(Seq<u8>, Seq<u8>)>, k: int)
    requires
        0 <= base,
        base + header_lines(fields).len() <= s.len(),
        s.subrange(base, base + header_lines(fields).len()) == header_lines(fields),
        well_formed_fields(fields),
        0 <= k <= fields.len(),
    ensures
        scan_headers(s, base, Map::empty()) == scan_headers(
            s,
            base + header_lines(fields.subrange(0, k)).len(),
            map_of(folded(fields.subrange(0, k))),
        ),
    decreases k,
{
    if k == 0 {
        assert(fields.subrange(0, 0) == Seq::<(Seq<u8>, Seq<u8>)>::empty());
        assert(folded(fields.subrange(0, 0)) == Seq::<(Seq<u8>, Seq<u8>)>::empty());
    } else {
        lemma_scan_fields(s, base, fields, k - 1);
        let before = fields.subrange(0, k - 1);
        let upto = fields.subrange(0, k);
        let field = fields[k - 1];
        let line = header_line(field.0, field.1);
        let at = base + header_lines(before).len();
        let seen = map_of(folded(before));
        assert(upto.drop_last() == before);
        assert(upto.last() == field);
        assert(header_lines(upto) == header_lines(before) + line);
        assert(folded(upto).drop_last() == folded(before));
        assert(folded(upto).last() == (fold(field.0), field.1));
        assert(map_of(folded(upto)) == seen.insert(fold(field.0), field.1));
        lemma_lines_prefix(fields, k);
        assert(field_well_formed(field));
        lemma_header_line(field.0, field.1);
        assert forall|i: int| 0 <= i < line.len() implies s[at + i] == line[i] by {
            let j = header_lines(before).len() + i;
            assert(s[at + i] == s.subrange(base, base + header_lines(fields).len())[j]);
            assert(header_lines(fields)[j] == header_lines(fields).subrange(
                0,
                header_lines(upto).len() as int,
            )[j]);
            assert(header_lines(upto)[j] == line[i]);
        }
        lemma_first_byte(line, 0, LF);
        assert forall|i: int| at <= i < at + line.len() - 1 implies s[i] != LF by {
            assert(s[at + (i - at)] == line[i - at]);
        }
        assert(s[at + (line.len() - 1)] == line[line.len() - 1]);
        lemma_first_byte_is(s, at, LF, at + line.len() - 1);
        assert(s.subrange(at, at + line.len()) == line);
        assert(absorb(seen, line) == seen.insert(fold(field.0), field.1));
    }
}

/// A block of header lines of well-formed fields, ended by a blank line, is
/// read as the map of the fields, names in lower case.
pub proof fn lemma_scan_block(s: Seq<u8>, base: int, fields: Seq<(Seq<u8>, Seq<u8>)>)
    requires
        0 <= base,
        base + header_lines(fields).len() + 2 <= s.len(),
        s.subrange(base, base + header_lines(fields).len()) == header_lines(fields),
        s.subrange(
            base + header_lines(fields).len(),
            base + header_lines(fields).len() + 2,
        ) == crlf(),
        well_formed_fields(fields),
    ensures
        scan_headers(s, base, Map::empty()) == (Scan {
            headers: map_of(folded(fields)),
            at: base + header_lines(fields).len() + 2,
            complete: true,
        }),
{
    lemma_scan_fields(s, base, fields, fields.len() as int);
    assert(fields.subrange(0, fields.len() as int) == fields);
    let at = base + header_lines(fields).len();
    let blank = s.subrange(at, at + 2);
    assert(s[at] == blank[0]);
    assert(s[at + 1] == blank[1]);
    lemma_first_byte_is(s, at, LF, at + 1);
    assert(is_blank(s.subrange(at, at + 2)));
}

/// A well-formed response is read back as it was written: for a status code
/// in range, well-formed header fields among which `content-length`
/// announces the length of the body, and exactly that many bytes of body,
/// the response has that status code, the fields with their names in lower
/// case, and that body. It is settled when its last byte has come, and
/// stays the same when the connection ends.
pub proof fn lemma_well_formed_response(
    status: u16,
    reason: Seq<u8>,
    fields: Seq<(Seq<u8>, Seq<u8>)>,
    body: Seq<u8>,
)
    requires
        status_in_range(status),
        no_line_feed(reason),
        well_formed_fields(fields),
        framing_of(map_of(folded(fields))) == Framing::Length(body.len() as usize),
        body.len() <= usize::MAX,
    ensures
        early_response(wire(status, reason, fields, body)) == Some(
            ResponseModel { status, headers: map_of(folded(fields)), body },
        ),
        response_at_close(wire(status, reason, fields, body)) == (ResponseModel {
            status,
            headers: map_of(folded(fields)),
            body,
        }),
{
    let first = status_line(status, reason);
    let lines = header_lines(fields);
    let s = wire(status, reason, fields, body);
    let headers = map_of(folded(fields));
    let base = first.len() as int;
    let start = base + lines.len() + 2;
    lemma_status_line(status, reason);
    assert(s.len() == start + body.len());
    assert forall|i: int| 0 <= i < base implies s[i] == first[i] by {}
    lemma_first_byte(first, 0, LF);
    lemma_first_byte_is(s, 0, LF, base - 1);
    assert(s.subrange(0, base) == first);
    assert(s.subrange(base, base + lines.len()) == lines);
    assert(s.subrange(base + lines.len(), base + lines.len() + 2) == crlf());
    lemma_scan_block(s, base, fields);
    assert(head_of(s) == Head::Body { status, headers, start });
    assert(s.subrange(start, s.len() as int) == body);
    assert(body.subrange(0, body.len() as int) == body);
    assert(early_outcome(s) == Some(Outcome::Parts { status, headers, body }));
    assert(outcome_at_close(s) == Outcome::Parts { status, headers, body });
    assert forall|k: Seq<u8>| headers.dom().contains(k) implies name_accepted(k)
        && value_accepted(#[trigger] headers[k]) by {
        lemma_map_of_entries(folded(fields), k);
        let i = choose|i: int| 0 <= i < folded(fields).len() && #[trigger] folded(fields)[i] == (
            k,
            headers[k],
        );
        assert(field_well_formed(fields[i]));
        lemma_fold_keeps_names(fields[i].0);
    }
    assert(kept_headers(headers) =~= headers);
}

/// Once the status line is found malformed or rejected, or the header block
/// is read, more
/// bytes change nothing of what was read.
pub proof fn lemma_head_stays(s: Seq<u8>, t: Seq<u8>)
    requires
        head_of(s) is Malformed || head_of(s) is Rejected || head_of(s) is Body,
    ensures
        head_of(s + t) == head_of(s),
        head_of(s) matches Head::Body { start, .. } ==> 0 <= start <= s.len(),
{
    lemma_line_extend(s, t, 0);
    lemma_scan_extend(s, t, line_end(s, 0), Map::empty());
    lemma_scan_bounds(s, line_end(s, 0), Map::empty());
}

/// What is settled stays settled: bytes that come after a response is
/// settled, and the end of the connection, leave it as it is.
pub proof fn lemma_settled_stays(s: Seq<u8>, t: Seq<u8>)
    requires
        early_outcome(s) is Some,
    ensures
        early_outcome(s + t) == early_outcome(s),
        outcome_at_close(s + t) == early_outcome(s)->0,
        early_response(s + t) == early_response(s),
        response_at_close(s + t) == early_response(s)->0,
{
    lemma_head_stays(s, t);
    match head_of(s) {
        Head::Body { status, headers, start } => {
            let n = framing_of(headers)->Length_0;
            let before = s.subrange(start, s.len() as int);
            let after = (s + t).subrange(start, (s + t).len() as int);
            assert(after == before + t);
            if framing_of(headers) is Length {
                assert(after.subrange(0, n as int) == before.subrange(0, n as int));
            }
        },
        _ => {},
    }
}

/// Without a `content-length` header the body is everything that comes
/// behind the header block up to the end of the connection, and nothing is
/// settled before that end.
pub proof fn lemma_body_to_close(s: Seq<u8>, t: Seq<u8>)
    requires
        head_of(s) is Body,
        framing_of(head_of(s)->Body_headers) is ToClose,
    ensures
        early_outcome(s + t) is None,
        outcome_at_close(s + t) == (Outcome::Parts {
            status: head_of(s)->Body_status,
            headers: head_of(s)->Body_headers,
            body: s.subrange(head_of(s)->Body_start, s.len() as int) + t,
        }),
{
    lemma_head_stays(s, t);
    let start = head_of(s)->Body_start;
    assert((s + t).subrange(start, (s + t).len() as int) == s.subrange(start, s.len() as int) + t);
}

/// The status line of the bytes `s`: their first line, with its line end.
pub open spec fn status_line_of(s: Seq<u8>) -> Seq<u8> {
    s.subrange(0, line_end(s, 0))
}

/// A status line that does not start with the protocol token, or whose
/// second word is missing or spells no number up to 65535.
pub open spec fn malformed(line: Seq<u8>) -> bool {
    ||| !starts_with(line, protocol_token())
    ||| second_word(line) is None
    ||| parse_unsigned(second_word(line)->0, 65535) is None
}

/// Every synthetic response carries a text.
pub proof fn lemma_diagnostic_not_empty(failure: Failure)
    ensures
        diagnostic(failure).len() > 0,
        failure_response(failure).status == 500,
{
    reveal_strlit("Error connecting to server");
    reveal_strlit("Error sending request to server");
    reveal_strlit("Error sending request body to server");
    reveal_strlit("Error parsing status line from server response");
    reveal_strlit("Error reading headers from server response");
    reveal_strlit("Error reading response body");
    reveal_strlit("Error reading response body (no Content-Length)");
    reveal_strlit("Malformed status line in server response");
    reveal_strlit("Invalid Content-Length header");
    reveal_strlit("Response body shorter than Content-Length");
    reveal_strlit("Internal Server Error");
}

/// A malformed status line gives the synthetic response for it, with
/// status 500 and a text as body, whatever follows the line: as soon as the
/// line is ended, and at the end of the connection in any case.
pub proof fn lemma_malformed_status_line(s: Seq<u8>)
    requires
        malformed(status_line_of(s)),
    ensures
        response_at_close(s) == failure_response(Failure::MalformedStatusLine),
        response_at_close(s).status == 500,
        response_at_close(s).body.len() > 0,
        has_line(s, 0) ==> early_response(s) == Some(
            failure_response(Failure::MalformedStatusLine),
        ),
        early_response(s) matches Some(r) ==> r.status == 500 && r.body.len() > 0,
{
    lemma_first_byte(s, 0, LF);
    assert(status_of_line(status_line_of(s)) is None);
    if !has_line(s, 0) {
        assert(status_line_of(s) == s);
    }
    lemma_diagnostic_not_empty(Failure::MalformedStatusLine);
}

/// A response is passed on when reading came to the parts of a response
/// whose status code is in range and whose header names, those with an
/// unaccepted value left aside, are accepted.
pub open spec fn passed_on(outcome: Outcome) -> bool {
    outcome matches Outcome::Parts { status, headers, .. } && status_in_range(status)
        && names_accepted(kept_headers(headers))
}

/// Whatever the bytes, the response is either passed on with the status
/// code and the body that the server sent, or it is the synthetic response
/// for a failure, with status 500 and a text as body. So a reply that is
/// malformed or cut short never comes out with an empty body.
pub proof fn lemma_failure_or_passed_on(s: Seq<u8>)
    ensures
        passed_on(outcome_at_close(s)) ==> response_at_close(s).status == outcome_at_close(
            s,
        )->Parts_status && response_at_close(s).body == outcome_at_close(s)->Parts_body,
        !passed_on(outcome_at_close(s)) ==> response_at_close(s).status == 500
            && response_at_close(s).body.len() > 0 && exists|failure: Failure|
            response_at_close(s) == failure_response(failure),
        early_outcome(s) matches Some(outcome) ==> (passed_on(outcome) ==> early_response(
            s,
        )->0.status == outcome->Parts_status && early_response(s)->0.body
            == outcome->Parts_body),
        early_outcome(s) matches Some(outcome) ==> (!passed_on(outcome) ==> early_response(
            s,
        )->0.status == 500 && early_response(s)->0.body.len() > 0),
{
    lemma_rendered(outcome_at_close(s));
    if early_outcome(s) is Some {
        lemma_rendered(early_outcome(s)->0);
    }
}

/// What is handed back for an outcome that is not passed on is the
/// synthetic response for a failure.
pub proof fn lemma_rendered(outcome: Outcome)
    ensures
        !passed_on(outcome) ==> render(outcome).status == 500 && render(outcome).body.len() > 0
            && exists|failure: Failure| render(outcome) == failure_response(failure),
        passed_on(outcome) ==> render(outcome).status == outcome->Parts_status && render(
            outcome,
        ).body == outcome->Parts_body,
{
    if !passed_on(outcome) {
        let failure = match outcome {
            Outcome::Failed(failure) => failure,
            Outcome::Parts { .. } => Failure::Internal,
        };
        lemma_diagnostic_not_empty(failure);
        assert(render(outcome) == failure_response(failure));
    }
}

/// Every response that reading comes to can be handed on: its status code
/// lies between 100 and 599, and its header fields have accepted names and
/// values.
pub proof fn lemma_always_presentable(s: Seq<u8>)
    ensures
        presentable(response_at_close(s)),
        early_response(s) matches Some(r) ==> presentable(r),
{
    lemma_first_byte(s, 0, LF);
}

/// The bytes of `chunks`, one after the other.
pub open spec fn all_bytes(chunks: Seq<Seq<u8>>) -> Seq<u8>
    decreases chunks.len(),
{
    if chunks.len() == 0 {
        Seq::empty()
    } else {
        chunks[0] + all_bytes(chunks.drop_first())
    }
}

/// The response to bytes that arrive in pieces: after `received` the pieces
/// `chunks` are taken in turn, and the response is the first one that is
/// settled, or the one at the end of the connection.
pub open spec fn response_to(received: Seq<u8>, chunks: Seq<Seq<u8>>) -> ResponseModel
    decreases chunks.len(),
{
    if chunks.len() == 0 {
        response_at_close(received)
    } else {
        match early_response(received + chunks[0]) {
            Some(response) => response,
            None => response_to(received + chunks[0], chunks.drop_first()),
        }
    }
}

/// The response does not depend on where the bytes are cut into pieces: it
/// is the response to all of them at the end of the connection.
pub proof fn lemma_cut_anywhere(received: Seq<u8>, chunks: Seq<Seq<u8>>)
    ensures
        response_to(received, chunks) == response_at_close(received + all_bytes(chunks)),
    decreases chunks.len(),
{
    if chunks.len() == 0 {
        assert(received + all_bytes(chunks) == received);
    } else {
        let next = received + chunks[0];
        let rest = chunks.drop_first();
        assert(next + all_bytes(rest) == received + all_bytes(chunks));
        if early_response(next) is Some {
            lemma_settled_stays(next, all_bytes(rest));
        } else {
            lemma_cut_anywhere(next, rest);
        }
    }
}

} // verus!
