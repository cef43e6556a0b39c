//! The data that crosses the bridge: the endpoint of the local server, the
//! request that was intercepted and the response that is handed back.

use crate::http_rules::{header_name_accepted, header_value_accepted, name_accepted, value_accepted};
use crate::text::{ascii, bytes_equal, copy_bytes, decimal, push_decimal, text_bytes, COLON};
use vstd::prelude::*;

verus! {

/// The address on which the local server listens.
#[derive(Debug, Clone, PartialEq, Eq)]
pub struct ServerEndpoint {
    pub host: Vec<u8>,
    pub port: u16,
}

/// `host:port` as it is written in a `Host` header and in a URI.
pub open spec fn authority_of(host: Seq<u8>, port: u16) -> Seq<u8> {
    host + seq![COLON] + decimal(port as nat)
}

impl ServerEndpoint {
    /// The endpoint at `host` and `port`.
    pub fn new(host: &[u8], port: u16) -> (e: ServerEndpoint)
        ensures
            e.host@ == host@,
            e.port == port,
    {
        ServerEndpoint { host: copy_bytes(host), port }
    }

    /// `host:port` for this endpoint.
    pub open spec fn authority_spec(&self) -> Seq<u8> {
        authority_of(self.host@, self.port)
    }

    /// `host:port`.
    pub fn authority(&self) -> (a: Vec<u8>)
        ensures
            a@ == self.authority_spec(),
    {
        let mut out: Vec<u8> = copy_bytes(self.host.as_slice());
        out.push(COLON);
        push_decimal(&mut out, self.port as u64);
        out
    }
}

/// One header field.
#[derive(Debug, Clone, PartialEq, Eq)]
pub struct Header {
    pub name: Vec<u8>,
    pub value: Vec<u8>,
}

impl Header {
    /// The field with the given name and value.
    pub fn new(name: &[u8], value: &[u8]) -> (h: Header)
        ensures
            h.name@ == name@,
            h.value@ == value@,
    {
        Header { name: copy_bytes(name), value: copy_bytes(value) }
    }
}

/// The pairs of name and value that a list of header fields holds, in order.
pub open spec fn fields_of(hs: Seq<Header>) -> Seq<(Seq<u8>, Seq<u8>)> {
    Seq::new(hs.len(), |i: int| (hs[i].name@, hs[i].value@))
}

/// An intercepted request. Its headers keep their order, and a name may
/// occur more than once.
#[derive(Debug, Clone, PartialEq, Eq)]
pub struct BridgeRequest {
    pub method: Vec<u8>,
    pub target: Vec<u8>,
    pub headers: Vec<Header>,
    pub body: Vec<u8>,
}

/// The map that a list of fields amounts to when a later field replaces an
/// earlier one of the same name.
pub open spec fn map_of(fields: Seq<(Seq<u8>, Seq<u8>)>) -> Map<Seq<u8>, Seq<u8>>
    decreases fields.len(),
{
    if fields.len() == 0 {
        Map::empty()
    } else {
        map_of(fields.drop_last()).insert(fields.last().0, fields.last().1)
    }
}

/// No name occurs twice among `fields`.
pub open spec fn distinct_names(fields: Seq<(Seq<u8>, Seq<u8>)>) -> bool {
    forall|i: int, j: int| 0 <= i < j < fields.len() ==> fields[i].0 != fields[j].0
}

/// The names in the map of `fields` are the names of the fields.
pub proof fn lemma_map_of_dom(fields: Seq<(Seq<u8>, Seq<u8>)>, k: Seq<u8>)
    ensures
        map_of(fields).dom().contains(k) <==> exists|i: int|
            0 <= i < fields.len() && #[trigger] fields[i].0 == k,
        map_of(fields).dom().finite(),
    decreases fields.len(),
{
    if fields.len() > 0 {
        let front = fields.drop_last();
        lemma_map_of_dom(front, k);
        if map_of(fields).dom().contains(k) {
            if fields.last().0 == k {
                assert(fields[fields.len() - 1].0 == k);
            } else {
                let i = choose|i: int| 0 <= i < front.len() && #[trigger] front[i].0 == k;
                assert(fields[i].0 == k);
            }
        }
        if exists|i: int| 0 <= i < fields.len() && #[trigger] fields[i].0 == k {
            let i = choose|i: int| 0 <= i < fields.len() && #[trigger] fields[i].0 == k;
            if i < front.len() {
                assert(front[i].0 == k);
            }
        }
    }
}

/// Where no name occurs twice, the map holds each field as it is, and as
/// many entries as there are fields.
pub proof fn lemma_map_of_distinct(fields: Seq<(Seq<u8>, Seq<u8>)>, i: int)
    requires
        distinct_names(fields),
        0 <= i < fields.len(),
    ensures
        map_of(fields).dom().contains(fields[i].0),
        map_of(fields)[fields[i].0] == fields[i].1,
        map_of(fields).dom().len() == fields.len(),
    decreases fields.len(),
{
    let front = fields.drop_last();
    let k = fields.last().0;
    lemma_map_of_dom(front, k);
    assert(!map_of(front).dom().contains(k)) by {
        if map_of(front).dom().contains(k) {
            let j = choose|j: int| 0 <= j < front.len() && #[trigger] front[j].0 == k;
            assert(fields[j].0 == fields[fields.len() - 1].0);
        }
    }
    if front.len() > 0 {
        assert(distinct_names(front)) by {
            assert forall|a: int, b: int| 0 <= a < b < front.len() implies front[a].0
                != front[b].0 by {
                assert(fields[a].0 != fields[b].0);
            }
        }
        if i < front.len() {
            lemma_map_of_distinct(front, i);
        } else {
            lemma_map_of_distinct(front, 0);
        }
    }
}

/// Replacing the value of one field replaces the value under its name.
pub proof fn lemma_map_of_update(fields: Seq<(Seq<u8>, Seq<u8>)>, i: int, value: Seq<u8>)
    requires
        distinct_names(fields),
        0 <= i < fields.len(),
    ensures
        distinct_names(fields.update(i, (fields[i].0, value))),
        map_of(fields.update(i, (fields[i].0, value))) == map_of(fields).insert(
            fields[i].0,
            value,
        ),
    decreases fields.len(),
{
    let changed = fields.update(i, (fields[i].0, value));
    assert(distinct_names(changed)) by {
        assert forall|a: int, b: int| 0 <= a < b < changed.len() implies changed[a].0
            != changed[b].0 by {
            assert(fields[a].0 != fields[b].0);
        }
    }
    let front = fields.drop_last();
    if i == fields.len() - 1 {
        assert(changed.drop_last() == front);
        assert(map_of(changed) == map_of(fields).insert(fields[i].0, value));
    } else {
        assert(distinct_names(front)) by {
            assert forall|a: int, b: int| 0 <= a < b < front.len() implies front[a].0
                != front[b].0 by {
                assert(fields[a].0 != fields[b].0);
            }
        }
        lemma_map_of_update(front, i, value);
        assert(changed.drop_last() == front.update(i, (front[i].0, value)));
        assert(fields[i].0 != fields[fields.len() - 1].0);
        assert(map_of(changed) == map_of(fields).insert(fields[i].0, value));
    }
}

/// The header fields of a response: a map from name to value. Inserting
/// under a name that is present replaces its value.
#[derive(Debug, Clone, PartialEq, Eq)]
pub struct HeaderMap {
    entries: Vec<Header>,
}

impl HeaderMap {
    /// The fields as a list, in the order in which their names first came.
    pub closed spec fn fields(&self) -> Seq<(Seq<u8>, Seq<u8>)> {
        fields_of(self.entries@)
    }

    /// No name occurs twice.
    pub open spec fn wf(&self) -> bool {
        distinct_names(self.fields())
    }

    /// The fields as a map from name to value.
    pub open spec fn view(&self) -> Map<Seq<u8>, Seq<u8>> {
        map_of(self.fields())
    }

    /// A map without fields.
    pub fn new() -> (m: HeaderMap)
        ensures
            m.wf(),
            m.fields() == Seq::<(Seq<u8>, Seq<u8>)>::empty(),
            m@ == Map::<Seq<u8>, Seq<u8>>::empty(),
    {
        let m = HeaderMap { entries: Vec::new() };
        assert(m.fields() == Seq::<(Seq<u8>, Seq<u8>)>::empty());
        m
    }

    /// The number of fields.
    pub fn len(&self) -> (n: usize)
        requires
            self.wf(),
        ensures
            n == self.fields().len(),
            n == self@.dom().len(),
    {
        proof {
            if self.fields().len() > 0 {
                lemma_map_of_distinct(self.fields(), 0);
            }
        }
        self.entries.len()
    }

    /// The index of the field called `name`, or the number of fields.
    fn position(&self, name: &[u8]) -> (r: usize)
        ensures
            r <= self.fields().len(),
            r < self.fields().len() ==> self.fields()[r as int].0 == name@,
            forall|i: int| 0 <= i < r ==> (#[trigger] self.fields()[i]).0 != name@,
    {
        let mut i: usize = 0;
        while i < self.entries.len()
            invariant
                i <= self.entries.len(),
                self.entries@.len() == self.fields().len(),
                forall|j: int| 0 <= j < i ==> (#[trigger] self.fields()[j]).0 != name@,
            decreases self.entries.len() - i,
        {
            if bytes_equal(self.entries[i].name.as_slice(), name) {
                return i;
            }
            i += 1;
        }
        i
    }

    /// Whether there is a field called `name`.
    pub fn contains(&self, name: &[u8]) -> (r: bool)
        ensures
            r == self@.dom().contains(name@),
    {
        let i = self.position(name);
        proof {
            lemma_map_of_dom(self.fields(), name@);
            if i < self.fields().len() {
                assert(self.fields()[i as int].0 == name@);
            }
        }
        i < self.entries.len()
    }

    /// The value under `name`, if there is one.
    pub fn get(&self, name: &[u8]) -> (r: Option<Vec<u8>>)
        requires
            self.wf(),
        ensures
            match r {
                Some(v) => self@.dom().contains(name@) && v@ == self@[name@],
                None => !self@.dom().contains(name@),
            },
    {
        let i = self.position(name);
        proof {
            lemma_map_of_dom(self.fields(), name@);
        }
        if i < self.entries.len() {
            proof {
                lemma_map_of_distinct(self.fields(), i as int);
            }
            Some(copy_bytes(self.entries[i].value.as_slice()))
        } else {
            None
        }
    }

    /// Puts `value` under `name`, in place of what stood there.
    pub fn insert(&mut self, name: Vec<u8>, value: Vec<u8>)
        requires
            old(self).wf(),
        ensures
            final(self).wf(),
            final(self)@ == old(self)@.insert(name@, value@),
    {
        let i = self.position(name.as_slice());
        let ghost before = self.fields();
        if i < self.entries.len() {
            proof {
                lemma_map_of_update(before, i as int, value@);
            }
            self.entries.set(i, Header { name, value });
            assert(self.fields() == before.update(i as int, (before[i as int].0, value@)));
        } else {
            self.entries.push(Header { name, value });
            assert(self.fields() == before.push((name@, value@)));
            assert(self.fields().drop_last() == before);
            assert(distinct_names(self.fields())) by {
                assert forall|a: int, b: int| 0 <= a < b < self.fields().len() implies self.fields()[a].0
                    != self.fields()[b].0 by {
                    if b < before.len() {
                        assert(before[a].0 != before[b].0);
                    } else {
                        assert(before[a].0 != name@);
                    }
                }
            }
        }
    }

    /// The name of the field at `index`.
    pub fn name_at(&self, index: usize) -> (r: Vec<u8>)
        requires
            index < self.fields().len(),
        ensures
            r@ == self.fields()[index as int].0,
    {
        copy_bytes(self.entries[index].name.as_slice())
    }

    /// The value of the field at `index`.
    pub fn value_at(&self, index: usize) -> (r: Vec<u8>)
        requires
            index < self.fields().len(),
        ensures
            r@ == self.fields()[index as int].1,
    {
        copy_bytes(self.entries[index].value.as_slice())
    }
}

/// The fields of `headers` whose value is accepted as a header field value.
pub open spec fn kept_headers(headers: Map<Seq<u8>, Seq<u8>>) -> Map<Seq<u8>, Seq<u8>> {
    headers.restrict(Set::new(|k: Seq<u8>| headers.dom().contains(k) && value_accepted(headers[k])))
}

/// Every name in `headers` is accepted as a header field name.
pub open spec fn names_accepted(headers: Map<Seq<u8>, Seq<u8>>) -> bool {
    forall|k: Seq<u8>| headers.dom().contains(k) ==> name_accepted(k)
}

/// Every value in `headers` is accepted as a header field value.
pub open spec fn values_accepted(headers: Map<Seq<u8>, Seq<u8>>) -> bool {
    forall|k: Seq<u8>| headers.dom().contains(k) ==> value_accepted(#[trigger] headers[k])
}

impl HeaderMap {
    /// The fields whose value is accepted as a header field value; the others
    /// are left out.
    pub fn with_accepted_values(&self) -> (r: HeaderMap)
        requires
            self.wf(),
        ensures
            r.wf(),
            r@ == kept_headers(self@),
            values_accepted(r@),
    {
        let mut out = HeaderMap::new();
        let mut i: usize = 0;
        assert(self.fields().subrange(0, 0) == Seq::<(Seq<u8>, Seq<u8>)>::empty());
        assert(out@ == kept_headers(map_of(self.fields().subrange(0, 0))));
        while i < self.entries.len()
            invariant
                i <= self.entries.len(),
                self.entries@.len() == self.fields().len(),
                self.wf(),
                out.wf(),
                out@ == kept_headers(map_of(self.fields().subrange(0, i as int))),
            decreases self.entries.len() - i,
        {
            let ghost prefix = self.fields().subrange(0, i as int);
            let ghost next = self.fields().subrange(0, i + 1);
            let ghost field = self.fields()[i as int];
            proof {
                assert(next.drop_last() == prefix);
                assert(next.last() == field);
                lemma_map_of_dom(prefix, field.0);
                if map_of(prefix).dom().contains(field.0) {
                    let j = choose|j: int| 0 <= j < prefix.len() && #[trigger] prefix[j].0 == field.0;
                    assert(self.fields()[j].0 == self.fields()[i as int].0);
                }
            }
            let name = &self.entries[i].name;
            let value = &self.entries[i].value;
            assert(name@ == field.0 && value@ == field.1);
            let ghost kept_before = out@;
            let accepted = header_value_accepted(value.as_slice());
            if accepted {
                out.insert(copy_bytes(name.as_slice()), copy_bytes(value.as_slice()));
            }
            proof {
                let before = map_of(prefix);
                let after = map_of(next);
                assert(after == before.insert(field.0, field.1));
                assert(!before.dom().contains(field.0));
                assert(out@ == if accepted {
                    kept_before.insert(field.0, field.1)
                } else {
                    kept_before
                });
                assert forall|k: Seq<u8>| kept_headers(after).dom().contains(k) implies out@.dom().contains(k)
                    && out@[k] == kept_headers(after)[k] by {
                    if k != field.0 {
                        assert(kept_headers(before).dom().contains(k));
                    }
                }
                assert forall|k: Seq<u8>| out@.dom().contains(k) implies kept_headers(
                    after,
                ).dom().contains(k) by {
                    if k != field.0 {
                        assert(kept_headers(before).dom().contains(k));
                        assert(after[k] == before[k]);
                    }
                }
                assert(out@ =~= kept_headers(after));
            }
            i += 1;
        }
        assert(self.fields().subrange(0, self.fields().len() as int) == self.fields());
        out
    }

    /// Whether every name is accepted as a header field name.
    pub fn all_names_accepted(&self) -> (r: bool)
        ensures
            r == names_accepted(self@),
    {
        let mut i: usize = 0;
        while i < self.entries.len()
            invariant
                i <= self.entries.len(),
                self.entries@.len() == self.fields().len(),
                forall|j: int| 0 <= j < i ==> name_accepted((#[trigger] self.fields()[j]).0),
            decreases self.entries.len() - i,
        {
            if !header_name_accepted(self.entries[i].name.as_slice()) {
                proof {
                    lemma_map_of_dom(self.fields(), self.fields()[i as int].0);
                }
                return false;
            }
            i += 1;
        }
        assert forall|k: Seq<u8>| self@.dom().contains(k) implies name_accepted(k) by {
            lemma_map_of_dom(self.fields(), k);
            let j = choose|j: int| 0 <= j < self.fields().len() && #[trigger] self.fields()[j].0 == k;
            assert(name_accepted(self.fields()[j].0));
        }
        true
    }
}

/// Why no response of the server could be handed on.
#[derive(Debug, Clone, Copy, PartialEq, Eq)]
pub enum Failure {
    /// The connection could not be opened.
    Connect,
    /// The request line and headers could not be written.
    SendHead,
    /// The request body could not be written.
    SendBody,
    /// The status line could not be read.
    ReadStatus,
    /// A header line could not be read.
    ReadHeaders,
    /// The body could not be read, its length being announced.
    ReadBody,
    /// The body could not be read up to the end of the connection.
    ReadBodyToClose,
    /// The status line does not start with the protocol token, or gives no
    /// number as status code.
    MalformedStatusLine,
    /// The `Content-Length` header spells no number.
    InvalidContentLength,
    /// The connection ended before the announced length was reached.
    TruncatedBody,
    /// The response cannot be expressed: its status code is out of range or
    /// one of its header names is not a name.
    Internal,
}

/// The text that a synthetic response carries for `failure`.
pub open spec fn diagnostic_text(failure: Failure) -> Seq<char> {
    match failure {
        Failure::Connect => "Error connecting to server"@,
        Failure::SendHead => "Error sending request to server"@,
        Failure::SendBody => "Error sending request body to server"@,
        Failure::ReadStatus => "Error parsing status line from server response"@,
        Failure::ReadHeaders => "Error reading headers from server response"@,
        Failure::ReadBody => "Error reading response body"@,
        Failure::ReadBodyToClose => "Error reading response body (no Content-Length)"@,
        Failure::MalformedStatusLine => "Malformed status line in server response"@,
        Failure::InvalidContentLength => "Invalid Content-Length header"@,
        Failure::TruncatedBody => "Response body shorter than Content-Length"@,
        Failure::Internal => "Internal Server Error"@,
    }
}

/// The bytes of `diagnostic_text`.
pub open spec fn diagnostic(failure: Failure) -> Seq<u8> {
    ascii(diagnostic_text(failure))
}

/// What a response is: a status code, a map of header fields and a body.
pub ghost struct ResponseModel {
    pub status: u16,
    pub headers: Map<Seq<u8>, Seq<u8>>,
    pub body: Seq<u8>,
}

/// The synthetic response for `failure`: status 500, no headers, the
/// diagnostic as body.
pub open spec fn failure_response(failure: Failure) -> ResponseModel {
    ResponseModel { status: 500, headers: Map::empty(), body: diagnostic(failure) }
}

/// The response that is handed back for a request.
#[derive(Debug, Clone, PartialEq, Eq)]
pub struct BridgeResponse {
    pub status: u16,
    pub headers: HeaderMap,
    pub body: Vec<u8>,
}

/// A status code that a response may carry.
pub open spec fn status_in_range(code: u16) -> bool {
    100 <= code && code <= 599
}

/// A response that can be handed on as it is: its status code is in range
/// and each header field has an accepted name and an accepted value.
pub open spec fn presentable(r: ResponseModel) -> bool {
    &&& status_in_range(r.status)
    &&& names_accepted(r.headers)
    &&& values_accepted(r.headers)
}

impl View for BridgeResponse {
    type V = ResponseModel;

    open spec fn view(&self) -> ResponseModel {
        ResponseModel { status: self.status, headers: self.headers@, body: self.body@ }
    }
}

impl BridgeResponse {
    /// The response can be handed on as it is.
    pub open spec fn wf(&self) -> bool {
        self.headers.wf() && presentable(self@)
    }

    /// The synthetic response for `failure`.
    pub fn failure(failure: Failure) -> (r: BridgeResponse)
        ensures
            r@ == failure_response(failure),
            r.wf(),
    {
        let text: &str = match failure {
            Failure::Connect => "Error connecting to server",
            Failure::SendHead => "Error sending request to server",
            Failure::SendBody => "Error sending request body to server",
            Failure::ReadStatus => "Error parsing status line from server response",
            Failure::ReadHeaders => "Error reading headers from server response",
            Failure::ReadBody => "Error reading response body",
            Failure::ReadBodyToClose => "Error reading response body (no Content-Length)",
            Failure::MalformedStatusLine => "Malformed status line in server response",
            Failure::InvalidContentLength => "Invalid Content-Length header",
            Failure::TruncatedBody => "Response body shorter than Content-Length",
            Failure::Internal => "Internal Server Error",
        };
        proof {
            reveal_strlit("Error connecting to server");
            reveal_strlit("Error sending request to server");
            reveal_strlit("Error sending request body to server");
            reveal_strlit("Error parsing status line from server response");
            reveal_strlit("Error reading headers from server response");
            reveal_strlit("Error reading response body");
            reveal_strlit("Error reading response body (no Content-Length)");
            reveal_strlit("Malformed status line in server response");
            reveal_strlit("Invalid Content-Length header");
            reveal_strlit("Response body shorter than Content-Length");
            reveal_strlit("Internal Server Error");
        }
        assert(text@ == diagnostic_text(failure));
        assert(text.is_ascii());
        BridgeResponse { status: 500, headers: HeaderMap::new(), body: text_bytes(text) }
    }
}

} // verus!
