//! The adapter between the host shell and the bridge: it turns what the
//! shell intercepted into a request for the local server, the virtual origin
//! in its target replaced by the server's own.

use crate::message::{BridgeRequest, Header, ServerEndpoint};
use crate::text::{append_bytes, ascii, copy_bytes, replace_all, replace_every, text_bytes};
use vstd::prelude::*;

verus! {

/// The origin under which the shell addresses the server.
pub open spec fn virtual_origin() -> Seq<u8> {
    ascii("tauri://localhost"@)
}

/// The origin of the server at `authority`.
pub open spec fn local_origin(authority: Seq<u8>) -> Seq<u8> {
    ascii("http://"@) + authority
}

/// `uri` with every occurrence of the virtual origin replaced by the origin
/// of the server at `authority`.
pub open spec fn rewritten(uri: Seq<u8>, authority: Seq<u8>) -> Seq<u8> {
    replace_all(uri, virtual_origin(), local_origin(authority))
}

/// The target of a request for `uri` at `endpoint`.
pub fn rewrite_target(uri: &[u8], endpoint: &ServerEndpoint) -> (target: Vec<u8>)
    ensures
        target@ == rewritten(uri@, endpoint.authority_spec()),
{
    proof {
        reveal_strlit("tauri://localhost");
        reveal_strlit("http://");
    }
    let from = text_bytes("tauri://localhost");
    let mut to = text_bytes("http://");
    let authority = endpoint.authority();
    append_bytes(&mut to, authority.as_slice());
    replace_every(uri, from.as_slice(), to.as_slice())
}

/// The request for the server that stands for an intercepted one: the same
/// method, headers and body, and the target rewritten.
pub fn intercept(
    endpoint: &ServerEndpoint,
    method: &[u8],
    uri: &[u8],
    headers: Vec<Header>,
    body: Vec<u8>,
) -> (request: BridgeRequest)
    ensures
        request.method@ == method@,
        request.target@ == rewritten(uri@, endpoint.authority_spec()),
        request.headers == headers,
        request.body == body,
{
    BridgeRequest { method: copy_bytes(method), target: rewrite_target(uri, endpoint), headers, body }
}

} // verus!
