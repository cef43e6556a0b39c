//! What the `http` crate accepts as a status code, a header field name and
//! a header field value. The three functions at the end call into the crate;
//! their contracts are taken on trust from its source.

use vstd::prelude::*;

verus! {

/// The largest length of a header field name.
pub const MAX_NAME_LEN: usize = 65535;

/// A byte that may stand in a header field name: a letter, a digit or one of
/// ``! # $ % & ' * + - . ^ _ ` | ~``.
pub open spec fn is_name_byte(b: u8) -> bool {
    ||| (0x30 <= b && b <= 0x39)
    ||| (0x41 <= b && b <= 0x5a)
    ||| (0x61 <= b && b <= 0x7a)
    ||| b == 0x21
    ||| b == 0x23
    ||| b == 0x24
    ||| b == 0x25
    ||| b == 0x26
    ||| b == 0x27
    ||| b == 0x2a
    ||| b == 0x2b
    ||| b == 0x2d
    ||| b == 0x2e
    ||| b == 0x5e
    ||| b == 0x5f
    ||| b == 0x60
    ||| b == 0x7c
    ||| b == 0x7e
}

/// A header field name is accepted when it has between 1 and 65535 bytes,
/// each of them a name byte.
pub open spec fn name_accepted(name: Seq<u8>) -> bool {
    &&& 1 <= name.len() <= MAX_NAME_LEN
    &&& forall|i: int| 0 <= i < name.len() ==> is_name_byte(#[trigger] name[i])
}

/// A byte that may stand in a header field value: a tab, or anything from 32
/// up except 127.
pub open spec fn is_value_byte(b: u8) -> bool {
    (b >= 32 && b != 127) || b == 0x09
}

/// A header field value is accepted when each of its bytes is a value byte.
pub open spec fn value_accepted(value: Seq<u8>) -> bool {
    forall|i: int| 0 <= i < value.len() ==> is_value_byte(#[trigger] value[i])
}

/// A status code is accepted from 100 up to 999.
pub open spec fn status_accepted(code: u16) -> bool {
    100 <= code && code <= 999
}

/// Calls `http::StatusCode::from_u16` and reports whether it returned `Ok`.
/// Trusted: the call succeeds exactly for the codes from 100 to 999.
#[verifier::external_body]
pub(crate) fn status_code_accepted(code: u16) -> (ok: bool)
    ensures
        ok == status_accepted(code),
{
    http::StatusCode::from_u16(code).is_ok()
}

/// Calls `http::header::HeaderName::from_bytes` and reports whether it
/// returned `Ok`. Trusted: the call succeeds exactly for names of 1 to 65535
/// bytes that hold name bytes only.
#[verifier::external_body]
pub(crate) fn header_name_accepted(name: &[u8]) -> (ok: bool)
    ensures
        ok == name_accepted(name@),
{
    http::header::HeaderName::from_bytes(name).is_ok()
}

/// Calls `http::header::HeaderValue::from_bytes` and reports whether it
/// returned `Ok`. Trusted: the call succeeds exactly when every byte is a tab
/// or at least 32 and not 127.
#[verifier::external_body]
pub(crate) fn header_value_accepted(value: &[u8]) -> (ok: bool)
    ensures
        ok == value_accepted(value@),
{
    http::header::HeaderValue::from_bytes(value).is_ok()
}

} // verus!
