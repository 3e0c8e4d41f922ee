//! The allow-list of response headers used when testing a server.
//!
//! A test client checks that a server leaks no unexpected header: only
//! the names below may appear in a response, and `transfer-encoding` only
//! with the value `chunked`.

use vstd::prelude::*;

use crate::util::str_eq;

verus! {

/// A test header servers may echo for header-handling tests.
pub const TEST_HEADER_1: &'static str = "x-dropshot-test-header-1";

/// A second test header servers may echo for header-handling tests.
pub const TEST_HEADER_2: &'static str = "x-dropshot-test-header-2";

/// Whether a response header is allowed: one of the known names with any
/// value, or `transfer-encoding` with the value `chunked`.
pub open spec fn header_allowed(name: Seq<char>, value: Seq<char>) -> bool {
    ||| name == "content-length"@
    ||| name == "content-type"@
    ||| name == "date"@
    ||| name == "location"@
    ||| name == "x-request-id"@
    ||| name == "x-dropshot-test-header-1"@
    ||| name == "x-dropshot-test-header-2"@
    ||| (name == "transfer-encoding"@ && value == "chunked"@)
}

/// Whether a response may carry the given header, per the allow-list.
pub fn response_header_allowed(name: &str, value: &str) -> (r: bool)
    ensures
        r == header_allowed(name@, value@),
{
    proof {
        reveal_strlit("content-length");
        reveal_strlit("content-type");
        reveal_strlit("date");
        reveal_strlit("location");
        reveal_strlit("x-request-id");
        reveal_strlit("x-dropshot-test-header-1");
        reveal_strlit("x-dropshot-test-header-2");
        reveal_strlit("transfer-encoding");
        reveal_strlit("chunked");
    }
    str_eq(name, "content-length") || str_eq(name, "content-type") || str_eq(name, "date")
        || str_eq(name, "location") || str_eq(name, "x-request-id") || str_eq(
        name,
        TEST_HEADER_1,
    ) || str_eq(name, TEST_HEADER_2) || (str_eq(name, "transfer-encoding") && str_eq(
        value,
        "chunked",
    ))
}

} // verus!
