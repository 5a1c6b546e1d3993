//! A compiler from an OpenAPI/Swagger-style document to a statically typed
//! HTTP client, together with the signed-request runtime the generated
//! client methods delegate to.

use vstd::prelude::*;

pub mod decode;
pub mod naming;
pub mod ops;
pub mod output;
pub mod resolve;
pub mod schema;
pub mod sign;
pub mod text;
pub mod ty;

verus! {

/// HTTP methods an operation may use.
#[derive(Clone, Copy, PartialEq, Eq, Structural, Debug)]
pub enum Method {
    Get,
    Post,
    Put,
    Delete,
}

/// The lower-case name of an HTTP method.
pub open spec fn method_prefix_of(m: Method) -> Seq<char> {
    match m {
        Method::Get => "get"@,
        Method::Post => "post"@,
        Method::Put => "put"@,
        Method::Delete => "delete"@,
    }
}

impl Method {
    /// The lower-case name of the method, as it appears as a key in the
    /// document's path items and as the leading fragment of operation names.
    pub fn as_str(&self) -> (r: &'static str)
        ensures
            r@ == method_prefix_of(*self),
    {
        match self {
            Method::Get => "get",
            Method::Post => "post",
            Method::Put => "put",
            Method::Delete => "delete",
        }
    }
}

} // verus!
