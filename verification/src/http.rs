//! HTTP path handling: request path parsing with query strings, and
//! percent-decoding of URL-encoded text.

pub mod path;
pub mod url;

pub use path::Path;
pub use url::urldecode;

use vstd::prelude::*;

verus! {

/// An error raised while parsing a request path.
#[derive(Debug, PartialEq)]
pub enum Error {
    /// The request path does not have the shape of a path with at most
    /// one query string. The tag describes the fault, for diagnostics.
    MalformedRequest(&'static str),
}

} // verus!
