//! What fetching from a remote repository computes: urls and authentication.
use vstd::prelude::*;

use base64::Engine;
use vstd::utf8::encode_utf8;

verus! {

/// The standard base64 encoding of `bytes`, with padding.
pub uninterp spec fn base64_standard(bytes: Seq<u8>) -> Seq<char>;

/// Relies on `base64::engine::general_purpose::STANDARD.encode`, which encodes with the
/// standard alphabet and padding; it panics only when the encoded length overflows.
#[verifier::external_body]
fn encode_base64(bytes: &[u8]) -> (r: String)
    requires
        bytes@.len() < usize::MAX / 2,
    ensures
        r@ == base64_standard(bytes@),
{
    base64::engine::general_purpose::STANDARD.encode(bytes)
}

/// The value of an HTTP basic authentication header: `Basic base64(username:password)`.
pub fn basic_authentication_value(username: &str, password: &str) -> (r: String)
    requires
        encode_utf8(username@ + ":"@ + password@).len() < usize::MAX / 2,
    ensures
        r@ == "Basic "@ + base64_standard(encode_utf8(username@ + ":"@ + password@)),
{
    let mut auth = String::from_str(username);
    auth.append(":");
    auth.append(password);
    let encoded = encode_base64(auth.as_str().as_bytes());
    let mut header = String::from_str("Basic ");
    header.append(encoded.as_str());
    header
}

/// `base/path`, with exactly the slash that `base` does not end with.
pub open spec fn joined_url(base: Seq<char>, path: Seq<char>) -> Seq<char> {
    if base.len() > 0 && base.last() == '/' {
        base + path
    } else {
        base + "/"@ + path
    }
}

/// Joins the base url of a repository and a path in it.
pub fn url_with_path(base: &str, path: &str) -> (r: String)
    ensures
        r@ == joined_url(base@, path@),
{
    let n = base.unicode_len();
    let mut s = String::from_str(base);
    if !(n > 0 && base.get_char(n - 1) == '/') {
        s.append("/");
    }
    s.append(path);
    s
}

} // verus!
