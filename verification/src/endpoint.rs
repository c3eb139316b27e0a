//! Validation of the query endpoint's URL.
//!
//! The endpoint string from the configuration is parsed once, up front;
//! a malformed URL ends the run with `UrlParsingErr` before anything is
//! fetched. The parsed value is handed back for the caller to build its
//! transport from.

use crate::error::SerpicoError;
use vstd::prelude::*;

verus! {

#[verifier::external_type_specification]
#[verifier::external_body]
pub struct ExUrl(url::Url);

/// Whether a string parses as a URL; a property of the string alone.
pub uninterp spec fn url_ok(s: Seq<char>) -> bool;

/// Relies on url::Url::parse: it succeeds or fails depending only on the
/// input string.
#[verifier::external_body]
fn parse_url(s: &str) -> (r: Result<url::Url, String>)
    ensures
        r is Ok <==> url_ok(s@),
{
    match url::Url::parse(s) {
        Ok(u) => Ok(u),
        Err(e) => Err(format!("{}", e)),
    }
}

/// Parses the configured endpoint, mapping a malformed URL to
/// `UrlParsingErr`: the run fails up front on exactly the strings the
/// URL parser rejects.
pub fn parse_rpc_url(s: &str) -> (r: Result<url::Url, SerpicoError>)
    ensures
        r is Ok <==> url_ok(s@),
        r is Err ==> r->Err_0 is UrlParsingErr,
{
    match parse_url(s) {
        Ok(u) => Ok(u),
        Err(m) => Err(SerpicoError::UrlParsingErr(m)),
    }
}

} // verus!
