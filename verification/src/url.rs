//! URL validation, under the name the download operations use.

use vstd::prelude::*;

use crate::error::Error;
use crate::validate::{url_facts, url_valid};

verus! {

/// Validates a download URL.
///
/// Accepts exactly the URLs that are non-empty, parse as an absolute URL,
/// carry scheme `http` or `https`, and have a host; every rejection is a
/// `Url` error.
pub fn validate(input: &str) -> (r: Result<(), Error>)
    ensures
        r is Ok <==> url_valid(input@),
        r matches Err(e) ==> e is Url,
        input@.len() == 0 ==> (r matches Err(Error::Url(m)) && m@ == "URL cannot be empty"@),
        input@.len() > 0 && (url_facts(input@) matches Some(f) && !(f.0 == "http"@ || f.0
            == "https"@)) ==> (r matches Err(Error::Url(m)) && m@ == "Invalid URL scheme '"@ + (
        url_facts(input@)->Some_0).0 + "': must be http or https"@),
        input@.len() > 0 && (url_facts(input@) matches Some(f) && (f.0 == "http"@ || f.0
            == "https"@) && !f.1) ==> (r matches Err(Error::Url(m)) && m@
            == "URL must have a host"@),
{
    crate::validate::url(input)
}

} // verus!
