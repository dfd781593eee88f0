//! The download link of a file, as the API reports it.

use vstd::prelude::*;
use crate::json::Json;
use crate::time::Wait;

verus! {

/// The response to a request for the download link of a file: the wait
/// that the rate limiter derived from it, and its body.
pub struct DownloadLinkResponse {
    pub wait: Wait,
    pub json: Json,
}

/// What is wrong with a response that holds no link.
#[derive(Debug, Clone, Copy, PartialEq, Eq, Structural)]
pub enum LinkError {
    /// The body is no array, or an empty one.
    MissingFirstLink,
    /// The first element has no member `URI`.
    MissingUri,
    /// The member `URI` is no string.
    UriNotString,
}

/// The link that a body holds: the `URI` of the first element of the
/// array.
pub open spec fn link_of(body: Json) -> Result<String, LinkError> {
    if body.item(0) is None {
        Err(LinkError::MissingFirstLink)
    } else if body.item(0)->0.field("URI"@) is None {
        Err(LinkError::MissingUri)
    } else if body.item(0)->0.field("URI"@)->0.text() is None {
        Err(LinkError::UriNotString)
    } else {
        Ok(body.item(0)->0.field("URI"@)->0.text()->0)
    }
}

impl DownloadLinkResponse {
    /// The link to download the file from: the first that the response
    /// offers.
    pub fn link(&self) -> (r: Result<String, LinkError>)
        ensures
            r == link_of(self.json),
    {
        let first = match self.json.get_index(0) {
            Some(first) => first,
            None => {
                return Err(LinkError::MissingFirstLink);
            },
        };
        let uri = match first.get("URI") {
            Some(uri) => uri,
            None => {
                return Err(LinkError::MissingUri);
            },
        };
        match uri.as_str() {
            Some(link) => Ok(link.clone()),
            None => Err(LinkError::UriNotString),
        }
    }
}

} // verus!
