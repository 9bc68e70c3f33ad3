//! The remote side: where a repository's clone report is requested, and how
//! a failed request is described.

use vstd::prelude::*;
use vstd::string::StringExecFns;

verus! {

/// The clone-traffic endpoint of (owner, name).
pub open spec fn clones_url_of(owner: Seq<char>, name: Seq<char>) -> Seq<char> {
    "https://api.github.com/repos/"@ + owner + "/"@ + name + "/traffic/clones"@
}

/// Builds the clone-traffic endpoint of a repository.
pub fn clones_url(owner: &str, name: &str) -> (r: String)
    ensures
        r@ == clones_url_of(owner@, name@),
{
    let mut url = String::from_str("https://api.github.com/repos/");
    url.append(owner);
    url.append("/");
    url.append(name);
    url.append("/traffic/clones");
    url
}

/// Why a repository's report could not be had. Each kind carries the URL
/// that was requested.
#[derive(Clone, Debug)]
pub enum FetchError {
    /// The endpoint could not be reached, or the request timed out; `cause`
    /// is the transport's own account.
    Transport { url: String, cause: String },
    /// The service answered with a non-success status; most often the access
    /// token lacks the permission to read traffic.
    Status { url: String, status: u16 },
    /// The body did not decode as a clone-traffic report; `cause` says where.
    Decode { url: String, cause: String },
}

impl FetchError {
    /// The URL whose request failed.
    pub fn url(&self) -> (r: &String)
        ensures
            r == match self {
                FetchError::Transport { url, .. } => url,
                FetchError::Status { url, .. } => url,
                FetchError::Decode { url, .. } => url,
            },
    {
        match self {
            FetchError::Transport { url, .. } => url,
            FetchError::Status { url, .. } => url,
            FetchError::Decode { url, .. } => url,
        }
    }
}

} // verus!
