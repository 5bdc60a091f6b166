//! The Freesound client's state, and what a failed request means. Requests themselves
//! are network I/O and are made by the application around this library.

use vstd::prelude::*;

verus! {

/// Progress of a preview download, reported to the UI.
#[derive(Debug, Clone, Copy, PartialEq, Eq, Structural)]
pub struct DownloadProgress {
    pub downloaded_bytes: u64,
    pub total_bytes: Option<u64>,
}

/// A Freesound API client: the key every request is made with.
pub struct Client {
    api_key: String,
}

impl Client {
    pub fn new(api_key: &str) -> (client: Self)
        ensures
            client.key() == api_key@,
    {
        Client { api_key: api_key.to_string() }
    }

    pub closed spec fn key(&self) -> Seq<char> {
        self.api_key@
    }

    /// The key requests are authorized with.
    pub fn api_key(&self) -> (key: &str)
        ensures
            key@ == self.key(),
    {
        self.api_key.as_str()
    }
}

/// How a failed request is reported to the user.
#[derive(Debug, Clone, Copy, PartialEq, Eq, Structural)]
pub enum HttpFailure {
    /// The API key was refused.
    Unauthorized,
    /// Too many requests; waiting helps.
    RateLimited,
    /// Anything else, reported with the transport's own words.
    Request,
}

/// What a failed request means, from the HTTP status it came back with, if any.
pub fn http_failure(status: Option<u16>) -> (failure: HttpFailure)
    ensures
        failure == match status {
            Some(401) | Some(403) => HttpFailure::Unauthorized,
            Some(429) => HttpFailure::RateLimited,
            _ => HttpFailure::Request,
        },
{
    match status {
        Some(401) | Some(403) => HttpFailure::Unauthorized,
        Some(429) => HttpFailure::RateLimited,
        _ => HttpFailure::Request,
    }
}

} // verus!
