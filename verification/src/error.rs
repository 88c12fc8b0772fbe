//! The ways in which the library's operations fail.

use vstd::prelude::*;

verus! {

/// Why an operation of the library gave up.
#[derive(Debug, Clone, Copy, PartialEq, Eq, Structural)]
pub enum ScrapeError {
    /// The page parser has no implementation for the current source.
    NotImplemented,
    /// The show lists no episode.
    NoEpisodes,
    /// No source of the episode decodes to a provider link.
    NoProviderLinks,
    /// No provider returned a playable link.
    NoPlayableLinks,
    /// The login page holds no CSRF token.
    CsrfTokenNotFound,
    /// A request was refused by the server.
    RequestFailed,
    /// Every attempt to find a video link failed.
    NoVideoUrl,
    /// Every attempt to download the chosen link failed.
    DownloadRetriesExhausted,
}

impl ScrapeError {
    /// The sentence that describes the error.
    pub open spec fn message_spec(self) -> Seq<char> {
        match self {
            ScrapeError::NotImplemented => "Not implemented for AllAnime"@,
            ScrapeError::NoEpisodes => "No episodes found for the selected show"@,
            ScrapeError::NoProviderLinks => "No provider links found for the selected episode"@,
            ScrapeError::NoPlayableLinks => "No playable links returned"@,
            ScrapeError::CsrfTokenNotFound => "CSRF token not found"@,
            ScrapeError::RequestFailed => "HTTP request failed"@,
            ScrapeError::NoVideoUrl => "No video URL found after multiple retries"@,
            ScrapeError::DownloadRetriesExhausted => "Failed to handle redirect after multiple retries"@,
        }
    }

    /// The sentence that describes the error.
    pub fn message(&self) -> (r: String)
        ensures
            r@ == self.message_spec(),
    {
        match self {
            ScrapeError::NotImplemented => "Not implemented for AllAnime".to_owned(),
            ScrapeError::NoEpisodes => "No episodes found for the selected show".to_owned(),
            ScrapeError::NoProviderLinks => "No provider links found for the selected episode".to_owned(),
            ScrapeError::NoPlayableLinks => "No playable links returned".to_owned(),
            ScrapeError::CsrfTokenNotFound => "CSRF token not found".to_owned(),
            ScrapeError::RequestFailed => "HTTP request failed".to_owned(),
            ScrapeError::NoVideoUrl => "No video URL found after multiple retries".to_owned(),
            ScrapeError::DownloadRetriesExhausted => "Failed to handle redirect after multiple retries".to_owned(),
        }
    }
}

} // verus!
