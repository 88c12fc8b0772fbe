//! Logging in to the former streaming site and addressing its episode pages.

use vstd::prelude::*;
use crate::html::{elements_view, select_elements, selected_elements};
use crate::error::ScrapeError;
use crate::text::{decimal, decimal_chars, string_from_chars};
use crate::URL;

verus! {

/// The selector of the element that holds the CSRF token of a login page.
pub const CSRF_SELECTOR: &'static str = "meta[name='csrf-token']";

/// The attribute that holds the CSRF token.
pub const CSRF_ATTRIBUTE: &'static str = "content";

/// The attribute of the first of `found`, if any.
pub open spec fn first_found(found: Seq<(Option<Seq<char>>, Seq<char>)>) -> Option<Seq<char>> {
    if found.len() > 0 {
        found[0].0
    } else {
        None
    }
}

/// The token of a login page, from the `content` of each element that the
/// CSRF selector matches: that of the first such element, or
/// `CsrfTokenNotFound` where there is none or it has no `content`.
pub fn csrf_token_from(found: Vec<(Option<String>, String)>) -> (r: Result<String, ScrapeError>)
    ensures
        match first_found(elements_view(found@)) {
            Some(t) => r matches Ok(u) && u@ == t,
            None => r == Err::<String, ScrapeError>(ScrapeError::CsrfTokenNotFound),
        },
{
    if found.len() == 0 {
        return Err(ScrapeError::CsrfTokenNotFound);
    }
    let mut found = found;
    let first = found.swap_remove(0);
    match first.0 {
        Some(t) => Ok(t),
        None => Err(ScrapeError::CsrfTokenNotFound),
    }
}

/// The CSRF token of a login page: the `content` of the first
/// `meta[name='csrf-token']` element.
pub fn get_csrf_token(login_page: &str) -> (r: Result<String, ScrapeError>)
    ensures
        match first_found(selected_elements(login_page@, CSRF_SELECTOR@, CSRF_ATTRIBUTE@)) {
            Some(t) => r matches Ok(u) && u@ == t,
            None => r == Err::<String, ScrapeError>(ScrapeError::CsrfTokenNotFound),
        },
{
    csrf_token_from(select_elements(login_page, CSRF_SELECTOR, CSRF_ATTRIBUTE))
}

/// The address of the login page.
pub fn login_url() -> (r: String)
    ensures
        r@ == URL@ + "login.html"@,
{
    let mut r = URL.to_owned();
    r.append("login.html");
    r
}

/// The address of the page of an episode of a show on the site at `base`.
pub fn episode_page_url(base: &str, anime_url_ending: &str, episode_number: u32) -> (r: String)
    ensures
        r@ == base@ + "/"@ + anime_url_ending@ + "-episode-"@ + decimal(episode_number as nat),
{
    let mut r = base.to_owned();
    r.append("/");
    r.append(anime_url_ending);
    r.append("-episode-");
    let number = string_from_chars(&decimal_chars(episode_number as u64));
    r.append(number.as_str());
    r
}

/// What to do with an episode of the former site.
pub enum FormerSiteAction {
    /// Its file is already there and not empty: go on to the next episode.
    Skip,
    /// Its page is missing: there are no more episodes.
    Stop,
    /// Download it.
    Fetch,
}

/// The decision on an episode of the former site: an episode whose file is
/// there and not empty is skipped; otherwise the episodes end where the
/// episode's page does not answer 200; otherwise the episode is downloaded.
pub fn former_site_step(file_nonempty: bool, page_ok: bool) -> (a: FormerSiteAction)
    ensures
        file_nonempty ==> a is Skip,
        !file_nonempty && !page_ok ==> a is Stop,
        !file_nonempty && page_ok ==> a is Fetch,
{
    if file_nonempty {
        FormerSiteAction::Skip
    } else if !page_ok {
        FormerSiteAction::Stop
    } else {
        FormerSiteAction::Fetch
    }
}

} // verus!
