//! Building blocks of an anime episode downloader: search-term and URL
//! handling, decoding of provider identifiers, scanning of provider
//! responses for playable links, and the decisions taken while downloading.

pub mod allanime;
pub mod download;
pub mod error;
pub mod html;
pub mod input_handler;
pub mod json;
pub mod parser;
pub mod print_handleing;
pub mod provider;
pub mod scraper;
pub mod scrapertui;
pub mod text;

use vstd::prelude::*;
use crate::allanime::strings_view;
use crate::parser::{anime_links, texts_spec, url_endings_spec, url_entry};

verus! {

/// The address of the former streaming site.
pub const URL: &'static str = "https://anitaku.pe/";

/// The search page of the former streaming site, the term to be appended.
pub const SEARCH_URL: &'static str = "https://anitaku.pe/search.html?keyword=";

/// The category pages of the former streaming site, the show to be appended.
pub const CAT_URL: &'static str = "https://anitaku.pe/category/";

/// The URL endings, names and images of the anime that a search page lists.
pub fn get_anime_info(body: String) -> (r: (Vec<String>, Vec<String>, Vec<String>))
    ensures
        strings_view(r.0@) == url_endings_spec(anime_links(body@)),
        strings_view(r.1@) == texts_spec(anime_links(body@)),
        r.0@.len() == r.1@.len(),
        forall|i: int|
            0 <= i < r.0@.len() ==> (#[trigger] r.0@[i])@ == url_entry(anime_links(body@)[i].0)
                && r.1@[i]@ == anime_links(body@)[i].1,
        r.2@.len() == 0,
{
    let anime_url = parser::get_anime_url(body.clone());
    let anime_name = parser::get_anime_name(body.clone());
    let anime_images = parser::get_anime_images(body);
    proof {
        parser::lemma_anime_lists_align(body@);
        assert forall|i: int| 0 <= i < anime_url@.len() implies (#[trigger] anime_url@[i])@
            == url_entry(anime_links(body@)[i].0) && anime_name@[i]@ == anime_links(body@)[i].1 by {
            assert(strings_view(anime_url@)[i] == anime_url@[i]@);
            assert(strings_view(anime_name@)[i] == anime_name@[i]@);
        }
    }
    (anime_url, anime_name, anime_images)
}

/// The URL endings and names of the anime that a search page lists.
pub fn get_anime_details(body: String) -> (r: (Vec<String>, Vec<String>))
    ensures
        strings_view(r.0@) == url_endings_spec(anime_links(body@)),
        strings_view(r.1@) == texts_spec(anime_links(body@)),
        r.0@.len() == r.1@.len(),
        forall|i: int|
            0 <= i < r.0@.len() ==> (#[trigger] r.0@[i])@ == url_entry(anime_links(body@)[i].0)
                && r.1@[i]@ == anime_links(body@)[i].1,
{
    let anime_url = parser::get_anime_url(body.clone());
    let anime_name = parser::get_anime_name(body);
    proof {
        parser::lemma_anime_lists_align(body@);
        assert forall|i: int| 0 <= i < anime_url@.len() implies (#[trigger] anime_url@[i])@
            == url_entry(anime_links(body@)[i].0) && anime_name@[i]@ == anime_links(body@)[i].1 by {
            assert(strings_view(anime_url@)[i] == anime_url@[i]@);
            assert(strings_view(anime_name@)[i] == anime_name@[i]@);
        }
    }
    (anime_url, anime_name)
}

/// The address of the search page for a search term.
pub fn search_url(term: &str) -> (r: String)
    ensures
        r@ == SEARCH_URL@ + term@,
{
    let mut r = SEARCH_URL.to_owned();
    r.append(term);
    r
}

/// The address of the category page of a show.
pub fn category_url(anime_url_ending: &str) -> (r: String)
    ensures
        r@ == CAT_URL@ + anime_url_ending@,
{
    let mut r = CAT_URL.to_owned();
    r.append(anime_url_ending);
    r
}

} // verus!
