//! Readers of the pages of the streaming site: its search results and the
//! download links of an episode.

use vstd::prelude::*;
use crate::allanime::{opt_string_view, strings_view};
use crate::error::ScrapeError;
use crate::html::{elements_view, select_elements, selected_elements};
use crate::json::copy_string;
use crate::text::{occurs_at, occurs_at_exec};

verus! {

/// The elements of a search page that link to an anime: the `a` elements
/// within elements of class `name`.
pub const ANIME_LINK_SELECTOR: &'static str = ".name a";

/// The elements of an episode page that link to a download of the video.
pub const MEDIA_LINK_SELECTOR: &'static str = ".cf-download a";

/// The attribute of a link that holds its target.
pub const LINK_ATTRIBUTE: &'static str = "href";

/// `"/category/"`, the path before the URL ending of an anime.
pub open spec fn category_prefix() -> Seq<char> {
    seq!['/', 'c', 'a', 't', 'e', 'g', 'o', 'r', 'y', '/']
}

/// The URL ending that a link target gives: the target without a leading
/// `/category/`.
pub open spec fn url_ending_of(href: Seq<char>) -> Seq<char> {
    if occurs_at(href, category_prefix(), 0) {
        href.subrange(category_prefix().len() as int, href.len() as int)
    } else {
        href
    }
}

/// The URL ending of a link with target `href`, where it has one; the
/// empty ending where it has none.
pub open spec fn url_entry(href: Option<Seq<char>>) -> Seq<char> {
    match href {
        Some(h) => url_ending_of(h),
        None => Seq::empty(),
    }
}

/// The URL endings of the links `els`, one per link, in order.
pub open spec fn url_endings_spec(els: Seq<(Option<Seq<char>>, Seq<char>)>) -> Seq<Seq<char>> {
    els.map_values(|e: (Option<Seq<char>>, Seq<char>)| url_entry(e.0))
}

/// The texts of the elements `els`, in order.
pub open spec fn texts_spec(els: Seq<(Option<Seq<char>>, Seq<char>)>) -> Seq<Seq<char>> {
    els.map_values(|e: (Option<Seq<char>>, Seq<char>)| e.1)
}

/// The targets of the links `els`, in order, links without one left out.
pub open spec fn present_values_spec(els: Seq<(Option<Seq<char>>, Seq<char>)>) -> Seq<Seq<char>>
    decreases els.len(),
{
    if els.len() == 0 {
        Seq::empty()
    } else {
        let prev = present_values_spec(els.drop_last());
        match els.last().0 {
            Some(h) => prev.push(h),
            None => prev,
        }
    }
}

fn category_prefix_chars() -> (v: Vec<char>)
    ensures
        v@ == category_prefix(),
{
    let v = vec!['/', 'c', 'a', 't', 'e', 'g', 'o', 'r', 'y', '/'];
    assert(v@ =~= category_prefix());
    v
}

/// The URL ending that a link target gives.
pub fn url_ending(href: &String) -> (r: String)
    ensures
        r@ == url_ending_of(href@),
{
    let chars = crate::text::chars_of(href.as_str());
    let prefix = category_prefix_chars();
    if occurs_at_exec(&chars, &prefix, 0) {
        let mut rest: Vec<char> = Vec::new();
        let n = chars.len();
        let mut k: usize = prefix.len();
        while k < n
            invariant
                n == chars.len(),
                prefix.len() <= k <= n,
                rest@ =~= chars@.subrange(prefix.len() as int, k as int),
            decreases n - k,
        {
            rest.push(chars[k]);
            k = k + 1;
        }
        crate::text::string_from_chars(&rest)
    } else {
        copy_string(href)
    }
}

/// The URL endings of the links `els`, one per link.
pub fn url_endings(els: &Vec<(Option<String>, String)>) -> (r: Vec<String>)
    ensures
        strings_view(r@) == url_endings_spec(elements_view(els@)),
{
    let mut r: Vec<String> = Vec::new();
    let n = els.len();
    for i in 0..n
        invariant
            n == els.len(),
            strings_view(r@) =~= url_endings_spec(elements_view(els@)).take(i as int),
    {
        let ending = match &els[i].0 {
            Some(h) => url_ending(h),
            None => String::new(),
        };
        let ghost before = r@;
        r.push(ending);
        assert(strings_view(r@) =~= strings_view(before).push(r@.last()@));
        assert(url_endings_spec(elements_view(els@)).take(i + 1) =~= url_endings_spec(
            elements_view(els@),
        ).take(i as int).push(url_entry(opt_string_view(els@[i as int].0))));
    }
    assert(url_endings_spec(elements_view(els@)).take(n as int) =~= url_endings_spec(
        elements_view(els@),
    ));
    r
}

/// The texts of the elements `els`, one per element.
pub fn element_texts(els: &Vec<(Option<String>, String)>) -> (r: Vec<String>)
    ensures
        strings_view(r@) == texts_spec(elements_view(els@)),
{
    let mut r: Vec<String> = Vec::new();
    let n = els.len();
    for i in 0..n
        invariant
            n == els.len(),
            strings_view(r@) =~= texts_spec(elements_view(els@)).take(i as int),
    {
        let ghost before = r@;
        r.push(copy_string(&els[i].1));
        assert(strings_view(r@) =~= strings_view(before).push(els@[i as int].1@));
        assert(texts_spec(elements_view(els@)).take(i + 1) =~= texts_spec(elements_view(els@)).take(
            i as int,
        ).push(els@[i as int].1@));
    }
    assert(texts_spec(elements_view(els@)).take(n as int) =~= texts_spec(elements_view(els@)));
    r
}

/// The targets of the links `els`, links without one left out.
pub fn present_values(els: &Vec<(Option<String>, String)>) -> (r: Vec<String>)
    ensures
        strings_view(r@) == present_values_spec(elements_view(els@)),
{
    let mut r: Vec<String> = Vec::new();
    let n = els.len();
    for i in 0..n
        invariant
            n == els.len(),
            strings_view(r@) == present_values_spec(elements_view(els@).take(i as int)),
    {
        assert(elements_view(els@).take(i + 1).drop_last() =~= elements_view(els@).take(i as int));
        match &els[i].0 {
            Some(h) => {
                let ghost before = r@;
                r.push(copy_string(h));
                assert(strings_view(r@) =~= strings_view(before).push(h@));
            },
            None => {},
        }
    }
    assert(elements_view(els@).take(n as int) =~= elements_view(els@));
    r
}

/// The anime links of a search page.
pub open spec fn anime_links(body: Seq<char>) -> Seq<(Option<Seq<char>>, Seq<char>)> {
    selected_elements(body, ANIME_LINK_SELECTOR@, LINK_ATTRIBUTE@)
}

/// The URL endings of the anime that a search page lists: for each `a`
/// element within an element of class `name`, in the order in which the
/// selection yields them, its `href` without a leading `/category/`, or the
/// empty ending where it has no `href`.
pub fn get_anime_url(body: String) -> (r: Vec<String>)
    ensures
        strings_view(r@) == url_endings_spec(anime_links(body@)),
{
    url_endings(&select_elements(body.as_str(), ANIME_LINK_SELECTOR, LINK_ATTRIBUTE))
}

/// The names of the anime that a search page lists: the text of each `a`
/// element within an element of class `name`, in the order in which the
/// selection yields them.
pub fn get_anime_name(body: String) -> (r: Vec<String>)
    ensures
        strings_view(r@) == texts_spec(anime_links(body@)),
{
    element_texts(&select_elements(body.as_str(), ANIME_LINK_SELECTOR, LINK_ATTRIBUTE))
}

/// The video URLs of an episode page: the `href` of each download link, in
/// the order in which the selection yields them.
pub fn get_media_url(body: String) -> (r: Vec<String>)
    ensures
        strings_view(r@) == present_values_spec(
            selected_elements(body@, MEDIA_LINK_SELECTOR@, LINK_ATTRIBUTE@),
        ),
{
    present_values(&select_elements(body.as_str(), MEDIA_LINK_SELECTOR, LINK_ATTRIBUTE))
}

/// The URL endings and the names that a search page lists go together: as
/// many of each, the `i`-th ending and the `i`-th name read from the same
/// link.
pub proof fn lemma_anime_lists_align(body: Seq<char>)
    ensures
        url_endings_spec(anime_links(body)).len() == texts_spec(anime_links(body)).len(),
        url_endings_spec(anime_links(body)).len() == anime_links(body).len(),
        forall|i: int|
            0 <= i < anime_links(body).len() ==> url_endings_spec(anime_links(body))[i] == url_entry(
                (#[trigger] anime_links(body)[i]).0,
            ) && texts_spec(anime_links(body))[i] == anime_links(body)[i].1,
{
}

/// The links of `els` that have a target, in order.
pub open spec fn targeted(els: Seq<(Option<Seq<char>>, Seq<char>)>) -> Seq<(Option<Seq<char>>, Seq<char>)> {
    els.filter(|e: (Option<Seq<char>>, Seq<char>)| e.0 is Some)
}

/// Every link with a target gives its target and no other link gives one:
/// there are as many targets as such links, and the k-th target is that of
/// the k-th such link.
pub proof fn lemma_present_values_every_target(els: Seq<(Option<Seq<char>>, Seq<char>)>)
    ensures
        present_values_spec(els).len() == targeted(els).len(),
        forall|k: int|
            0 <= k < targeted(els).len() ==> targeted(els)[k].0 == Some(
                #[trigger] present_values_spec(els)[k],
            ),
    decreases els.len(),
{
    if els.len() > 0 {
        let prev = els.drop_last();
        lemma_present_values_every_target(prev);
        assert(els == prev.push(els.last()));
        prev.lemma_filter_push(els.last(), |e: (Option<Seq<char>>, Seq<char>)| e.0 is Some);
        let all = present_values_spec(els);
        let before = present_values_spec(prev);
        assert forall|k: int| 0 <= k < targeted(els).len() implies targeted(els)[k].0 == Some(
            #[trigger] all[k],
        ) by {
            if k < targeted(prev).len() {
                assert(all[k] == before[k]);
                assert(targeted(els)[k] == targeted(prev)[k]);
            }
        }
    }
}

/// The image URLs of an HTML body: none are read.
pub fn get_anime_images(body: String) -> (r: Vec<String>)
    ensures
        r@.len() == 0,
{
    Vec::new()
}

/// The number of episodes that a category page announces: not available.
pub fn get_total_number_of_episodes(body: String) -> (r: Result<usize, ScrapeError>)
    ensures
        r == Err::<usize, ScrapeError>(ScrapeError::NotImplemented),
{
    Err(ScrapeError::NotImplemented)
}

/// Whether a category page shows an ongoing anime: never.
pub fn is_anime_ongoing(body: &str) -> (b: bool)
    ensures
        !b,
{
    false
}

} // verus!
