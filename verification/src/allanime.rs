//! Reading the answers of the AllAnime service: search results, episode
//! lists, episode sources and the links that a provider offers.

use vstd::prelude::*;
use crate::error::ScrapeError;
use crate::json::{
    array_or_empty, copy_string, entries_get, json_of_text, parse_json_text, entry_get, get_spec, opt_get, opt_i64, opt_str, str_or_empty,
    str_or_empty_of, JsonNumber, JsonValue,
};
use crate::provider::{decode_provider_id, decode_provider_spec};
use crate::text::{
    ascii_digits_chars, ascii_digits_of, chars_of, contains_chars, contains_spec, decimal, decimal_chars,
    occurs_at,
    parse_unsigned_chars, parse_unsigned_spec, string_from_chars, strip_prefixes_chars,
    strip_prefixes_spec,
};

verus! {

pub const ALLANIME_BASE: &'static str = "allanime.day";

pub const ALLANIME_API: &'static str = "https://api.allanime.day";

pub const ALLANIME_REFR: &'static str = "https://allmanga.to";

pub const USER_AGENT: &'static str =
    "Mozilla/5.0 (Windows NT 10.0; Win64; x64; rv:109.0) Gecko/20100101 Firefox/121.0";

/// A show found by a search.
#[derive(Clone, Debug)]
pub struct AnimeResult {
    pub id: String,
    pub name: String,
    pub episodes: Option<i64>,
}

pub struct AnimeResultView {
    pub id: Seq<char>,
    pub name: Seq<char>,
    pub episodes: Option<i64>,
}

impl View for AnimeResult {
    type V = AnimeResultView;

    open spec fn view(&self) -> AnimeResultView {
        AnimeResultView { id: self.id@, name: self.name@, episodes: self.episodes }
    }
}

/// A playable link of an episode.
#[derive(Clone, Debug)]
pub struct EpisodeLink {
    pub quality: Option<u32>,
    pub url: String,
    pub referer: Option<String>,
    pub is_m3u8: bool,
}

pub struct EpisodeLinkView {
    pub quality: Option<u32>,
    pub url: Seq<char>,
    pub referer: Option<Seq<char>>,
    pub is_m3u8: bool,
}

pub open spec fn opt_string_view(s: Option<String>) -> Option<Seq<char>> {
    match s {
        Some(t) => Some(t@),
        None => None,
    }
}

impl View for EpisodeLink {
    type V = EpisodeLinkView;

    open spec fn view(&self) -> EpisodeLinkView {
        EpisodeLinkView {
            quality: self.quality,
            url: self.url@,
            referer: opt_string_view(self.referer),
            is_m3u8: self.is_m3u8,
        }
    }
}

pub open spec fn results_view(v: Seq<AnimeResult>) -> Seq<AnimeResultView> {
    v.map_values(|r: AnimeResult| r@)
}

pub open spec fn links_view(v: Seq<EpisodeLink>) -> Seq<EpisodeLinkView> {
    v.map_values(|l: EpisodeLink| l@)
}

pub open spec fn strings_view(v: Seq<String>) -> Seq<Seq<char>> {
    v.map_values(|s: String| s@)
}

/// A copy of a link.
pub fn copy_link(l: &EpisodeLink) -> (r: EpisodeLink)
    ensures
        r@ == l@,
{
    EpisodeLink {
        quality: l.quality,
        url: copy_string(&l.url),
        referer: match &l.referer {
            Some(s) => Some(copy_string(s)),
            None => None,
        },
        is_m3u8: l.is_m3u8,
    }
}

// ---------------------------------------------------------------- search

/// The edges of a search answer: `data.shows.edges`, or none.
pub open spec fn search_edges(json: JsonValue) -> Seq<JsonValue> {
    array_or_empty(opt_get(opt_get(get_spec(json, "data"@), "shows"@), "edges"@))
}

/// The show that an edge describes, its episode count read for `mode`.
pub open spec fn edge_result(edge: JsonValue, mode: Seq<char>) -> AnimeResultView {
    AnimeResultView {
        id: str_or_empty(get_spec(edge, "_id"@)),
        name: str_or_empty(get_spec(edge, "name"@)),
        episodes: opt_i64(opt_get(get_spec(edge, "availableEpisodes"@), mode)),
    }
}

/// The shows of `edges`, in order, each with a non-empty id and name.
pub open spec fn search_results_spec(edges: Seq<JsonValue>, mode: Seq<char>) -> Seq<AnimeResultView>
    decreases edges.len(),
{
    if edges.len() == 0 {
        Seq::empty()
    } else {
        let prev = search_results_spec(edges.drop_last(), mode);
        let r = edge_result(edges.last(), mode);
        if r.id.len() > 0 && r.name.len() > 0 {
            prev.push(r)
        } else {
            prev
        }
    }
}

fn opt_ref_get<'a>(v: Option<&'a JsonValue>, key: &str) -> (r: Option<&'a JsonValue>)
    ensures
        match r {
            Some(x) => opt_get(
                match v {
                    Some(y) => Some(*y),
                    None => None,
                },
                key@,
            ) == Some(*x),
            None => opt_get(
                match v {
                    Some(y) => Some(*y),
                    None => None,
                },
                key@,
            ) is None,
        },
{
    match v {
        Some(x) => x.get(key),
        None => None,
    }
}

fn empty_items() -> (r: Vec<JsonValue>)
    ensures
        r@ == Seq::<JsonValue>::empty(),
{
    Vec::new()
}

/// The shows that a search answer lists for the translation `mode`.
pub fn parse_search_results(json: &JsonValue, mode: &str) -> (r: Vec<AnimeResult>)
    ensures
        results_view(r@) == search_results_spec(search_edges(*json), mode@),
{
    let edges_value = opt_ref_get(opt_ref_get(json.get("data"), "shows"), "edges");
    let empty = empty_items();
    let edges: &Vec<JsonValue> = match edges_value {
        Some(JsonValue::Array(items)) => items,
        _ => &empty,
    };
    assert(edges@ == search_edges(*json));
    let mut results: Vec<AnimeResult> = Vec::new();
    let n = edges.len();
    for i in 0..n
        invariant
            n == edges.len(),
            results_view(results@) == search_results_spec(edges@.take(i as int), mode@),
    {
        let edge = &edges[i];
        let id = str_or_empty_of(edge.get("_id"));
        let name = str_or_empty_of(edge.get("name"));
        let episodes = match opt_ref_get(edge.get("availableEpisodes"), mode) {
            Some(v) => v.as_i64(),
            None => None,
        };
        assert(edges@.take(i + 1).drop_last() =~= edges@.take(i as int));
        if !id.as_str().is_empty() && !name.as_str().is_empty() {
            results.push(AnimeResult { id, name, episodes });
        }
        assert(results_view(results@) =~= search_results_spec(edges@.take(i + 1), mode@));
    }
    assert(edges@.take(n as int) =~= edges@);
    results
}

// ---------------------------------------------------------------- episodes

/// The episode entries of a show answer:
/// `data.show.availableEpisodesDetail[mode]`, or none.
pub open spec fn episode_items(json: JsonValue, mode: Seq<char>) -> Seq<JsonValue> {
    array_or_empty(
        opt_get(opt_get(opt_get(get_spec(json, "data"@), "show"@), "availableEpisodesDetail"@), mode),
    )
}

/// The label of an episode entry: a string's text or a number's text.
pub open spec fn episode_label(v: JsonValue) -> Option<Seq<char>> {
    match v {
        JsonValue::String(s) => Some(s@),
        JsonValue::Number(n) => Some(n.text@),
        _ => None,
    }
}

/// The labels of the entries of `items` that have one, in order.
pub open spec fn episode_labels_spec(items: Seq<JsonValue>) -> Seq<Seq<char>>
    decreases items.len(),
{
    if items.len() == 0 {
        Seq::empty()
    } else {
        let prev = episode_labels_spec(items.drop_last());
        match episode_label(items.last()) {
            Some(l) => prev.push(l),
            None => prev,
        }
    }
}

/// The episode labels that a show answer lists for the translation `mode`,
/// in the order of the answer.
pub fn parse_episode_labels(json: &JsonValue, mode: &str) -> (r: Vec<String>)
    ensures
        strings_view(r@) == episode_labels_spec(episode_items(*json, mode@)),
{
    let value = opt_ref_get(opt_ref_get(opt_ref_get(json.get("data"), "show"), "availableEpisodesDetail"), mode);
    let empty = empty_items();
    let items: &Vec<JsonValue> = match value {
        Some(JsonValue::Array(items)) => items,
        _ => &empty,
    };
    assert(items@ == episode_items(*json, mode@));
    let mut labels: Vec<String> = Vec::new();
    let n = items.len();
    for i in 0..n
        invariant
            n == items.len(),
            strings_view(labels@) == episode_labels_spec(items@.take(i as int)),
    {
        assert(items@.take(i + 1).drop_last() =~= items@.take(i as int));
        match &items[i] {
            JsonValue::String(s) => labels.push(copy_string(s)),
            JsonValue::Number(num) => labels.push(copy_string(&num.text)),
            _ => {},
        }
        assert(strings_view(labels@) =~= episode_labels_spec(items@.take(i + 1)));
    }
    assert(items@.take(n as int) =~= items@);
    labels
}

// ---------------------------------------------------------------- sources

/// The sources of an episode answer: `data.episode.sourceUrls`, or none.
pub open spec fn source_items(json: JsonValue) -> Seq<JsonValue> {
    array_or_empty(opt_get(opt_get(get_spec(json, "data"@), "episode"@), "sourceUrls"@))
}

/// `"--"`, what an encoded source URL may start with, any number of times.
pub open spec fn dash_dash() -> Seq<char> {
    seq!['-', '-']
}

/// A source's name and the provider path that its URL decodes to.
pub open spec fn source_decoded(src: JsonValue) -> (Seq<char>, Seq<char>) {
    (
        str_or_empty(get_spec(src, "sourceName"@)),
        decode_provider_spec(strip_prefixes_spec(str_or_empty(get_spec(src, "sourceUrl"@)), dash_dash())),
    )
}

/// The decoded sources of `items` whose path is not empty, in order.
pub open spec fn decoded_sources_spec(items: Seq<JsonValue>) -> Seq<(Seq<char>, Seq<char>)>
    decreases items.len(),
{
    if items.len() == 0 {
        Seq::empty()
    } else {
        let prev = decoded_sources_spec(items.drop_last());
        let d = source_decoded(items.last());
        if d.1.len() > 0 {
            prev.push(d)
        } else {
            prev
        }
    }
}

pub open spec fn pairs_view(v: Seq<(String, String)>) -> Seq<(Seq<char>, Seq<char>)> {
    v.map_values(|p: (String, String)| (p.0@, p.1@))
}

/// The name of each source of an episode answer and the provider path that
/// its URL decodes to, for the sources whose path is not empty.
pub fn decode_sources(json: &JsonValue) -> (r: Vec<(String, String)>)
    ensures
        pairs_view(r@) == decoded_sources_spec(source_items(*json)),
{
    let value = opt_ref_get(opt_ref_get(json.get("data"), "episode"), "sourceUrls");
    let empty = empty_items();
    let items: &Vec<JsonValue> = match value {
        Some(JsonValue::Array(items)) => items,
        _ => &empty,
    };
    assert(items@ == source_items(*json));
    let dashes = vec!['-', '-'];
    assert(dashes@ =~= dash_dash());
    let mut decoded: Vec<(String, String)> = Vec::new();
    let n = items.len();
    for i in 0..n
        invariant
            n == items.len(),
            dashes@ == dash_dash(),
            pairs_view(decoded@) == decoded_sources_spec(items@.take(i as int)),
    {
        let src = &items[i];
        let name = str_or_empty_of(src.get("sourceName"));
        let url = str_or_empty_of(src.get("sourceUrl"));
        let url_chars = chars_of(url.as_str());
        let trimmed = string_from_chars(&strip_prefixes_chars(&url_chars, &dashes));
        let path = decode_provider_id(trimmed.as_str());
        assert(items@.take(i + 1).drop_last() =~= items@.take(i as int));
        if !path.as_str().is_empty() {
            decoded.push((name, path));
        }
        assert(pairs_view(decoded@) =~= decoded_sources_spec(items@.take(i + 1)));
    }
    assert(items@.take(n as int) =~= items@);
    decoded
}

/// The providers to ask, in order of preference.
pub open spec fn provider_order() -> Seq<Seq<char>> {
    seq!["Default"@, "Yt-mp4"@, "S-mp4"@, "Luf-Mp4"@]
}

/// The path of the first source named `name`.
pub open spec fn first_named(sources: Seq<(Seq<char>, Seq<char>)>, name: Seq<char>) -> Option<Seq<char>>
    decreases sources.len(),
{
    if sources.len() == 0 {
        None
    } else if sources[0].0 == name {
        Some(sources[0].1)
    } else {
        first_named(sources.drop_first(), name)
    }
}

/// For each name of `order` that some source bears, the path of the first
/// source of that name, in the order of `order`.
pub open spec fn preferred_ids(sources: Seq<(Seq<char>, Seq<char>)>, order: Seq<Seq<char>>) -> Seq<Seq<char>>
    decreases order.len(),
{
    if order.len() == 0 {
        Seq::empty()
    } else {
        let prev = preferred_ids(sources, order.drop_last());
        match first_named(sources, order.last()) {
            Some(id) => prev.push(id),
            None => prev,
        }
    }
}

/// The paths of all sources, in order.
pub open spec fn all_ids(sources: Seq<(Seq<char>, Seq<char>)>) -> Seq<Seq<char>> {
    sources.map_values(|p: (Seq<char>, Seq<char>)| p.1)
}

/// The provider paths to ask: those of the preferred providers where any is
/// present, else every path.
pub open spec fn provider_ids_spec(sources: Seq<(Seq<char>, Seq<char>)>) -> Seq<Seq<char>> {
    let preferred = preferred_ids(sources, provider_order());
    if preferred.len() > 0 {
        preferred
    } else {
        all_ids(sources)
    }
}

fn provider_name(k: usize) -> (s: String)
    requires
        k < 4,
    ensures
        s@ == provider_order()[k as int],
{
    if k == 0 {
        "Default".to_owned()
    } else if k == 1 {
        "Yt-mp4".to_owned()
    } else if k == 2 {
        "S-mp4".to_owned()
    } else {
        "Luf-Mp4".to_owned()
    }
}

fn find_first_named(sources: &Vec<(String, String)>, name: &String) -> (r: Option<String>)
    ensures
        opt_string_view(r) == first_named(pairs_view(sources@), name@),
{
    let n = sources.len();
    let mut i: usize = 0;
    assert(pairs_view(sources@).skip(0) =~= pairs_view(sources@));
    while i < n
        invariant
            n == sources.len(),
            i <= n,
            first_named(pairs_view(sources@), name@) == first_named(
                pairs_view(sources@).skip(i as int),
                name@,
            ),
        decreases n - i,
    {
        assert(pairs_view(sources@).skip(i as int).drop_first() =~= pairs_view(sources@).skip(
            i + 1,
        ));
        if sources[i].0 == *name {
            return Some(copy_string(&sources[i].1));
        }
        i = i + 1;
    }
    None
}

/// The provider paths to ask for the decoded `sources`: the first path of
/// each preferred provider present, in order of preference, or else every
/// path.
pub fn select_provider_ids(sources: &Vec<(String, String)>) -> (r: Vec<String>)
    ensures
        strings_view(r@) == provider_ids_spec(pairs_view(sources@)),
{
    let mut ids: Vec<String> = Vec::new();
    for k in 0..4
        invariant
            strings_view(ids@) == preferred_ids(pairs_view(sources@), provider_order().take(k as int)),
    {
        let name = provider_name(k);
        assert(provider_order().take(k + 1).drop_last() =~= provider_order().take(k as int));
        match find_first_named(sources, &name) {
            Some(id) => ids.push(id),
            None => {},
        }
        assert(strings_view(ids@) =~= preferred_ids(pairs_view(sources@), provider_order().take(k + 1)));
    }
    assert(provider_order().take(4) =~= provider_order());
    if ids.len() > 0 {
        return ids;
    }
    let mut all: Vec<String> = Vec::new();
    let n = sources.len();
    for i in 0..n
        invariant
            n == sources.len(),
            strings_view(all@) =~= all_ids(pairs_view(sources@)).take(i as int),
    {
        let ghost before = all@;
        all.push(copy_string(&sources[i].1));
        assert(strings_view(all@) =~= strings_view(before).push(sources@[i as int].1@));
        assert(all_ids(pairs_view(sources@)).take(i + 1) =~= all_ids(pairs_view(sources@)).take(
            i as int,
        ).push(sources@[i as int].1@));
    }
    assert(all_ids(pairs_view(sources@)).take(n as int) =~= all_ids(pairs_view(sources@)));
    all
}

/// The provider paths to ask for an episode answer, or `NoProviderLinks`
/// when no source decodes to a path.
pub fn provider_ids_for_episode(json: &JsonValue) -> (r: Result<Vec<String>, ScrapeError>)
    ensures
        match r {
            Ok(ids) => decoded_sources_spec(source_items(*json)).len() > 0 && strings_view(ids@)
                == provider_ids_spec(decoded_sources_spec(source_items(*json))),
            Err(e) => decoded_sources_spec(source_items(*json)).len() == 0 && e
                == ScrapeError::NoProviderLinks,
        },
{
    let sources = decode_sources(json);
    if sources.len() == 0 {
        return Err(ScrapeError::NoProviderLinks);
    }
    Ok(select_provider_ids(&sources))
}

// ---------------------------------------------------------------- links

/// What a scan of a provider answer has gathered: the links found, and the
/// last master playlist URL and referer seen.
pub struct LinkScan {
    pub links: Seq<EpisodeLinkView>,
    pub m3u8_url: Option<Seq<char>>,
    pub referer: Option<Seq<char>>,
}

/// `".m3u8"`.
pub open spec fn m3u8_seq() -> Seq<char> {
    seq!['.', 'm', '3', 'u', '8']
}

/// `"master.m3u8"`.
pub open spec fn master_m3u8_seq() -> Seq<char> {
    seq!['m', 'a', 's', 't', 'e', 'r', '.', 'm', '3', 'u', '8']
}

/// The quality that a resolution text gives: its ASCII digits read as a
/// `u32`, if they are any and the number fits.
pub open spec fn quality_of(res: Seq<char>) -> Option<u32> {
    match parse_unsigned_spec(ascii_digits_of(res), u32::MAX as nat) {
        Some(v) => Some(v as u32),
        None => None,
    }
}

/// The link that an object's `link` and resolution texts describe.
pub open spec fn link_of(link: Seq<char>, res: Seq<char>) -> EpisodeLinkView {
    EpisodeLinkView {
        quality: quality_of(res),
        url: link,
        referer: None,
        is_m3u8: contains_spec(link, m3u8_seq()),
    }
}

/// What an object's own members add to a scan, before its values are
/// scanned: its link, its referer, its master playlist URL.
pub open spec fn scan_object_fields(entries: Seq<(String, JsonValue)>, st: LinkScan) -> LinkScan {
    let st1 = match (
        opt_str(entry_get(entries, "link"@)),
        opt_str(entry_get(entries, "resolutionStr"@)),
    ) {
        (Some(link), Some(res)) => LinkScan {
            links: st.links.push(link_of(link, res)),
            m3u8_url: st.m3u8_url,
            referer: st.referer,
        },
        _ => st,
    };
    let st2 = match opt_str(entry_get(entries, "Referer"@)) {
        Some(r) => LinkScan { links: st1.links, m3u8_url: st1.m3u8_url, referer: Some(r) },
        None => st1,
    };
    match opt_str(entry_get(entries, "url"@)) {
        Some(u) => if contains_spec(u, master_m3u8_seq()) {
            LinkScan { links: st2.links, m3u8_url: Some(u), referer: st2.referer }
        } else {
            st2
        },
        None => st2,
    }
}

/// The scan of `v` continuing `st`, depth first, members and items in order.
pub open spec fn scan_value(v: JsonValue, st: LinkScan) -> LinkScan
    decreases v,
{
    match v {
        JsonValue::Object(entries) => scan_entries(entries@, scan_object_fields(entries@, st)),
        JsonValue::Array(items) => scan_items(items@, st),
        JsonValue::String(s) => if contains_spec(s@, master_m3u8_seq()) {
            LinkScan { links: st.links, m3u8_url: Some(s@), referer: st.referer }
        } else {
            st
        },
        _ => st,
    }
}

/// The scan of the items of an array, in order.
pub open spec fn scan_items(items: Seq<JsonValue>, st: LinkScan) -> LinkScan
    decreases items,
{
    if items.len() == 0 {
        st
    } else {
        scan_value(items.last(), scan_items(items.drop_last(), st))
    }
}

/// The scan of the values of an object's members, in order.
pub open spec fn scan_entries(entries: Seq<(String, JsonValue)>, st: LinkScan) -> LinkScan
    decreases entries,
{
    if entries.len() == 0 {
        st
    } else {
        scan_value(entries.last().1, scan_entries(entries.drop_last(), st))
    }
}

pub open spec fn scan_of(links: Vec<EpisodeLink>, url: Option<String>, referer: Option<String>) -> LinkScan {
    LinkScan {
        links: links_view(links@),
        m3u8_url: opt_string_view(url),
        referer: opt_string_view(referer),
    }
}

/// The quality that a resolution text gives.
pub fn quality_from_resolution(res: &String) -> (q: Option<u32>)
    ensures
        q == quality_of(res@),
{
    let chars = chars_of(res.as_str());
    let digits = ascii_digits_chars(&chars);
    match parse_unsigned_chars(&digits, u32::MAX as u64) {
        Some(v) => Some(v as u32),
        None => None,
    }
}

fn master_m3u8_chars() -> (v: Vec<char>)
    ensures
        v@ == master_m3u8_seq(),
{
    let v = vec!['m', 'a', 's', 't', 'e', 'r', '.', 'm', '3', 'u', '8'];
    assert(v@ =~= master_m3u8_seq());
    v
}

fn m3u8_chars() -> (v: Vec<char>)
    ensures
        v@ == m3u8_seq(),
{
    let v = vec!['.', 'm', '3', 'u', '8'];
    assert(v@ =~= m3u8_seq());
    v
}

fn str_of<'a>(v: Option<&'a JsonValue>) -> (r: Option<&'a String>)
    ensures
        opt_string_view(
            match r {
                Some(s) => Some(*s),
                None => None,
            },
        ) == opt_str(
            match v {
                Some(x) => Some(*x),
                None => None,
            },
        ),
{
    match v {
        Some(JsonValue::String(s)) => Some(s),
        _ => None,
    }
}

fn scan_object_fields_exec(
    entries: &Vec<(String, JsonValue)>,
    links: &mut Vec<EpisodeLink>,
    m3u8_url: &mut Option<String>,
    m3u8_referer: &mut Option<String>,
)
    ensures
        scan_of(*final(links), *final(m3u8_url), *final(m3u8_referer)) == scan_object_fields(
            entries@,
            scan_of(*old(links), *old(m3u8_url), *old(m3u8_referer)),
        ),
{
    match (str_of(entries_get(entries, "link")), str_of(entries_get(entries, "resolutionStr"))) {
        (Some(link), Some(res)) => {
            let quality = quality_from_resolution(res);
            let link_chars = chars_of(link.as_str());
            let is_m3u8 = contains_chars(&link_chars, &m3u8_chars());
            let ghost before = links@;
            links.push(EpisodeLink { quality, url: copy_string(link), referer: None, is_m3u8 });
            assert(links_view(links@) =~= links_view(before).push(link_of(link@, res@)));
        },
        _ => {},
    }
    match str_of(entries_get(entries, "Referer")) {
        Some(r) => {
            *m3u8_referer = Some(copy_string(r));
        },
        None => {},
    }
    match str_of(entries_get(entries, "url")) {
        Some(u) => {
            let u_chars = chars_of(u.as_str());
            if contains_chars(&u_chars, &master_m3u8_chars()) {
                *m3u8_url = Some(copy_string(u));
            }
        },
        None => {},
    }
}

/// Scans `value` depth first for playable links: each object with string
/// members `link` and `resolutionStr` adds a link, a string `Referer`
/// member sets the referer, and a string `url` member or string value that
/// holds `master.m3u8` sets the master playlist URL.
pub fn collect_links(
    value: &JsonValue,
    links: &mut Vec<EpisodeLink>,
    m3u8_url: &mut Option<String>,
    m3u8_referer: &mut Option<String>,
)
    ensures
        scan_of(*final(links), *final(m3u8_url), *final(m3u8_referer)) == scan_value(
            *value,
            scan_of(*old(links), *old(m3u8_url), *old(m3u8_referer)),
        ),
    decreases value,
{
    match value {
        JsonValue::Object(entries) => {
            scan_object_fields_exec(entries, links, m3u8_url, m3u8_referer);
            let ghost start = scan_of(*links, *m3u8_url, *m3u8_referer);
            let n = entries.len();
            for i in 0..n
                invariant
                    n == entries.len(),
                    *value == JsonValue::Object(*entries),
                    scan_of(*links, *m3u8_url, *m3u8_referer) == scan_entries(
                        entries@.take(i as int),
                        start,
                    ),
            {
                assert(entries@.take(i + 1).drop_last() =~= entries@.take(i as int));
                assert(decreases_to!(*value => (*value)->Object_0));
                assert(decreases_to!(*entries => entries@));
                assert(decreases_to!(entries@ => entries@[i as int]));
                assert(decreases_to!(entries@[i as int] => entries@[i as int].1));
                collect_links(&entries[i].1, links, m3u8_url, m3u8_referer);
            }
            assert(entries@.take(n as int) =~= entries@);
        },
        JsonValue::Array(items) => {
            let ghost start = scan_of(*links, *m3u8_url, *m3u8_referer);
            let n = items.len();
            for i in 0..n
                invariant
                    n == items.len(),
                    *value == JsonValue::Array(*items),
                    scan_of(*links, *m3u8_url, *m3u8_referer) == scan_items(
                        items@.take(i as int),
                        start,
                    ),
            {
                assert(items@.take(i + 1).drop_last() =~= items@.take(i as int));
                assert(decreases_to!(*value => (*value)->Array_0));
                assert(decreases_to!(*items => items@));
                assert(decreases_to!(items@ => items@[i as int]));
                collect_links(&items[i], links, m3u8_url, m3u8_referer);
            }
            assert(items@.take(n as int) =~= items@);
        },
        JsonValue::String(s) => {
            let s_chars = chars_of(s.as_str());
            if contains_chars(&s_chars, &master_m3u8_chars()) {
                *m3u8_url = Some(copy_string(s));
            }
        },
        _ => {},
    }
}

/// The empty scan.
pub open spec fn empty_scan() -> LinkScan {
    LinkScan { links: Seq::empty(), m3u8_url: None, referer: None }
}

/// The document that a provider answered: its parsed JSON, or, where the
/// text is no JSON, the text itself as a string.
pub open spec fn provider_document(text: String, parsed: Option<JsonValue>) -> JsonValue {
    match parsed {
        Some(j) => j,
        None => JsonValue::String(text),
    }
}

/// The links of a provider answer: the links found by the scan, then, where
/// a master playlist was seen, that playlist with the last referer seen or
/// else the site's own address.
pub open spec fn provider_links_spec(doc: JsonValue) -> Seq<EpisodeLinkView> {
    let scan = scan_value(doc, empty_scan());
    match scan.m3u8_url {
        Some(url) => scan.links.push(
            EpisodeLinkView {
                quality: None,
                url,
                referer: Some(
                    match scan.referer {
                        Some(r) => r,
                        None => ALLANIME_REFR@,
                    },
                ),
                is_m3u8: true,
            },
        ),
        None => scan.links,
    }
}

/// The links that a provider's answer offers. `parsed` is the answer's text
/// read as JSON, where it is JSON.
pub fn provider_links(text: String, parsed: Option<JsonValue>) -> (r: Vec<EpisodeLink>)
    ensures
        links_view(r@) == provider_links_spec(provider_document(text, parsed)),
{
    let doc = match parsed {
        Some(j) => j,
        None => JsonValue::String(text),
    };
    let mut links: Vec<EpisodeLink> = Vec::new();
    let mut m3u8_url: Option<String> = None;
    let mut m3u8_referer: Option<String> = None;
    assert(links_view(links@) =~= Seq::<EpisodeLinkView>::empty());
    assert(scan_of(links, m3u8_url, m3u8_referer) == empty_scan());
    collect_links(&doc, &mut links, &mut m3u8_url, &mut m3u8_referer);
    match m3u8_url {
        Some(url) => {
            let referer = match m3u8_referer {
                Some(r) => r,
                None => ALLANIME_REFR.to_owned(),
            };
            let ghost before = links@;
            links.push(EpisodeLink { quality: None, url, referer: Some(referer), is_m3u8: true });
            assert(links_view(links@) =~= links_view(before).push(links@.last()@));
        },
        None => {},
    }
    links
}

/// The links that a provider's answer text offers.
pub fn provider_links_of_text(text: String) -> (r: Vec<EpisodeLink>)
    ensures
        links_view(r@) == provider_links_spec(provider_document(text, json_of_text(text@))),
{
    let parsed = parse_json_text(text.as_str());
    provider_links(text, parsed)
}

/// The links of several providers, one after the other.
pub open spec fn concat_links(groups: Seq<Vec<EpisodeLink>>) -> Seq<EpisodeLinkView>
    decreases groups.len(),
{
    if groups.len() == 0 {
        Seq::empty()
    } else {
        concat_links(groups.drop_last()) + links_view(groups.last()@)
    }
}

/// The links that the providers returned, in order, or `NoPlayableLinks`
/// when there is none.
pub fn gather_episode_links(fetched: Vec<Vec<EpisodeLink>>) -> (r: Result<Vec<EpisodeLink>, ScrapeError>)
    ensures
        match r {
            Ok(links) => concat_links(fetched@).len() > 0 && links_view(links@) == concat_links(
                fetched@,
            ),
            Err(e) => concat_links(fetched@).len() == 0 && e == ScrapeError::NoPlayableLinks,
        },
{
    let mut all: Vec<EpisodeLink> = Vec::new();
    let n = fetched.len();
    for i in 0..n
        invariant
            n == fetched.len(),
            links_view(all@) == concat_links(fetched@.take(i as int)),
    {
        assert(fetched@.take(i + 1).drop_last() =~= fetched@.take(i as int));
        let group = &fetched[i];
        let m = group.len();
        let ghost before = all@;
        for j in 0..m
            invariant
                m == group.len(),
                links_view(all@) =~= links_view(before) + links_view(group@.take(j as int)),
        {
            let ghost prev = all@;
            all.push(copy_link(&group[j]));
            assert(links_view(all@) =~= links_view(prev).push(group@[j as int]@));
            assert(links_view(group@.take(j + 1)) =~= links_view(group@.take(j as int)).push(
                group@[j as int]@,
            ));
        }
        assert(group@.take(m as int) =~= group@);
    }
    assert(fetched@.take(n as int) =~= fetched@);
    if all.len() == 0 {
        return Err(ScrapeError::NoPlayableLinks);
    }
    Ok(all)
}

/// The address at which the provider with path `provider_id` answers.
pub fn provider_url(provider_id: &str) -> (r: String)
    ensures
        r@ == "https://"@ + ALLANIME_BASE@ + provider_id@,
{
    let mut url = "https://".to_owned();
    url.append(ALLANIME_BASE);
    url.append(provider_id);
    url
}

// ---------------------------------------------------------------- requests

/// The GraphQL query that searches shows.
pub const SEARCH_QUERY: &'static str = "query( $search: SearchInput $limit: Int $page: Int $translationType: VaildTranslationTypeEnumType $countryOrigin: VaildCountryOriginEnumType ) { shows( search: $search limit: $limit page: $page translationType: $translationType countryOrigin: $countryOrigin ) { edges { _id name availableEpisodes __typename } }}";

/// The GraphQL query that lists the episodes of a show.
pub const EPISODES_QUERY: &'static str = "query ($showId: String!) { show( _id: $showId ) { _id availableEpisodesDetail }}";

/// The GraphQL query that lists the sources of an episode.
pub const EPISODE_QUERY: &'static str = "query ($showId: String!, $translationType: VaildTranslationTypeEnumType!, $episodeString: String!) { episode( showId: $showId translationType: $translationType episodeString: $episodeString ) { episodeString sourceUrls }}";

/// Whether `v` is an object with `n` members.
pub open spec fn object_of_size(v: JsonValue, n: nat) -> bool {
    v is Object && v->Object_0@.len() == n
}

/// `n` written in decimal, with a leading `-` where it is negative.
pub open spec fn signed_decimal(n: int) -> Seq<char> {
    if n < 0 {
        seq!['-'] + decimal((-n) as nat)
    } else {
        decimal(n as nat)
    }
}

/// Whether `v` is the number `n`, written in decimal.
pub open spec fn is_int(v: Option<JsonValue>, n: i64) -> bool {
    match v {
        Some(JsonValue::Number(num)) => num.int == Some(n) && num.text@ == signed_decimal(n as int),
        _ => false,
    }
}

/// A string value.
pub fn json_string(s: &str) -> (v: JsonValue)
    ensures
        v == JsonValue::String(v->String_0),
        v->String_0@ == s@,
{
    JsonValue::String(s.to_owned())
}

/// An integer value.
pub fn json_int(n: i64) -> (v: JsonValue)
    ensures
        is_int(Some(v), n),
{
    let magnitude: u64 = if n < 0 {
        (0i128 - n as i128) as u64
    } else {
        n as u64
    };
    let digits = decimal_chars(magnitude);
    let mut chars: Vec<char> = Vec::new();
    if n < 0 {
        chars.push('-');
    }
    let m = digits.len();
    let ghost start = chars@;
    for i in 0..m
        invariant
            m == digits.len(),
            chars@ =~= start + digits@.take(i as int),
    {
        chars.push(digits[i]);
    }
    assert(digits@.take(m as int) =~= digits@);
    assert(chars@ =~= signed_decimal(n as int));
    let text = string_from_chars(&chars);
    JsonValue::Number(JsonNumber { text, int: Some(n) })
}

proof fn lemma_entry_get_at(entries: Seq<(String, JsonValue)>, i: int, key: Seq<char>)
    requires
        0 <= i < entries.len(),
        entries[i].0@ == key,
        forall|j: int| 0 <= j < i ==> (#[trigger] entries[j]).0@ != key,
    ensures
        entry_get(entries, key) == Some(entries[i].1),
    decreases i,
{
    if i > 0 {
        lemma_entry_get_at(entries.drop_first(), i - 1, key);
    }
}

fn entry(key: &str, value: JsonValue) -> (e: (String, JsonValue))
    ensures
        e.0@ == key@,
        e.1 == value,
{
    (key.to_owned(), value)
}

/// The variables of a search for `query` among shows translated as `mode`:
/// adult and unknown shows excluded, forty results, first page, any country.
pub fn search_variables(query: &str, mode: &str) -> (v: JsonValue)
    ensures
        object_of_size(v, 5),
        object_of_size(get_spec(v, "search"@)->0, 3),
        get_spec(get_spec(v, "search"@)->0, "allowAdult"@) == Some(JsonValue::Bool(false)),
        get_spec(get_spec(v, "search"@)->0, "allowUnknown"@) == Some(JsonValue::Bool(false)),
        opt_str(get_spec(get_spec(v, "search"@)->0, "query"@)) == Some(query@),
        is_int(get_spec(v, "limit"@), 40),
        is_int(get_spec(v, "page"@), 1),
        opt_str(get_spec(v, "translationType"@)) == Some(mode@),
        opt_str(get_spec(v, "countryOrigin"@)) == Some("ALL"@),
{
    let search = JsonValue::Object(
        vec![
            entry("allowAdult", JsonValue::Bool(false)),
            entry("allowUnknown", JsonValue::Bool(false)),
            entry("query", json_string(query)),
        ],
    );
    let v = JsonValue::Object(
        vec![
            entry("search", search),
            entry("limit", json_int(40)),
            entry("page", json_int(1)),
            entry("translationType", json_string(mode)),
            entry("countryOrigin", json_string("ALL")),
        ],
    );
    proof {
        reveal_strlit("search");
        assert("search"@.len() == 6);
        reveal_strlit("limit");
        assert("limit"@.len() == 5);
        reveal_strlit("page");
        assert("page"@.len() == 4);
        reveal_strlit("translationType");
        assert("translationType"@.len() == 15);
        reveal_strlit("countryOrigin");
        assert("countryOrigin"@.len() == 13);
        reveal_strlit("allowAdult");
        assert("allowAdult"@.len() == 10);
        reveal_strlit("allowUnknown");
        assert("allowUnknown"@.len() == 12);
        reveal_strlit("query");
        assert("query"@.len() == 5);
        let inner = search->Object_0@;
        lemma_entry_get_at(inner, 0, "allowAdult"@);
        lemma_entry_get_at(inner, 1, "allowUnknown"@);
        lemma_entry_get_at(inner, 2, "query"@);
        let outer = v->Object_0@;
        lemma_entry_get_at(outer, 0, "search"@);
        lemma_entry_get_at(outer, 1, "limit"@);
        lemma_entry_get_at(outer, 2, "page"@);
        lemma_entry_get_at(outer, 3, "translationType"@);
        lemma_entry_get_at(outer, 4, "countryOrigin"@);
    }
    v
}

/// The variables that ask for the episodes of the show `show_id`.
pub fn episodes_variables(show_id: &str) -> (v: JsonValue)
    ensures
        object_of_size(v, 1),
        opt_str(get_spec(v, "showId"@)) == Some(show_id@),
{
    JsonValue::Object(vec![entry("showId", json_string(show_id))])
}

/// The variables that ask for the sources of `episode` of the show
/// `show_id` translated as `mode`.
pub fn episode_variables(show_id: &str, mode: &str, episode: &str) -> (v: JsonValue)
    ensures
        object_of_size(v, 3),
        opt_str(get_spec(v, "showId"@)) == Some(show_id@),
        opt_str(get_spec(v, "translationType"@)) == Some(mode@),
        opt_str(get_spec(v, "episodeString"@)) == Some(episode@),
{
    let v = JsonValue::Object(
        vec![
            entry("showId", json_string(show_id)),
            entry("translationType", json_string(mode)),
            entry("episodeString", json_string(episode)),
        ],
    );
    proof {
        reveal_strlit("showId");
        assert("showId"@.len() == 6);
        reveal_strlit("translationType");
        assert("translationType"@.len() == 15);
        reveal_strlit("episodeString");
        assert("episodeString"@.len() == 13);
        let es = v->Object_0@;
        lemma_entry_get_at(es, 0, "showId"@);
        lemma_entry_get_at(es, 1, "translationType"@);
        lemma_entry_get_at(es, 2, "episodeString"@);
    }
    v
}

/// The body of a GraphQL request: its variables and its query.
pub fn graphql_body(query: &str, variables: JsonValue) -> (v: JsonValue)
    ensures
        object_of_size(v, 2),
        get_spec(v, "variables"@) == Some(variables),
        opt_str(get_spec(v, "query"@)) == Some(query@),
{
    let v = JsonValue::Object(vec![entry("variables", variables), entry("query", json_string(query))]);
    proof {
        reveal_strlit("variables");
        assert("variables"@.len() == 9);
        reveal_strlit("query");
        assert("query"@.len() == 5);
        let es = v->Object_0@;
        lemma_entry_get_at(es, 0, "variables"@);
        lemma_entry_get_at(es, 1, "query"@);
    }
    v
}

// ---------------------------------------------------------------- laws

/// Every show that a search yields has a non-empty id and name.
pub proof fn lemma_search_results_named(edges: Seq<JsonValue>, mode: Seq<char>)
    ensures
        forall|i: int|
            0 <= i < search_results_spec(edges, mode).len() ==> (#[trigger] search_results_spec(
                edges,
                mode,
            )[i]).id.len() > 0 && search_results_spec(edges, mode)[i].name.len() > 0,
    decreases edges.len(),
{
    if edges.len() > 0 {
        lemma_search_results_named(edges.drop_last(), mode);
    }
}

/// Whether a search edge has a non-empty string `_id` and a non-empty
/// string `name`.
pub open spec fn is_named_edge(edge: JsonValue) -> bool {
    &&& get_spec(edge, "_id"@) matches Some(JsonValue::String(id)) && id@.len() > 0
    &&& get_spec(edge, "name"@) matches Some(JsonValue::String(name)) && name@.len() > 0
}

/// The edges that name a show, in order.
pub open spec fn named_edges(edges: Seq<JsonValue>) -> Seq<JsonValue> {
    edges.filter(|e: JsonValue| is_named_edge(e))
}

/// Every edge whose `_id` and `name` are non-empty strings yields a show and
/// no other edge does: there are as many shows as such edges, and the k-th
/// show is the one that the k-th such edge describes.
pub proof fn lemma_search_results_every_named_edge(edges: Seq<JsonValue>, mode: Seq<char>)
    ensures
        search_results_spec(edges, mode).len() == named_edges(edges).len(),
        forall|k: int|
            0 <= k < named_edges(edges).len() ==> #[trigger] search_results_spec(edges, mode)[k]
                == edge_result(named_edges(edges)[k], mode),
    decreases edges.len(),
{
    if edges.len() > 0 {
        let prev = edges.drop_last();
        lemma_search_results_every_named_edge(prev, mode);
        assert(edges == prev.push(edges.last()));
        prev.lemma_filter_push(edges.last(), |e: JsonValue| is_named_edge(e));
        let r = edge_result(edges.last(), mode);
        assert(is_named_edge(edges.last()) <==> r.id.len() > 0 && r.name.len() > 0);
        let prev_results = search_results_spec(prev, mode);
        let results = search_results_spec(edges, mode);
        assert forall|k: int| 0 <= k < named_edges(edges).len() implies #[trigger] results[k]
            == edge_result(named_edges(edges)[k], mode) by {
            if k < named_edges(prev).len() {
                assert(results[k] == prev_results[k]);
                assert(named_edges(edges)[k] == named_edges(prev)[k]);
            }
        }
    }
}

/// Whether an episode entry is a string or a number, the entries that name
/// an episode.
pub open spec fn is_label_entry(v: JsonValue) -> bool {
    v is String || v is Number
}

/// The text of a string or number entry.
pub open spec fn entry_text(v: JsonValue) -> Seq<char> {
    match v {
        JsonValue::String(s) => s@,
        JsonValue::Number(n) => n.text@,
        _ => Seq::empty(),
    }
}

/// The entries of an episode list that are strings or numbers, in order.
pub open spec fn label_entries(items: Seq<JsonValue>) -> Seq<JsonValue> {
    items.filter(|v: JsonValue| is_label_entry(v))
}

/// Every string or number entry yields a label and no other entry does:
/// there are as many labels as such entries, and the k-th such entry gives
/// the k-th label, its text.
pub proof fn lemma_episode_labels_every_entry(items: Seq<JsonValue>)
    ensures
        episode_labels_spec(items).len() == label_entries(items).len(),
        forall|k: int|
            0 <= k < label_entries(items).len() ==> #[trigger] episode_labels_spec(items)[k]
                == entry_text(label_entries(items)[k]),
    decreases items.len(),
{
    if items.len() > 0 {
        let prev = items.drop_last();
        lemma_episode_labels_every_entry(prev);
        assert(items == prev.push(items.last()));
        prev.lemma_filter_push(items.last(), |v: JsonValue| is_label_entry(v));
        let labels = episode_labels_spec(items);
        let prev_labels = episode_labels_spec(prev);
        assert forall|k: int| 0 <= k < label_entries(items).len() implies #[trigger] labels[k]
            == entry_text(label_entries(items)[k]) by {
            if k < label_entries(prev).len() {
                assert(labels[k] == prev_labels[k]);
                assert(label_entries(items)[k] == label_entries(prev)[k]);
            }
        }
    }
}

/// Where any source decodes to a path, there is a provider to ask, and
/// every provider asked is one of the decoded paths.
pub proof fn lemma_provider_ids_nonempty(sources: Seq<(Seq<char>, Seq<char>)>)
    requires
        sources.len() > 0,
    ensures
        provider_ids_spec(sources).len() > 0,
        forall|i: int|
            0 <= i < provider_ids_spec(sources).len() ==> all_ids(sources).contains(
                #[trigger] provider_ids_spec(sources)[i],
            ),
{
    lemma_preferred_ids_in_sources(sources, provider_order());
    let ids = provider_ids_spec(sources);
    if preferred_ids(sources, provider_order()).len() == 0 {
        assert forall|i: int| 0 <= i < ids.len() implies all_ids(sources).contains(
            #[trigger] ids[i],
        ) by {
            assert(all_ids(sources)[i] == ids[i]);
        }
    }
}

/// Whether a source's URL decodes to a non-empty provider path.
pub open spec fn decodes_to_path(src: JsonValue) -> bool {
    source_decoded(src).1.len() > 0
}

/// The sources whose URL decodes to a non-empty path, in order.
pub open spec fn path_sources(items: Seq<JsonValue>) -> Seq<JsonValue> {
    items.filter(|src: JsonValue| decodes_to_path(src))
}

/// Every source whose URL decodes to a non-empty path is kept and no other:
/// there are as many decoded sources as such sources, and the k-th decoded
/// source is the name and path of the k-th such source.
pub proof fn lemma_decoded_sources_every_path(items: Seq<JsonValue>)
    ensures
        decoded_sources_spec(items).len() == path_sources(items).len(),
        forall|k: int|
            0 <= k < path_sources(items).len() ==> #[trigger] decoded_sources_spec(items)[k]
                == source_decoded(path_sources(items)[k]),
    decreases items.len(),
{
    if items.len() > 0 {
        let prev = items.drop_last();
        lemma_decoded_sources_every_path(prev);
        assert(items == prev.push(items.last()));
        prev.lemma_filter_push(items.last(), |src: JsonValue| decodes_to_path(src));
        let all = decoded_sources_spec(items);
        let before = decoded_sources_spec(prev);
        assert forall|k: int| 0 <= k < path_sources(items).len() implies #[trigger] all[k]
            == source_decoded(path_sources(items)[k]) by {
            if k < path_sources(prev).len() {
                assert(all[k] == before[k]);
                assert(path_sources(items)[k] == path_sources(prev)[k]);
            }
        }
    }
}

/// The links of several providers run on from one group to the next: those
/// of two runs of groups are the links of the first run then those of the
/// second, and those of one group are its own links.
pub proof fn lemma_concat_links_append(a: Seq<Vec<EpisodeLink>>, b: Seq<Vec<EpisodeLink>>)
    ensures
        concat_links(a + b) == concat_links(a) + concat_links(b),
        forall|g: Vec<EpisodeLink>| #[trigger] concat_links(seq![g]) == links_view(g@),
    decreases b.len(),
{
    assert forall|g: Vec<EpisodeLink>| #[trigger] concat_links(seq![g]) == links_view(g@) by {
        assert(seq![g].drop_last() =~= Seq::<Vec<EpisodeLink>>::empty());
        assert(seq![g].last() == g);
        assert(concat_links(Seq::<Vec<EpisodeLink>>::empty()) == Seq::<EpisodeLinkView>::empty());
        assert(Seq::<EpisodeLinkView>::empty() + links_view(g@) =~= links_view(g@));
    }
    if b.len() == 0 {
        assert(a + b =~= a);
        assert(concat_links(a) + concat_links(b) =~= concat_links(a));
    } else {
        lemma_concat_links_append(a, b.drop_last());
        assert((a + b).drop_last() =~= a + b.drop_last());
        assert((a + b).last() == b.last());
        assert(concat_links(a + b) =~= concat_links(a) + concat_links(b));
    }
}

/// Whether some source bears the name `name`.
pub open spec fn name_present(sources: Seq<(Seq<char>, Seq<char>)>, name: Seq<char>) -> bool {
    exists|i: int| 0 <= i < sources.len() && (#[trigger] sources[i]).0 == name
}

/// The test whether some source of `sources` bears a name.
pub open spec fn named_in(sources: Seq<(Seq<char>, Seq<char>)>) -> spec_fn(Seq<char>) -> bool {
    |n: Seq<char>| name_present(sources, n)
}

/// Whether `sources[i]` is the first source named `name`.
pub open spec fn first_of_name(sources: Seq<(Seq<char>, Seq<char>)>, name: Seq<char>, i: int) -> bool {
    &&& 0 <= i < sources.len()
    &&& sources[i].0 == name
    &&& forall|j: int| 0 <= j < i ==> (#[trigger] sources[j]).0 != name
}

/// Whether `path` is the path of the first source named `name`.
pub open spec fn is_first_path(sources: Seq<(Seq<char>, Seq<char>)>, name: Seq<char>, path: Seq<char>) -> bool {
    exists|i: int| first_of_name(sources, name, i) && sources[i].1 == path
}

/// The preferred provider names that some source bears, in order of
/// preference.
pub open spec fn present_preferred(sources: Seq<(Seq<char>, Seq<char>)>) -> Seq<Seq<char>> {
    provider_order().filter(named_in(sources))
}

/// Where some source bears a preferred provider name, the providers asked
/// are exactly, in order of preference, the path of the first source of
/// each preferred name present; else they are the paths of all sources, in
/// order.
pub proof fn lemma_provider_ids_choice(sources: Seq<(Seq<char>, Seq<char>)>)
    ensures
        (exists|i: int| 0 <= i < sources.len() && provider_order().contains(#[trigger] sources[i].0)) ==> {
            &&& provider_ids_spec(sources).len() == present_preferred(sources).len()
            &&& forall|k: int|
                0 <= k < present_preferred(sources).len() ==> is_first_path(
                    sources,
                    present_preferred(sources)[k],
                    #[trigger] provider_ids_spec(sources)[k],
                )
        },
        !(exists|i: int| 0 <= i < sources.len() && provider_order().contains(#[trigger] sources[i].0)) ==> {
            &&& provider_ids_spec(sources).len() == sources.len()
            &&& forall|k: int| 0 <= k < sources.len() ==> #[trigger] provider_ids_spec(sources)[k] == sources[k].1
        },
{
    lemma_preferred_ids_present(sources, provider_order());
    let pres = present_preferred(sources);
    if exists|i: int| 0 <= i < sources.len() && provider_order().contains(#[trigger] sources[i].0) {
        let i = choose|i: int| 0 <= i < sources.len() && provider_order().contains(#[trigger] sources[i].0);
        let m = choose|m: int| 0 <= m < provider_order().len() && provider_order()[m] == sources[i].0;
        assert(name_present(sources, provider_order()[m]));
        provider_order().lemma_filter_contains(named_in(sources), m);
        assert(pres.contains(provider_order()[m]));
        assert(pres.len() > 0);
        assert(provider_ids_spec(sources) == preferred_ids(sources, provider_order()));
        assert forall|k: int| 0 <= k < pres.len() implies is_first_path(
            sources,
            pres[k],
            #[trigger] provider_ids_spec(sources)[k],
        ) by {
            assert(provider_ids_spec(sources)[k] == preferred_ids(sources, provider_order())[k]);
        }
    } else {
        if pres.len() > 0 {
            provider_order().lemma_filter_pred(named_in(sources), 0);
            let name = pres[0];
            assert(name_present(sources, name));
            let i = choose|i: int| 0 <= i < sources.len() && (#[trigger] sources[i]).0 == name;
            provider_order().lemma_filter_contains_rev(named_in(sources), name);
            assert(provider_order().contains(sources[i].0));
        }
        assert(pres.len() == 0);
    }
}

/// `preferred_ids` over any `order`: one path per name of `order` that some
/// source bears, the path of the first source of that name.
proof fn lemma_preferred_ids_present(sources: Seq<(Seq<char>, Seq<char>)>, order: Seq<Seq<char>>)
    ensures
        preferred_ids(sources, order).len() == order.filter(named_in(sources)).len(),
        forall|k: int|
            0 <= k < order.filter(named_in(sources)).len() ==> is_first_path(
                sources,
                order.filter(named_in(sources))[k],
                #[trigger] preferred_ids(sources, order)[k],
            ),
    decreases order.len(),
{
    if order.len() > 0 {
        let p = order.drop_last();
        let name = order.last();
        lemma_preferred_ids_present(sources, p);
        lemma_first_named_first(sources, name);
        assert(order == p.push(name));
        p.lemma_filter_push(name, named_in(sources));
        let f = order.filter(named_in(sources));
        let fp = p.filter(named_in(sources));
        let ids = preferred_ids(sources, order);
        let prev = preferred_ids(sources, p);
        assert(prev.len() == fp.len());
        if name_present(sources, name) {
            assert(f == fp.push(name));
            assert(ids == prev.push(first_named(sources, name)->Some_0));
        } else {
            assert(f == fp);
            assert(ids == prev);
        }
        assert(ids.len() == f.len());
        assert forall|k: int| 0 <= k < f.len() implies is_first_path(
            sources,
            f[k],
            #[trigger] ids[k],
        ) by {
            if k < fp.len() {
                assert(f[k] == fp[k]);
                assert(ids[k] == prev[k]);
            } else {
                assert(f[k] == name);
            }
        }
    } else {
        reveal_with_fuel(Seq::<_>::filter, 1);
    }
}

/// The first path named `name` is there exactly when some source bears that
/// name, and it is the path of the first source of that name.
proof fn lemma_first_named_first(sources: Seq<(Seq<char>, Seq<char>)>, name: Seq<char>)
    ensures
        first_named(sources, name) is Some <==> name_present(sources, name),
        first_named(sources, name) matches Some(id) ==> is_first_path(sources, name, id),
    decreases sources.len(),
{
    if sources.len() > 0 {
        let rest = sources.drop_first();
        lemma_first_named_first(rest, name);
        assert(forall|j: int| 0 <= j < rest.len() ==> rest[j] == sources[j + 1]);
        if sources[0].0 == name {
            assert(first_of_name(sources, name, 0));
        } else {
            if name_present(sources, name) {
                let i = choose|i: int| 0 <= i < sources.len() && (#[trigger] sources[i]).0 == name;
                assert(rest[i - 1].0 == name);
            }
            if name_present(rest, name) {
                let i = choose|i: int| 0 <= i < rest.len() && (#[trigger] rest[i]).0 == name;
                assert(sources[i + 1].0 == name);
            }
            if let Some(id) = first_named(rest, name) {
                let i = choose|i: int| first_of_name(rest, name, i) && rest[i].1 == id;
                assert(first_of_name(sources, name, i + 1)) by {
                    assert forall|j: int| 0 <= j < i + 1 implies (#[trigger] sources[j]).0 != name by {
                        if j > 0 {
                            assert(sources[j] == rest[j - 1]);
                        }
                    }
                }
            }
        }
    }
}

proof fn lemma_first_named_in_sources(sources: Seq<(Seq<char>, Seq<char>)>, name: Seq<char>)
    ensures
        first_named(sources, name) matches Some(id) ==> all_ids(sources).contains(id),
    decreases sources.len(),
{
    if sources.len() > 0 {
        if sources[0].0 == name {
            assert(all_ids(sources)[0] == sources[0].1);
        } else {
            lemma_first_named_in_sources(sources.drop_first(), name);
            if let Some(id) = first_named(sources.drop_first(), name) {
                let k = choose|k: int| 0 <= k < all_ids(sources.drop_first()).len() && all_ids(
                    sources.drop_first(),
                )[k] == id;
                assert(all_ids(sources)[k + 1] == id);
            }
        }
    }
}

proof fn lemma_preferred_ids_in_sources(
    sources: Seq<(Seq<char>, Seq<char>)>,
    order: Seq<Seq<char>>,
)
    ensures
        forall|i: int|
            0 <= i < preferred_ids(sources, order).len() ==> all_ids(sources).contains(
                #[trigger] preferred_ids(sources, order)[i],
            ),
    decreases order.len(),
{
    if order.len() > 0 {
        lemma_preferred_ids_in_sources(sources, order.drop_last());
        lemma_first_named_in_sources(sources, order.last());
        let prev = preferred_ids(sources, order.drop_last());
        let ids = preferred_ids(sources, order);
        assert forall|i: int| 0 <= i < ids.len() implies all_ids(sources).contains(
            #[trigger] ids[i],
        ) by {
            if i < prev.len() {
                assert(ids[i] == prev[i]);
            }
        }
    }
}

/// Whether every link of `links` is flagged as a playlist exactly when its
/// URL holds `.m3u8`, and carries no referer.
pub open spec fn links_flagged(links: Seq<EpisodeLinkView>) -> bool {
    forall|i: int|
        0 <= i < links.len() ==> (#[trigger] links[i]).is_m3u8 == contains_spec(
            links[i].url,
            m3u8_seq(),
        ) && links[i].referer is None
}

proof fn lemma_fields_keep_flagged(entries: Seq<(String, JsonValue)>, st: LinkScan)
    requires
        links_flagged(st.links),
    ensures
        links_flagged(scan_object_fields(entries, st).links),
{
    let r = scan_object_fields(entries, st);
    assert forall|i: int| 0 <= i < r.links.len() implies (#[trigger] r.links[i]).is_m3u8
        == contains_spec(r.links[i].url, m3u8_seq()) && r.links[i].referer is None by {
        if i < st.links.len() {
            assert(r.links[i] == st.links[i]);
        }
    }
}

/// A scan only adds links, and each link that it adds is flagged as a
/// playlist exactly when its URL holds `.m3u8`.
pub proof fn lemma_scan_value_links(v: JsonValue, st: LinkScan)
    requires
        links_flagged(st.links),
    ensures
        links_flagged(scan_value(v, st).links),
        st.links.is_prefix_of(scan_value(v, st).links),
    decreases v,
{
    match v {
        JsonValue::Object(entries) => {
            let mid = scan_object_fields(entries@, st);
            lemma_fields_keep_flagged(entries@, st);
            assert(st.links.is_prefix_of(mid.links));
            assert(decreases_to!(v => v->Object_0));
            lemma_scan_entries_links(entries@, mid);
        },
        JsonValue::Array(items) => {
            assert(decreases_to!(v => v->Array_0));
            lemma_scan_items_links(items@, st);
        },
        _ => {},
    }
}

proof fn lemma_scan_items_links(items: Seq<JsonValue>, st: LinkScan)
    requires
        links_flagged(st.links),
    ensures
        links_flagged(scan_items(items, st).links),
        st.links.is_prefix_of(scan_items(items, st).links),
    decreases items,
{
    if items.len() > 0 {
        lemma_scan_items_links(items.drop_last(), st);
        lemma_scan_value_links(items.last(), scan_items(items.drop_last(), st));
    }
}

proof fn lemma_scan_entries_links(entries: Seq<(String, JsonValue)>, st: LinkScan)
    requires
        links_flagged(st.links),
    ensures
        links_flagged(scan_entries(entries, st).links),
        st.links.is_prefix_of(scan_entries(entries, st).links),
    decreases entries,
{
    if entries.len() > 0 {
        lemma_scan_entries_links(entries.drop_last(), st);
        lemma_scan_value_links(entries.last().1, scan_entries(entries.drop_last(), st));
    }
}

/// Whether the master playlist URL of a scan, if any, holds `master.m3u8`.
pub open spec fn playlist_ok(st: LinkScan) -> bool {
    st.m3u8_url matches Some(u) ==> contains_spec(u, master_m3u8_seq())
}

/// A scan only ever takes a master playlist URL that holds `master.m3u8`.
pub proof fn lemma_scan_value_playlist(v: JsonValue, st: LinkScan)
    requires
        playlist_ok(st),
    ensures
        playlist_ok(scan_value(v, st)),
    decreases v,
{
    match v {
        JsonValue::Object(entries) => {
            assert(decreases_to!(v => v->Object_0));
            lemma_scan_entries_playlist(entries@, scan_object_fields(entries@, st));
        },
        JsonValue::Array(items) => {
            assert(decreases_to!(v => v->Array_0));
            lemma_scan_items_playlist(items@, st);
        },
        _ => {},
    }
}

proof fn lemma_scan_items_playlist(items: Seq<JsonValue>, st: LinkScan)
    requires
        playlist_ok(st),
    ensures
        playlist_ok(scan_items(items, st)),
    decreases items,
{
    if items.len() > 0 {
        lemma_scan_items_playlist(items.drop_last(), st);
        lemma_scan_value_playlist(items.last(), scan_items(items.drop_last(), st));
    }
}

proof fn lemma_scan_entries_playlist(entries: Seq<(String, JsonValue)>, st: LinkScan)
    requires
        playlist_ok(st),
    ensures
        playlist_ok(scan_entries(entries, st)),
    decreases entries,
{
    if entries.len() > 0 {
        lemma_scan_entries_playlist(entries.drop_last(), st);
        lemma_scan_value_playlist(entries.last().1, scan_entries(entries.drop_last(), st));
    }
}

proof fn lemma_master_holds_m3u8(u: Seq<char>)
    requires
        contains_spec(u, master_m3u8_seq()),
    ensures
        contains_spec(u, m3u8_seq()),
{
    let i = choose|i: int| occurs_at(u, master_m3u8_seq(), i);
    assert(u.subrange(i + 6, i + 11) =~= m3u8_seq()) by {
        assert forall|k: int| 0 <= k < 5 implies u.subrange(i + 6, i + 11)[k] == m3u8_seq()[k] by {
            assert(u.subrange(i + 6, i + 11)[k] == u.subrange(i, i + 11)[k + 6]);
        }
    }
    assert(occurs_at(u, m3u8_seq(), i + 6));
}

/// Every link that a provider answer yields is flagged as an HLS playlist
/// exactly when its URL holds `.m3u8`.
pub proof fn lemma_provider_links_flagged(doc: JsonValue)
    ensures
        forall|i: int|
            0 <= i < provider_links_spec(doc).len() ==> (#[trigger] provider_links_spec(doc)[i]).is_m3u8
                == contains_spec(provider_links_spec(doc)[i].url, m3u8_seq()),
{
    let scan = scan_value(doc, empty_scan());
    assert(links_flagged(empty_scan().links));
    lemma_scan_value_links(doc, empty_scan());
    lemma_scan_value_playlist(doc, empty_scan());
    let links = provider_links_spec(doc);
    if let Some(u) = scan.m3u8_url {
        lemma_master_holds_m3u8(u);
        assert forall|i: int| 0 <= i < links.len() implies (#[trigger] links[i]).is_m3u8
            == contains_spec(links[i].url, m3u8_seq()) by {
            if i < scan.links.len() {
                assert(links[i] == scan.links[i]);
            }
        }
    }
}

/// Whether some string of `v`, at any depth, holds `master.m3u8`.
pub open spec fn holds_master(v: JsonValue) -> bool
    decreases v,
{
    match v {
        JsonValue::Object(entries) => entries_hold_master(entries@),
        JsonValue::Array(items) => items_hold_master(items@),
        JsonValue::String(s) => contains_spec(s@, master_m3u8_seq()),
        _ => false,
    }
}

/// Whether some item of an array, at any depth, holds `master.m3u8`.
pub open spec fn items_hold_master(items: Seq<JsonValue>) -> bool
    decreases items,
{
    if items.len() == 0 {
        false
    } else {
        items_hold_master(items.drop_last()) || holds_master(items.last())
    }
}

/// Whether some member value of an object, at any depth, holds
/// `master.m3u8`.
pub open spec fn entries_hold_master(entries: Seq<(String, JsonValue)>) -> bool
    decreases entries,
{
    if entries.len() == 0 {
        false
    } else {
        entries_hold_master(entries.drop_last()) || holds_master(entries.last().1)
    }
}

/// Whether some object of `v`, at any depth, has a string `Referer` member.
pub open spec fn holds_referer(v: JsonValue) -> bool
    decreases v,
{
    match v {
        JsonValue::Object(entries) => opt_str(entry_get(entries@, "Referer"@)) is Some
            || entries_hold_referer(entries@),
        JsonValue::Array(items) => items_hold_referer(items@),
        _ => false,
    }
}

/// Whether some item of an array, at any depth, has a string `Referer`
/// member.
pub open spec fn items_hold_referer(items: Seq<JsonValue>) -> bool
    decreases items,
{
    if items.len() == 0 {
        false
    } else {
        items_hold_referer(items.drop_last()) || holds_referer(items.last())
    }
}

/// Whether some member value of an object, at any depth, has a string
/// `Referer` member.
pub open spec fn entries_hold_referer(entries: Seq<(String, JsonValue)>) -> bool
    decreases entries,
{
    if entries.len() == 0 {
        false
    } else {
        entries_hold_referer(entries.drop_last()) || holds_referer(entries.last().1)
    }
}

/// Whether an object's members describe a link: string `link` and
/// `resolutionStr` members.
pub open spec fn describes_link(entries: Seq<(String, JsonValue)>) -> bool {
    opt_str(entry_get(entries, "link"@)) is Some && opt_str(entry_get(entries, "resolutionStr"@)) is Some
}

/// The number of objects of `v`, at any depth, that describe a link.
pub open spec fn link_count(v: JsonValue) -> nat
    decreases v,
{
    match v {
        JsonValue::Object(entries) => (if describes_link(entries@) {
            1nat
        } else {
            0nat
        }) + entries_link_count(entries@),
        JsonValue::Array(items) => items_link_count(items@),
        _ => 0,
    }
}

/// The number of objects of the items of an array, at any depth, that
/// describe a link.
pub open spec fn items_link_count(items: Seq<JsonValue>) -> nat
    decreases items,
{
    if items.len() == 0 {
        0
    } else {
        items_link_count(items.drop_last()) + link_count(items.last())
    }
}

/// The number of objects of the member values of an object, at any depth,
/// that describe a link.
pub open spec fn entries_link_count(entries: Seq<(String, JsonValue)>) -> nat
    decreases entries,
{
    if entries.len() == 0 {
        0
    } else {
        entries_link_count(entries.drop_last()) + link_count(entries.last().1)
    }
}

proof fn lemma_entry_get_member(entries: Seq<(String, JsonValue)>, key: Seq<char>)
    ensures
        entry_get(entries, key) matches Some(x) ==> exists|i: int|
            0 <= i < entries.len() && (#[trigger] entries[i]).1 == x,
    decreases entries.len(),
{
    if entries.len() > 0 && entries[0].0@ != key {
        let rest = entries.drop_first();
        lemma_entry_get_member(rest, key);
        if let Some(x) = entry_get(rest, key) {
            let i = choose|i: int| 0 <= i < rest.len() && (#[trigger] rest[i]).1 == x;
            assert(entries[i + 1] == rest[i]);
        }
    }
}

proof fn lemma_entries_hold_master_at(entries: Seq<(String, JsonValue)>, i: int)
    requires
        0 <= i < entries.len(),
        holds_master(entries[i].1),
    ensures
        entries_hold_master(entries),
    decreases entries.len(),
{
    if i < entries.len() - 1 {
        lemma_entries_hold_master_at(entries.drop_last(), i);
    }
}

/// What an object's own members add to a scan: a link exactly when they
/// describe one; the referer becomes known when a string `Referer` member is
/// there, and a master playlist only from a member that holds one.
proof fn lemma_fields_sees(entries: Seq<(String, JsonValue)>, st: LinkScan)
    ensures
        scan_object_fields(entries, st).links.len() == st.links.len() + (if describes_link(entries) {
            1nat
        } else {
            0nat
        }),
        scan_object_fields(entries, st).m3u8_url is Some ==> st.m3u8_url is Some
            || entries_hold_master(entries),
        st.m3u8_url is Some ==> scan_object_fields(entries, st).m3u8_url is Some,
        scan_object_fields(entries, st).referer is Some <==> st.referer is Some || opt_str(
            entry_get(entries, "Referer"@),
        ) is Some,
{
    lemma_entry_get_member(entries, "url"@);
    if let Some(JsonValue::String(u)) = entry_get(entries, "url"@) {
        let i = choose|i: int| 0 <= i < entries.len() && (#[trigger] entries[i]).1 == JsonValue::String(u);
        if contains_spec(u@, master_m3u8_seq()) {
            lemma_entries_hold_master_at(entries, i);
        }
    }
}

/// A scan finds one link per object that describes one, at any depth; it
/// knows a master playlist exactly when one was known before or some string
/// of `v` holds `master.m3u8`; and it knows a referer exactly when one was
/// known before or some object of `v` has a string `Referer` member.
pub proof fn lemma_scan_value_sees(v: JsonValue, st: LinkScan)
    ensures
        scan_value(v, st).links.len() == st.links.len() + link_count(v),
        scan_value(v, st).m3u8_url is Some <==> st.m3u8_url is Some || holds_master(v),
        scan_value(v, st).referer is Some <==> st.referer is Some || holds_referer(v),
    decreases v,
{
    match v {
        JsonValue::Object(entries) => {
            lemma_fields_sees(entries@, st);
            assert(decreases_to!(v => v->Object_0));
            lemma_scan_entries_sees(entries@, scan_object_fields(entries@, st));
        },
        JsonValue::Array(items) => {
            assert(decreases_to!(v => v->Array_0));
            lemma_scan_items_sees(items@, st);
        },
        _ => {},
    }
}

proof fn lemma_scan_items_sees(items: Seq<JsonValue>, st: LinkScan)
    ensures
        scan_items(items, st).links.len() == st.links.len() + items_link_count(items),
        scan_items(items, st).m3u8_url is Some <==> st.m3u8_url is Some || items_hold_master(items),
        scan_items(items, st).referer is Some <==> st.referer is Some || items_hold_referer(items),
    decreases items,
{
    if items.len() > 0 {
        lemma_scan_items_sees(items.drop_last(), st);
        lemma_scan_value_sees(items.last(), scan_items(items.drop_last(), st));
    }
}

proof fn lemma_scan_entries_sees(entries: Seq<(String, JsonValue)>, st: LinkScan)
    ensures
        scan_entries(entries, st).links.len() == st.links.len() + entries_link_count(entries),
        scan_entries(entries, st).m3u8_url is Some <==> st.m3u8_url is Some || entries_hold_master(
            entries,
        ),
        scan_entries(entries, st).referer is Some <==> st.referer is Some || entries_hold_referer(
            entries,
        ),
    decreases entries,
{
    if entries.len() > 0 {
        lemma_scan_entries_sees(entries.drop_last(), st);
        lemma_scan_value_sees(entries.last().1, scan_entries(entries.drop_last(), st));
    }
}

/// A provider answer yields one link per object, at any depth, with string
/// `link` and `resolutionStr` members, and one more, an HLS playlist, exactly
/// when some string of it, at any depth, holds `master.m3u8`; that playlist
/// carries the site's own address as referer when no object of the answer
/// has a string `Referer` member.
pub proof fn lemma_provider_links_complete(doc: JsonValue)
    ensures
        provider_links_spec(doc).len() == link_count(doc) + (if holds_master(doc) {
            1nat
        } else {
            0nat
        }),
        holds_master(doc) ==> provider_links_spec(doc).last().is_m3u8,
        holds_master(doc) && !holds_referer(doc) ==> provider_links_spec(doc).last().referer == Some(
            ALLANIME_REFR@,
        ),
{
    lemma_scan_value_sees(doc, empty_scan());
}

proof fn lemma_fields_continue(entries: Seq<(String, JsonValue)>, st: LinkScan)
    ensures
        scan_object_fields(entries, st).links == st.links + scan_object_fields(entries, empty_scan()).links,
        scan_object_fields(entries, st).m3u8_url == st.m3u8_url || (entries_hold_master(entries)
            && scan_object_fields(entries, st).m3u8_url == scan_object_fields(
            entries,
            empty_scan(),
        ).m3u8_url),
        opt_str(entry_get(entries, "Referer"@)) is Some ==> scan_object_fields(entries, st).referer
            == scan_object_fields(entries, empty_scan()).referer,
        opt_str(entry_get(entries, "Referer"@)) is None ==> scan_object_fields(entries, st).referer
            == st.referer,
{
    lemma_fields_sees(entries, st);
    let a = scan_object_fields(entries, st);
    let b = scan_object_fields(entries, empty_scan());
    assert(a.links =~= st.links + b.links);
    lemma_entry_get_member(entries, "url"@);
    if let Some(JsonValue::String(u)) = entry_get(entries, "url"@) {
        let i = choose|i: int| 0 <= i < entries.len() && (#[trigger] entries[i]).1 == JsonValue::String(u);
        if contains_spec(u@, master_m3u8_seq()) {
            lemma_entries_hold_master_at(entries, i);
        }
    }
}

/// A scan carries on from what was known before: it appends to the links
/// known before the links that a scan of `v` from nothing finds; a master
/// playlist in `v` replaces one known before, which else stays; and a
/// referer in `v` replaces one known before, which else stays.
pub proof fn lemma_scan_value_continues(v: JsonValue, st: LinkScan)
    ensures
        scan_value(v, st).links == st.links + scan_value(v, empty_scan()).links,
        holds_master(v) ==> scan_value(v, st).m3u8_url == scan_value(v, empty_scan()).m3u8_url,
        !holds_master(v) ==> scan_value(v, st).m3u8_url == st.m3u8_url,
        holds_referer(v) ==> scan_value(v, st).referer == scan_value(v, empty_scan()).referer,
        !holds_referer(v) ==> scan_value(v, st).referer == st.referer,
    decreases v,
{
    match v {
        JsonValue::Object(entries) => {
            let es = entries@;
            let a = scan_object_fields(es, st);
            let b = scan_object_fields(es, empty_scan());
            lemma_fields_continue(es, st);
            lemma_fields_continue(es, empty_scan());
            assert(decreases_to!(v => v->Object_0));
            lemma_scan_entries_continues(es, a);
            lemma_scan_entries_continues(es, b);
            assert(empty_scan().links + b.links =~= b.links);
            assert(scan_value(v, st).links =~= st.links + scan_value(v, empty_scan()).links);
        },
        JsonValue::Array(items) => {
            assert(decreases_to!(v => v->Array_0));
            lemma_scan_items_continues(items@, st);
        },
        JsonValue::String(s) => {
            assert(st.links + empty_scan().links =~= st.links);
        },
        _ => {
            assert(st.links + empty_scan().links =~= st.links);
        },
    }
}

proof fn lemma_scan_items_continues(items: Seq<JsonValue>, st: LinkScan)
    ensures
        scan_items(items, st).links == st.links + scan_items(items, empty_scan()).links,
        items_hold_master(items) ==> scan_items(items, st).m3u8_url == scan_items(
            items,
            empty_scan(),
        ).m3u8_url,
        !items_hold_master(items) ==> scan_items(items, st).m3u8_url == st.m3u8_url,
        items_hold_referer(items) ==> scan_items(items, st).referer == scan_items(
            items,
            empty_scan(),
        ).referer,
        !items_hold_referer(items) ==> scan_items(items, st).referer == st.referer,
    decreases items,
{
    if items.len() == 0 {
        assert(st.links + empty_scan().links =~= st.links);
    } else {
        let prev = items.drop_last();
        let last = items.last();
        lemma_scan_items_continues(prev, st);
        lemma_scan_value_continues(last, scan_items(prev, st));
        lemma_scan_value_continues(last, scan_items(prev, empty_scan()));
        assert(scan_items(items, st).links =~= st.links + scan_items(items, empty_scan()).links);
    }
}

proof fn lemma_scan_entries_continues(entries: Seq<(String, JsonValue)>, st: LinkScan)
    ensures
        scan_entries(entries, st).links == st.links + scan_entries(entries, empty_scan()).links,
        entries_hold_master(entries) ==> scan_entries(entries, st).m3u8_url == scan_entries(
            entries,
            empty_scan(),
        ).m3u8_url,
        !entries_hold_master(entries) ==> scan_entries(entries, st).m3u8_url == st.m3u8_url,
        entries_hold_referer(entries) ==> scan_entries(entries, st).referer == scan_entries(
            entries,
            empty_scan(),
        ).referer,
        !entries_hold_referer(entries) ==> scan_entries(entries, st).referer == st.referer,
    decreases entries,
{
    if entries.len() == 0 {
        assert(st.links + empty_scan().links =~= st.links);
    } else {
        let prev = entries.drop_last();
        let last = entries.last().1;
        lemma_scan_entries_continues(prev, st);
        lemma_scan_value_continues(last, scan_entries(prev, st));
        lemma_scan_value_continues(last, scan_entries(prev, empty_scan()));
        assert(scan_entries(entries, st).links =~= st.links + scan_entries(entries, empty_scan()).links);
    }
}

} // verus!
