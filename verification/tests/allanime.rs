use gogoanime_scraper::allanime::{
    collect_links, decode_sources, episode_variables, episodes_variables, gather_episode_links,
    graphql_body, parse_episode_labels, parse_search_results, provider_ids_for_episode,
    provider_links, provider_links_of_text, provider_url, quality_from_resolution, search_variables, select_provider_ids,
    EpisodeLink, ALLANIME_REFR,
};
use gogoanime_scraper::error::ScrapeError;
use gogoanime_scraper::json::{JsonNumber, JsonValue};
use gogoanime_scraper::provider::{decode_provider_id, hex_mapping, pair_key_exec};

fn s(text: &str) -> JsonValue {
    JsonValue::String(text.to_string())
}

fn num(n: i64) -> JsonValue {
    JsonValue::Number(JsonNumber { text: n.to_string(), int: Some(n) })
}

fn obj(entries: Vec<(&str, JsonValue)>) -> JsonValue {
    JsonValue::Object(entries.into_iter().map(|(k, v)| (k.to_string(), v)).collect())
}

fn encode(text: &str) -> String {
    let map = hex_mapping();
    let mut out = String::new();
    for c in text.chars() {
        let key = map.iter().find(|(_, v)| **v == c).map(|(k, _)| *k).unwrap();
        out.push(((key >> 8) as u8) as char);
        out.push(((key & 0xff) as u8) as char);
    }
    out
}

#[test]
fn hex_mapping_holds_every_code() {
    let map = hex_mapping();
    assert_eq!(map.len(), 84);
    assert_eq!(map.get(&pair_key_exec(b'7', b'9')), Some(&'A'));
    assert_eq!(map.get(&pair_key_exec(b'1', b'7')), Some(&'/'));
    assert_eq!(map.get(&pair_key_exec(b'1', b'd')), Some(&'%'));
    assert_eq!(map.get(&pair_key_exec(b'7', b'A')), None);
}

#[test]
fn decode_reads_codes_two_by_two() {
    assert_eq!(decode_provider_id("797a7b"), "ABC");
    assert_eq!(decode_provider_id("0809"), "01");
    assert_eq!(decode_provider_id(""), "");
}

#[test]
fn decode_skips_unknown_codes_and_a_last_odd_byte() {
    assert_eq!(decode_provider_id("zz79"), "A");
    assert_eq!(decode_provider_id("797"), "A");
    assert_eq!(decode_provider_id("7A79"), "A");
}

#[test]
fn decode_pairs_bytes_not_characters() {
    // "é" is two bytes that form no code; the pairs after it still decode.
    assert_eq!(decode_provider_id("é79"), "A");
    assert_eq!(decode_provider_id("7é9"), "");
}

#[test]
fn decode_appends_json_to_clock() {
    assert_eq!(decode_provider_id(&encode("/apivtwo/clock?id=1")), "/apivtwo/clock.json?id=1");
    assert_eq!(decode_provider_id(&encode("/clock/clock")), "/clock.json/clock.json");
    assert_eq!(decode_provider_id(&encode("/clack")), "/clack");
}

#[test]
fn provider_url_joins_base_and_path() {
    assert_eq!(provider_url("/apivtwo/clock.json?id=1"), "https://allanime.day/apivtwo/clock.json?id=1");
}

#[test]
fn search_results_keep_named_shows() {
    let answer = obj(vec![(
        "data",
        obj(vec![(
            "shows",
            obj(vec![(
                "edges",
                JsonValue::Array(vec![
                    obj(vec![
                        ("_id", s("abc")),
                        ("availableEpisodes", obj(vec![("dub", num(3)), ("sub", num(12))])),
                        ("name", s("One Piece")),
                    ]),
                    obj(vec![("_id", s("")), ("name", s("Nameless id"))]),
                    obj(vec![("_id", s("def")), ("name", num(5))]),
                    obj(vec![("_id", s("ghi")), ("name", s("Bleach"))]),
                ]),
            )]),
        )]),
    )]);
    let results = parse_search_results(&answer, "sub");
    assert_eq!(results.len(), 2);
    assert_eq!(results[0].id, "abc");
    assert_eq!(results[0].name, "One Piece");
    assert_eq!(results[0].episodes, Some(12));
    assert_eq!(results[1].id, "ghi");
    assert_eq!(results[1].episodes, None);
}

#[test]
fn search_results_of_malformed_answer_are_empty() {
    assert!(parse_search_results(&s("oops"), "sub").is_empty());
    assert!(parse_search_results(&obj(vec![("data", JsonValue::Null)]), "sub").is_empty());
}

#[test]
fn episode_labels_take_strings_and_numbers() {
    let answer = obj(vec![(
        "data",
        obj(vec![(
            "show",
            obj(vec![(
                "availableEpisodesDetail",
                obj(vec![(
                    "sub",
                    JsonValue::Array(vec![
                        s("3"),
                        JsonValue::Number(JsonNumber { text: "2.5".to_string(), int: None }),
                        JsonValue::Bool(true),
                        num(1),
                    ]),
                )]),
            )]),
        )]),
    )]);
    assert_eq!(parse_episode_labels(&answer, "sub"), vec!["3", "2.5", "1"]);
    assert!(parse_episode_labels(&answer, "dub").is_empty());
}

fn episode_answer(sources: Vec<JsonValue>) -> JsonValue {
    obj(vec![(
        "data",
        obj(vec![("episode", obj(vec![("sourceUrls", JsonValue::Array(sources))]))]),
    )])
}

#[test]
fn sources_are_decoded_after_leading_dashes() {
    let path = encode("/apivtwo/clock?id=7");
    let answer = episode_answer(vec![
        obj(vec![("sourceName", s("Default")), ("sourceUrl", s(&format!("----{}", path)))]),
        obj(vec![("sourceName", s("Mp4")), ("sourceUrl", s("https://example.com/x"))]),
    ]);
    let decoded = decode_sources(&answer);
    assert_eq!(decoded.len(), 1);
    assert_eq!(decoded[0].0, "Default");
    assert_eq!(decoded[0].1, "/apivtwo/clock.json?id=7");
}

#[test]
fn preferred_providers_are_asked_in_order() {
    let sources = vec![
        ("S-mp4".to_string(), "/s".to_string()),
        ("Other".to_string(), "/o".to_string()),
        ("Default".to_string(), "/d1".to_string()),
        ("Default".to_string(), "/d2".to_string()),
        ("Luf-Mp4".to_string(), "/l".to_string()),
    ];
    assert_eq!(select_provider_ids(&sources), vec!["/d1", "/s", "/l"]);
}

#[test]
fn without_preferred_provider_every_path_is_asked() {
    let sources = vec![
        ("A".to_string(), "/a".to_string()),
        ("B".to_string(), "/b".to_string()),
    ];
    assert_eq!(select_provider_ids(&sources), vec!["/a", "/b"]);
}

#[test]
fn episode_without_decodable_source_has_no_provider_links() {
    let answer = episode_answer(vec![obj(vec![("sourceName", s("Default")), ("sourceUrl", s("--zz"))])]);
    assert_eq!(provider_ids_for_episode(&answer), Err(ScrapeError::NoProviderLinks));
    assert_eq!(
        ScrapeError::NoProviderLinks.message(),
        "No provider links found for the selected episode"
    );
}

#[test]
fn episode_provider_ids_are_decoded_paths() {
    let answer = episode_answer(vec![
        obj(vec![("sourceName", s("Yt-mp4")), ("sourceUrl", s(&format!("--{}", encode("/yt"))))]),
        obj(vec![("sourceName", s("Default")), ("sourceUrl", s(&format!("--{}", encode("/def"))))]),
    ]);
    assert_eq!(provider_ids_for_episode(&answer), Ok(vec!["/def".to_string(), "/yt".to_string()]));
}

#[test]
fn quality_reads_the_digits_of_the_resolution() {
    assert_eq!(quality_from_resolution(&"1080p".to_string()), Some(1080));
    assert_eq!(quality_from_resolution(&"Mp4-720p (HD)".to_string()), Some(4720));
    assert_eq!(quality_from_resolution(&"hls".to_string()), None);
    assert_eq!(quality_from_resolution(&"99999999999p".to_string()), None);
}

#[test]
fn collect_links_scans_depth_first() {
    let doc = obj(vec![
        (
            "links",
            JsonValue::Array(vec![
                obj(vec![("link", s("https://a/video.mp4")), ("resolutionStr", s("720p"))]),
                obj(vec![("link", s("https://b/list.m3u8")), ("resolutionStr", s("auto"))]),
                obj(vec![("link", s("https://c/no-res.mp4"))]),
            ]),
        ),
        ("Referer", s("https://ref.example")),
        ("url", s("https://cdn/master.m3u8")),
    ]);
    let mut links = Vec::new();
    let mut url = None;
    let mut referer = None;
    collect_links(&doc, &mut links, &mut url, &mut referer);
    assert_eq!(links.len(), 2);
    assert_eq!(links[0].url, "https://a/video.mp4");
    assert_eq!(links[0].quality, Some(720));
    assert!(!links[0].is_m3u8);
    assert_eq!(links[1].quality, None);
    assert!(links[1].is_m3u8);
    assert_eq!(url.as_deref(), Some("https://cdn/master.m3u8"));
    assert_eq!(referer.as_deref(), Some("https://ref.example"));
}

#[test]
fn provider_links_add_the_master_playlist() {
    let doc = obj(vec![("hls", s("https://x/master.m3u8"))]);
    let links = provider_links("ignored".to_string(), Some(doc));
    assert_eq!(links.len(), 1);
    assert_eq!(links[0].url, "https://x/master.m3u8");
    assert_eq!(links[0].referer.as_deref(), Some(ALLANIME_REFR));
    assert!(links[0].is_m3u8);
    assert_eq!(links[0].quality, None);
}

#[test]
fn provider_text_that_is_no_json_is_scanned_as_a_string() {
    let links = provider_links("see https://y/master.m3u8".to_string(), None);
    assert_eq!(links.len(), 1);
    assert_eq!(links[0].url, "see https://y/master.m3u8");
    assert!(provider_links("plain text".to_string(), None).is_empty());
}

fn link(url: &str) -> EpisodeLink {
    EpisodeLink { quality: None, url: url.to_string(), referer: None, is_m3u8: false }
}

#[test]
fn gathered_links_keep_provider_order() {
    let gathered = gather_episode_links(vec![vec![link("a"), link("b")], vec![], vec![link("c")]]).unwrap();
    let urls: Vec<&str> = gathered.iter().map(|l| l.url.as_str()).collect();
    assert_eq!(urls, vec!["a", "b", "c"]);
    assert!(matches!(gather_episode_links(vec![vec![], vec![]]), Err(ScrapeError::NoPlayableLinks)));
    assert!(matches!(gather_episode_links(vec![]), Err(ScrapeError::NoPlayableLinks)));
}

fn member<'a>(v: &'a JsonValue, key: &str) -> &'a JsonValue {
    v.get(key).unwrap()
}

#[test]
fn search_variables_describe_the_search() {
    let v = search_variables("naruto", "sub");
    let search = member(&v, "search");
    assert!(matches!(member(search, "allowAdult"), JsonValue::Bool(false)));
    assert!(matches!(member(search, "allowUnknown"), JsonValue::Bool(false)));
    assert_eq!(member(search, "query").as_str().unwrap(), "naruto");
    assert_eq!(member(&v, "limit").as_i64(), Some(40));
    assert_eq!(member(&v, "page").as_i64(), Some(1));
    assert_eq!(member(&v, "translationType").as_str().unwrap(), "sub");
    assert_eq!(member(&v, "countryOrigin").as_str().unwrap(), "ALL");
}

#[test]
fn episode_and_body_variables() {
    let v = episode_variables("id1", "dub", "12");
    assert_eq!(member(&v, "showId").as_str().unwrap(), "id1");
    assert_eq!(member(&v, "translationType").as_str().unwrap(), "dub");
    assert_eq!(member(&v, "episodeString").as_str().unwrap(), "12");
    let e = episodes_variables("id2");
    assert_eq!(member(&e, "showId").as_str().unwrap(), "id2");
    let body = graphql_body("query {}", e);
    assert_eq!(member(&body, "query").as_str().unwrap(), "query {}");
    assert_eq!(member(member(&body, "variables"), "showId").as_str().unwrap(), "id2");
}

#[test]
fn codes_decode_independently() {
    let a = encode("/api");
    let b = encode("?x=1");
    assert_eq!(
        decode_provider_id(&format!("{a}{b}")),
        format!("{}{}", decode_provider_id(&a), decode_provider_id(&b))
    );
}

#[test]
fn provider_answer_text_is_read_as_json() {
    let text = r#"{"links":[{"link":"https://v/a.mp4","resolutionStr":"480p"}],"hls":{"url":"https://v/master.m3u8","headers":{"Referer":"https://r"}}}"#;
    let links = provider_links_of_text(text.to_string());
    assert_eq!(links.len(), 2);
    assert_eq!(links[0].url, "https://v/a.mp4");
    assert_eq!(links[0].quality, Some(480));
    assert_eq!(links[1].url, "https://v/master.m3u8");
    assert_eq!(links[1].referer.as_deref(), Some("https://r"));
    let plain = provider_links_of_text("not json https://z/master.m3u8".to_string());
    assert_eq!(plain.len(), 1);
    assert_eq!(plain[0].url, "not json https://z/master.m3u8");
}

#[test]
fn negative_integers_keep_their_sign() {
    let v = gogoanime_scraper::allanime::json_int(-42);
    match v {
        JsonValue::Number(n) => {
            assert_eq!(n.text, "-42");
            assert_eq!(n.int, Some(-42));
        }
        _ => panic!("expected a number"),
    }
    match gogoanime_scraper::allanime::json_int(i64::MIN) {
        JsonValue::Number(n) => assert_eq!(n.text, i64::MIN.to_string()),
        _ => panic!("expected a number"),
    }
}

#[test]
fn an_encoded_path_decodes_back() {
    for path in ["/apivtwo/clok?id=1&x=y", "ABCxyz0189-._~:/?#[]@!$&()*+,;=%", ""] {
        assert_eq!(decode_provider_id(&encode(path)), path);
        let xor: String = path.chars().map(|c| format!("{:02x}", (c as u8) ^ 0x38)).collect();
        assert_eq!(decode_provider_id(&xor), path);
    }
}
