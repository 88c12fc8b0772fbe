use gogoanime_scraper::error::ScrapeError;
use gogoanime_scraper::parser::{
    get_anime_images, get_anime_name, get_anime_url, get_media_url, get_total_number_of_episodes,
    is_anime_ongoing,
};
use gogoanime_scraper::{get_anime_details, get_anime_info};

#[test]
fn test_empty_parsers() {
    assert!(get_anime_url("".to_string()).is_empty());
    assert!(get_anime_name("".to_string()).is_empty());
    assert!(get_media_url("".to_string()).is_empty());
    assert!(get_anime_images("".to_string()).is_empty());
    assert!(get_total_number_of_episodes("".to_string()).is_err());
    assert!(!is_anime_ongoing(""));
}

#[test]
fn total_episodes_reports_not_implemented() {
    assert_eq!(
        get_total_number_of_episodes("<html></html>".to_string()),
        Err(ScrapeError::NotImplemented)
    );
    assert_eq!(ScrapeError::NotImplemented.message(), "Not implemented for AllAnime");
}

const SEARCH_PAGE: &str = "<html><body><ul class=\"items\">\
<li><p class=\"name\"><a href=\"/category/naruto\" title=\"Naruto\">Naruto</a></p></li>\
<li><p class=\"name\"><a href=\"/category/naruto-shippuden\">Naruto <b>Shippuden</b></a></p></li>\
<li><p class=\"name\"><a>No link</a></p></li>\
<li><p class=\"other\"><a href=\"/category/not-listed\">Not listed</a></p></li>\
<li><p class=\"name\"><a href=\"/anime/elsewhere\">Elsewhere</a></p></li>\
</ul></body></html>";

#[test]
fn anime_urls_are_the_endings_of_the_name_links() {
    assert_eq!(
        get_anime_url(SEARCH_PAGE.to_string()),
        vec!["naruto", "naruto-shippuden", "", "/anime/elsewhere"]
    );
}

#[test]
fn anime_names_are_the_texts_of_the_name_links() {
    assert_eq!(
        get_anime_name(SEARCH_PAGE.to_string()),
        vec!["Naruto", "Naruto Shippuden", "No link", "Elsewhere"]
    );
}

#[test]
fn the_documented_example_page() {
    let page = "<p class=\"name\"><a href=\"/category/naruto\" title=\"Naruto\">Naruto</a></p>";
    assert_eq!(get_anime_url(page.to_string()), vec!["naruto"]);
    assert_eq!(get_anime_name(page.to_string()), vec!["Naruto"]);
}

#[test]
fn media_urls_are_the_download_links() {
    let page = "<div class=\"cf-download\"><a href=\"https://dl/360\">360p</a><a>none</a>\
<a href=\"https://dl/1080\">1080p</a></div><a href=\"https://elsewhere\">x</a>";
    assert_eq!(get_media_url(page.to_string()), vec!["https://dl/360", "https://dl/1080"]);
}

#[test]
fn anime_info_and_details_read_the_search_page() {
    let (urls, names, images) = get_anime_info(SEARCH_PAGE.to_string());
    assert_eq!(urls.len(), 4);
    assert_eq!(names.len(), 4);
    assert!(images.is_empty());
    assert_eq!(urls[1], "naruto-shippuden");
    assert_eq!(names[1], "Naruto Shippuden");
    assert_eq!(urls[2], "");
    assert_eq!(names[2], "No link");
    let (urls2, names2) = get_anime_details(SEARCH_PAGE.to_string());
    assert_eq!(urls, urls2);
    assert_eq!(names, names2);
    let (urls, names) = get_anime_details("<a>y</a>".to_string());
    assert!(urls.is_empty() && names.is_empty());
}
