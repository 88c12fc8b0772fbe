use gogoanime_scraper::error::ScrapeError;
use gogoanime_scraper::print_handleing::{anime_list_label, download_banner};
use gogoanime_scraper::scraper::{
    csrf_token_from, episode_page_url, former_site_step, get_csrf_token, login_url, FormerSiteAction,
};
use gogoanime_scraper::{category_url, search_url};

#[test]
fn search_and_category_urls() {
    assert_eq!(search_url("one%20piece"), "https://anitaku.pe/search.html?keyword=one%20piece");
    assert_eq!(category_url("naruto"), "https://anitaku.pe/category/naruto");
    assert_eq!(login_url(), "https://anitaku.pe/login.html");
}

#[test]
fn episode_page_urls_number_the_episode() {
    assert_eq!(episode_page_url("https://anitaku.pe/", "naruto", 12), "https://anitaku.pe//naruto-episode-12");
    assert_eq!(episode_page_url("https://anitaku.so", "x", 0), "https://anitaku.so/x-episode-0");
}

#[test]
fn csrf_token_is_read_from_the_meta_element() {
    let page = "<html><head><meta name=\"viewport\" content=\"w\"><meta name='csrf-token' content=\"tok123\"></head><body></body></html>";
    assert_eq!(get_csrf_token(page), Ok("tok123".to_string()));
}

#[test]
fn missing_csrf_token_is_an_error() {
    assert_eq!(get_csrf_token("<html><body>login</body></html>"), Err(ScrapeError::CsrfTokenNotFound));
    assert_eq!(csrf_token_from(vec![]), Err(ScrapeError::CsrfTokenNotFound));
    assert_eq!(
        csrf_token_from(vec![(None, String::new()), (Some("u".to_string()), String::new())]),
        Err(ScrapeError::CsrfTokenNotFound)
    );
    assert_eq!(
        csrf_token_from(vec![(Some("t".to_string()), String::new()), (None, String::new())]),
        Ok("t".to_string())
    );
    assert_eq!(ScrapeError::CsrfTokenNotFound.message(), "CSRF token not found");
}

#[test]
fn list_labels_and_banner() {
    assert_eq!(anime_list_label(0), "[1]");
    assert_eq!(anime_list_label(41), "[42]");
    assert_eq!(download_banner(24), "Downloading all 24 episodes");
    assert_eq!(download_banner(0), "Downloading all 0 episodes");
}

#[test]
fn only_the_first_csrf_element_counts() {
    let page = "<meta name='csrf-token'><meta name='csrf-token' content='late'>";
    assert_eq!(get_csrf_token(page), Err(ScrapeError::CsrfTokenNotFound));
    let page = "<meta name='csrf-token' content='a'><meta name='csrf-token' content='b'>";
    assert_eq!(get_csrf_token(page), Ok("a".to_string()));
}

#[test]
fn former_site_episodes_are_skipped_stopped_or_fetched() {
    assert!(matches!(former_site_step(true, false), FormerSiteAction::Skip));
    assert!(matches!(former_site_step(true, true), FormerSiteAction::Skip));
    assert!(matches!(former_site_step(false, false), FormerSiteAction::Stop));
    assert!(matches!(former_site_step(false, true), FormerSiteAction::Fetch));
}
