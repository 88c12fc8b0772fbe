use gogoanime_scraper::download::{
    create_temp_file_path, episode_file_name, redirect_step, RedirectStep,
};
use gogoanime_scraper::error::ScrapeError;

#[test]
fn episode_file_names_are_zero_padded() {
    assert_eq!(episode_file_name(7, 4), "EP-0007.mp4");
    assert_eq!(episode_file_name(7, 3), "EP-007.mp4");
    assert_eq!(episode_file_name(0, 4), "EP-0000.mp4");
    assert_eq!(episode_file_name(12345, 4), "EP-12345.mp4");
    assert_eq!(episode_file_name(u32::MAX, 4), format!("EP-{:04}.mp4", u32::MAX));
}

#[test]
fn episode_file_names_match_format() {
    for n in [1u32, 9, 10, 99, 100, 999, 1000, 65536] {
        assert_eq!(episode_file_name(n, 4), format!("EP-{:04}.mp4", n));
        assert_eq!(episode_file_name(n, 3), format!("EP-{:03}.mp4", n));
    }
}

#[test]
fn distinct_episodes_get_distinct_names() {
    let names: Vec<String> = (1..200u32).map(|n| episode_file_name(n, 4)).collect();
    for i in 0..names.len() {
        for j in 0..names.len() {
            if i != j {
                assert_ne!(names[i], names[j]);
            }
        }
    }
}

#[test]
fn temp_file_path_appends_tmp() {
    assert_eq!(create_temp_file_path("Anime/x/EP-0001.mp4"), "Anime/x/EP-0001.mp4.tmp");
    assert_eq!(create_temp_file_path(""), ".tmp");
}

#[test]
fn redirect_with_location_is_followed() {
    match redirect_step("a".to_string(), 302, Some("b".to_string())) {
        Ok(RedirectStep::Follow(u)) => assert_eq!(u, "b"),
        _ => panic!("expected a redirect to be followed"),
    }
}

#[test]
fn redirect_without_location_finishes() {
    match redirect_step("a".to_string(), 301, None) {
        Ok(RedirectStep::Finish(u)) => assert_eq!(u, "a"),
        _ => panic!("expected the current address"),
    }
}

#[test]
fn client_error_fails_the_request() {
    assert!(matches!(
        redirect_step("a".to_string(), 404, Some("b".to_string())),
        Err(ScrapeError::RequestFailed)
    ));
    assert_eq!(ScrapeError::RequestFailed.message(), "HTTP request failed");
}

#[test]
fn success_and_server_error_finish_at_current() {
    for status in [200u16, 204, 500, 503, 100] {
        match redirect_step("here".to_string(), status, Some("there".to_string())) {
            Ok(RedirectStep::Finish(u)) => assert_eq!(u, "here"),
            _ => panic!("expected the current address"),
        }
    }
}
