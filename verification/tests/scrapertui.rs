use gogoanime_scraper::allanime::EpisodeLink;
use gogoanime_scraper::error::ScrapeError;
use gogoanime_scraper::scrapertui::{
    download_step, plan_episode_jobs, select_best_link, EpisodeAction, EpisodeEvent, MAX_RETRIES,
};

fn link(url: &str, quality: Option<u32>, is_m3u8: bool) -> EpisodeLink {
    EpisodeLink { quality, url: url.to_string(), referer: None, is_m3u8 }
}

#[test]
fn best_link_prefers_direct_links() {
    let links = vec![link("hls", Some(2160), true), link("a", Some(480), false), link("b", Some(720), false)];
    assert_eq!(select_best_link(&links).unwrap().url, "b");
}

#[test]
fn best_link_takes_the_first_of_the_highest_quality() {
    let links = vec![link("a", Some(720), false), link("b", None, false), link("c", Some(720), false)];
    assert_eq!(select_best_link(&links).unwrap().url, "a");
}

#[test]
fn best_link_counts_missing_quality_as_zero() {
    let links = vec![link("a", None, false), link("b", Some(0), false)];
    assert_eq!(select_best_link(&links).unwrap().url, "a");
}

#[test]
fn best_link_falls_back_to_playlists() {
    let links = vec![link("p1", None, true), link("p2", Some(1), true)];
    assert_eq!(select_best_link(&links).unwrap().url, "p2");
    assert!(select_best_link(&vec![]).is_none());
}

#[test]
fn failures_are_retried_then_given_up() {
    assert!(matches!(download_step(0, EpisodeEvent::LinksFailed), EpisodeAction::Retry(1)));
    assert!(matches!(download_step(4, EpisodeEvent::NoLink), EpisodeAction::Retry(5)));
    assert!(matches!(
        download_step(MAX_RETRIES, EpisodeEvent::NoLink),
        EpisodeAction::GiveUp(ScrapeError::NoVideoUrl)
    ));
    assert!(matches!(
        download_step(MAX_RETRIES, EpisodeEvent::DownloadFailed),
        EpisodeAction::GiveUp(ScrapeError::DownloadRetriesExhausted)
    ));
    assert!(matches!(download_step(MAX_RETRIES, EpisodeEvent::Downloaded), EpisodeAction::Done));
}

#[test]
fn a_failing_episode_is_attempted_six_times() {
    let mut retries = 0u32;
    let mut attempts = 0;
    loop {
        attempts += 1;
        match download_step(retries, EpisodeEvent::DownloadFailed) {
            EpisodeAction::Retry(n) => retries = n,
            EpisodeAction::GiveUp(_) => break,
            EpisodeAction::Done => unreachable!(),
        }
    }
    assert_eq!(attempts, 6);
}

#[test]
fn jobs_are_numbered_from_one() {
    let jobs = plan_episode_jobs(&vec!["1".to_string(), "2".to_string(), "2.5".to_string()]).unwrap();
    assert_eq!(jobs.len(), 3);
    assert_eq!(jobs[2].number, 3);
    assert_eq!(jobs[2].episode, "2.5");
    assert_eq!(jobs[0].file_name, "EP-0001.mp4");
    assert_eq!(jobs[2].file_name, "EP-0003.mp4");
}

#[test]
fn a_show_without_episodes_has_no_jobs() {
    assert!(matches!(plan_episode_jobs(&vec![]), Err(ScrapeError::NoEpisodes)));
    assert_eq!(ScrapeError::NoEpisodes.message(), "No episodes found for the selected show");
}
