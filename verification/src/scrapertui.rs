//! The decisions taken while downloading every episode of a show: which
//! episodes to fetch under which names, which link of an episode to take,
//! and when to try again.

use vstd::prelude::*;
use crate::allanime::{copy_link, links_view, EpisodeLink, EpisodeLinkView};
use crate::download::{episode_file_name, episode_file_name_spec, lemma_episode_file_names_distinct};
use crate::error::ScrapeError;
use crate::json::copy_string;

verus! {

/// How many times a failed step of an episode's download is tried again.
pub const MAX_RETRIES: u32 = 5;

/// The width to which episode numbers are padded in file names.
pub const EPISODE_NUMBER_WIDTH: usize = 4;

/// The quality by which links are compared: none counts as zero.
pub open spec fn quality_key(l: EpisodeLinkView) -> u32 {
    match l.quality {
        Some(q) => q,
        None => 0,
    }
}

/// Whether some link is not an HLS playlist.
pub open spec fn has_direct_link(links: Seq<EpisodeLinkView>) -> bool {
    exists|i: int| 0 <= i < links.len() && !(#[trigger] links[i]).is_m3u8
}

/// The links to choose from: the direct ones where there are any, else all.
pub open spec fn candidate_links(links: Seq<EpisodeLinkView>, direct_only: bool) -> Seq<EpisodeLinkView> {
    if direct_only {
        links.filter(|l: EpisodeLinkView| !l.is_m3u8)
    } else {
        links
    }
}

/// The first link of the highest quality among `cands`.
pub open spec fn best_of(cands: Seq<EpisodeLinkView>) -> Option<EpisodeLinkView>
    decreases cands.len(),
{
    if cands.len() == 0 {
        None
    } else {
        match best_of(cands.drop_last()) {
            None => Some(cands.last()),
            Some(b) => if quality_key(cands.last()) > quality_key(b) {
                Some(cands.last())
            } else {
                Some(b)
            },
        }
    }
}

/// The link that an episode is downloaded from.
pub open spec fn best_link_spec(links: Seq<EpisodeLinkView>) -> Option<EpisodeLinkView> {
    best_of(candidate_links(links, has_direct_link(links)))
}

pub open spec fn opt_link_view(l: Option<EpisodeLink>) -> Option<EpisodeLinkView> {
    match l {
        Some(x) => Some(x@),
        None => None,
    }
}

/// The link to download an episode from: among the direct links where
/// there are any, else among all, the first of the highest quality.
pub fn select_best_link(links: &Vec<EpisodeLink>) -> (r: Option<EpisodeLink>)
    ensures
        opt_link_view(r) == best_link_spec(links_view(links@)),
{
    let n = links.len();
    let mut direct_only = false;
    for i in 0..n
        invariant
            n == links.len(),
            direct_only <==> exists|j: int| 0 <= j < i && !(#[trigger] links_view(links@)[j]).is_m3u8,
    {
        if !links[i].is_m3u8 {
            assert(!links_view(links@)[i as int].is_m3u8);
            direct_only = true;
        }
    }
    let ghost all = links_view(links@);
    assert(direct_only == has_direct_link(all));
    let mut best: Option<EpisodeLink> = None;
    for i in 0..n
        invariant
            n == links.len(),
            all == links_view(links@),
            opt_link_view(best) == best_of(candidate_links(all.take(i as int), direct_only)),
    {
        let ghost t = all.take(i + 1);
        assert(t.drop_last() =~= all.take(i as int));
        assert(t.last() == links@[i as int]@);
        proof {
            reveal_with_fuel(Seq::<_>::filter, 1);
        }
        let link = &links[i];
        if !direct_only || !link.is_m3u8 {
            let take = match &best {
                None => true,
                Some(current) => {
                    let current_quality = match current.quality {
                        Some(q) => q,
                        None => 0,
                    };
                    let new_quality = match link.quality {
                        Some(q) => q,
                        None => 0,
                    };
                    new_quality > current_quality
                },
            };
            assert(candidate_links(t, direct_only) =~= candidate_links(
                all.take(i as int),
                direct_only,
            ).push(t.last()));
            assert(candidate_links(t, direct_only).drop_last() =~= candidate_links(
                all.take(i as int),
                direct_only,
            ));
            if take {
                best = Some(copy_link(link));
            }
        } else {
            assert(candidate_links(t, direct_only) =~= candidate_links(
                all.take(i as int),
                direct_only,
            ));
        }
    }
    assert(all.take(n as int) =~= all);
    best
}

/// The chosen link is one of the candidates, no candidate is better, and
/// every candidate before it is worse: it is the first best.
pub proof fn lemma_best_of_is_first_best(cands: Seq<EpisodeLinkView>)
    ensures
        best_of(cands) is Some <==> cands.len() > 0,
        best_of(cands) matches Some(b) ==> exists|i: int|
            0 <= i < cands.len() && cands[i] == b && (forall|j: int|
                0 <= j < cands.len() ==> quality_key(#[trigger] cands[j]) <= quality_key(b)) && (
            forall|j: int| 0 <= j < i ==> quality_key(#[trigger] cands[j]) < quality_key(b)),
    decreases cands.len(),
{
    if cands.len() > 0 {
        let prev = cands.drop_last();
        lemma_best_of_is_first_best(prev);
        let last = cands.last();
        match best_of(prev) {
            None => {
                assert(prev.len() == 0);
                assert(cands[0] == last);
            },
            Some(b) => {
                let i = choose|i: int|
                    0 <= i < prev.len() && prev[i] == b && (forall|j: int|
                        0 <= j < prev.len() ==> quality_key(#[trigger] prev[j]) <= quality_key(b))
                        && (forall|j: int| 0 <= j < i ==> quality_key(#[trigger] prev[j]) < quality_key(b));
                if quality_key(last) > quality_key(b) {
                    let k = cands.len() - 1;
                    assert(cands[k] == last);
                    assert forall|j: int| 0 <= j < cands.len() implies quality_key(#[trigger] cands[j])
                        <= quality_key(last) by {
                        if j < k {
                            assert(cands[j] == prev[j]);
                        }
                    }
                    assert forall|j: int| 0 <= j < k implies quality_key(#[trigger] cands[j])
                        < quality_key(last) by {
                        assert(cands[j] == prev[j]);
                    }
                } else {
                    assert(cands[i] == b);
                    assert forall|j: int| 0 <= j < cands.len() implies quality_key(#[trigger] cands[j])
                        <= quality_key(b) by {
                        if j < cands.len() - 1 {
                            assert(cands[j] == prev[j]);
                        }
                    }
                    assert forall|j: int| 0 <= j < i implies quality_key(#[trigger] cands[j])
                        < quality_key(b) by {
                        assert(cands[j] == prev[j]);
                    }
                }
            },
        }
    }
}

/// Whether a link may be taken when only direct links are (`direct_only`).
pub open spec fn may_take(l: EpisodeLinkView, direct_only: bool) -> bool {
    !direct_only || !l.is_m3u8
}

/// The first link of the highest quality among those of `links` that may be
/// taken, found in `links` itself.
proof fn lemma_best_of_candidates(links: Seq<EpisodeLinkView>, direct_only: bool)
    ensures
        best_of(candidate_links(links, direct_only)) is Some <==> exists|j: int|
            0 <= j < links.len() && may_take(#[trigger] links[j], direct_only),
        best_of(candidate_links(links, direct_only)) matches Some(b) ==> exists|i: int|
            0 <= i < links.len() && links[i] == b && may_take(b, direct_only) && (forall|j: int|
                0 <= j < links.len() && may_take(#[trigger] links[j], direct_only) ==> quality_key(
                    links[j],
                ) <= quality_key(b)) && (forall|j: int|
                0 <= j < i && may_take(#[trigger] links[j], direct_only) ==> quality_key(links[j])
                    < quality_key(b)),
    decreases links.len(),
{
    if links.len() > 0 {
        let p = links.drop_last();
        let e = links.last();
        let k = links.len() - 1;
        lemma_best_of_candidates(p, direct_only);
        assert(links == p.push(e));
        assert(links[k] == e);
        assert(forall|j: int| 0 <= j < k ==> links[j] == p[j]);
        p.lemma_filter_push(e, |l: EpisodeLinkView| !l.is_m3u8);
        let c = candidate_links(p, direct_only);
        if may_take(e, direct_only) {
            assert(candidate_links(links, direct_only) == c.push(e));
            assert(c.push(e).drop_last() == c);
            match best_of(c) {
                None => {
                    assert(best_of(candidate_links(links, direct_only)) == Some(e));
                    assert forall|j: int|
                        0 <= j < links.len() && may_take(#[trigger] links[j], direct_only) implies j
                        == k by {
                        if j < k {
                            assert(may_take(p[j], direct_only));
                        }
                    }
                },
                Some(b) => {
                    let i = choose|i: int|
                        0 <= i < p.len() && p[i] == b && may_take(b, direct_only) && (forall|j: int|
                            0 <= j < p.len() && may_take(#[trigger] p[j], direct_only) ==> quality_key(
                                p[j],
                            ) <= quality_key(b)) && (forall|j: int|
                            0 <= j < i && may_take(#[trigger] p[j], direct_only) ==> quality_key(p[j])
                                < quality_key(b));
                    if quality_key(e) > quality_key(b) {
                        assert(best_of(candidate_links(links, direct_only)) == Some(e));
                        assert forall|j: int|
                            0 <= j < links.len() && may_take(#[trigger] links[j], direct_only) implies quality_key(
                            links[j],
                        ) <= quality_key(e) by {
                            if j < k {
                                assert(may_take(p[j], direct_only));
                            }
                        }
                        assert forall|j: int|
                            0 <= j < k && may_take(#[trigger] links[j], direct_only) implies quality_key(
                            links[j],
                        ) < quality_key(e) by {
                            assert(may_take(p[j], direct_only));
                        }
                    } else {
                        assert(best_of(candidate_links(links, direct_only)) == Some(b));
                        assert(links[i] == b);
                        assert forall|j: int|
                            0 <= j < links.len() && may_take(#[trigger] links[j], direct_only) implies quality_key(
                            links[j],
                        ) <= quality_key(b) by {
                            if j < k {
                                assert(may_take(p[j], direct_only));
                            }
                        }
                        assert forall|j: int|
                            0 <= j < i && may_take(#[trigger] links[j], direct_only) implies quality_key(
                            links[j],
                        ) < quality_key(b) by {
                            assert(may_take(p[j], direct_only));
                        }
                    }
                },
            }
        } else {
            assert(candidate_links(links, direct_only) == c);
            assert forall|j: int|
                0 <= j < links.len() && may_take(#[trigger] links[j], direct_only) implies j < k
                && may_take(p[j], direct_only) by {}
            if let Some(b) = best_of(c) {
                let i = choose|i: int|
                    0 <= i < p.len() && p[i] == b && may_take(b, direct_only) && (forall|j: int|
                        0 <= j < p.len() && may_take(#[trigger] p[j], direct_only) ==> quality_key(
                            p[j],
                        ) <= quality_key(b)) && (forall|j: int|
                        0 <= j < i && may_take(#[trigger] p[j], direct_only) ==> quality_key(p[j])
                            < quality_key(b));
                assert(links[i] == b);
                assert forall|j: int|
                    0 <= j < i && may_take(#[trigger] links[j], direct_only) implies quality_key(
                    links[j],
                ) < quality_key(b) by {
                    assert(may_take(p[j], direct_only));
                }
            }
            if exists|j: int| 0 <= j < links.len() && may_take(#[trigger] links[j], direct_only) {
                let j = choose|j: int| 0 <= j < links.len() && may_take(#[trigger] links[j], direct_only);
                assert(may_take(p[j], direct_only));
            }
        }
    }
}

/// A link is chosen exactly when there is one. Whenever some link is not an
/// HLS playlist, the chosen link is not one either. The chosen link is one
/// of the links, no link to choose from (a direct one, or any where the
/// chosen one is a playlist) has a higher quality, and the chosen one comes
/// first among those of its quality.
pub proof fn lemma_best_link_choice(links: Seq<EpisodeLinkView>)
    ensures
        best_link_spec(links) is Some <==> links.len() > 0,
        (exists|i: int| 0 <= i < links.len() && !(#[trigger] links[i]).is_m3u8) ==> (best_link_spec(
            links,
        ) matches Some(b) && !b.is_m3u8),
        best_link_spec(links) matches Some(b) ==> exists|i: int|
            0 <= i < links.len() && links[i] == b && (forall|j: int|
                0 <= j < links.len() && (!(#[trigger] links[j]).is_m3u8 || b.is_m3u8) ==> quality_key(
                    links[j],
                ) <= quality_key(b)) && (forall|j: int|
                0 <= j < i && (!(#[trigger] links[j]).is_m3u8 || b.is_m3u8) ==> quality_key(links[j])
                    < quality_key(b)),
{
    let direct = has_direct_link(links);
    lemma_best_of_candidates(links, direct);
    if links.len() > 0 {
        if direct {
            let w = choose|i: int| 0 <= i < links.len() && !(#[trigger] links[i]).is_m3u8;
            assert(may_take(links[w], direct));
        } else {
            assert(may_take(links[0], direct));
        }
    }
    if let Some(b) = best_link_spec(links) {
        let i = choose|i: int|
            0 <= i < links.len() && links[i] == b && may_take(b, direct) && (forall|j: int|
                0 <= j < links.len() && may_take(#[trigger] links[j], direct) ==> quality_key(links[j])
                    <= quality_key(b)) && (forall|j: int|
                0 <= j < i && may_take(#[trigger] links[j], direct) ==> quality_key(links[j])
                    < quality_key(b));
        if direct {
            assert(!b.is_m3u8);
            assert forall|j: int|
                0 <= j < links.len() && (!(#[trigger] links[j]).is_m3u8 || b.is_m3u8) implies may_take(
                links[j],
                direct,
            ) by {}
        } else {
            assert(b.is_m3u8) by {
                assert(!(!links[i].is_m3u8));
            }
            assert forall|j: int|
                0 <= j < links.len() && (!(#[trigger] links[j]).is_m3u8 || b.is_m3u8) implies may_take(
                links[j],
                direct,
            ) by {}
        }
        assert(forall|j: int|
            0 <= j < links.len() && (!(#[trigger] links[j]).is_m3u8 || b.is_m3u8) ==> quality_key(
                links[j],
            ) <= quality_key(b));
        assert(forall|j: int|
            0 <= j < i && (!(#[trigger] links[j]).is_m3u8 || b.is_m3u8) ==> quality_key(links[j])
                < quality_key(b));
    }
}

/// What happened in one attempt at an episode.
pub enum EpisodeEvent {
    /// The provider links could not be fetched.
    LinksFailed,
    /// The providers offered no link.
    NoLink,
    /// The download of the chosen link failed.
    DownloadFailed,
    /// The episode was downloaded.
    Downloaded,
}

/// What to do after an attempt at an episode.
pub enum EpisodeAction {
    /// Try again; this many attempts have failed so far.
    Retry(u32),
    /// Give up on the episode with this error.
    GiveUp(ScrapeError),
    /// The episode is done.
    Done,
}

/// The decision after an attempt at an episode, `retry_count` attempts
/// having failed before it: a failure is tried again until `MAX_RETRIES`
/// failures have been retried, then the episode is given up.
pub fn download_step(retry_count: u32, event: EpisodeEvent) -> (a: EpisodeAction)
    ensures
        event is Downloaded ==> a is Done,
        !(event is Downloaded) && retry_count < MAX_RETRIES ==> a == EpisodeAction::Retry(
            (retry_count + 1) as u32,
        ),
        !(event is Downloaded) && retry_count >= MAX_RETRIES && event is DownloadFailed ==> a
            == EpisodeAction::GiveUp(ScrapeError::DownloadRetriesExhausted),
        !(event is Downloaded) && retry_count >= MAX_RETRIES && !(event is DownloadFailed) ==> a
            == EpisodeAction::GiveUp(ScrapeError::NoVideoUrl),
{
    match event {
        EpisodeEvent::Downloaded => EpisodeAction::Done,
        EpisodeEvent::DownloadFailed => {
            if retry_count >= MAX_RETRIES {
                EpisodeAction::GiveUp(ScrapeError::DownloadRetriesExhausted)
            } else {
                EpisodeAction::Retry(retry_count + 1)
            }
        },
        _ => {
            if retry_count >= MAX_RETRIES {
                EpisodeAction::GiveUp(ScrapeError::NoVideoUrl)
            } else {
                EpisodeAction::Retry(retry_count + 1)
            }
        },
    }
}

/// The number of attempts made at an episode that fails every time, from
/// `retry_count` failures on.
pub open spec fn attempts_when_failing(retry_count: nat) -> nat
    decreases MAX_RETRIES - retry_count,
{
    if retry_count >= MAX_RETRIES {
        1
    } else {
        1 + attempts_when_failing(retry_count + 1)
    }
}

/// An episode that fails every time is attempted `MAX_RETRIES + 1` times.
pub proof fn lemma_attempts_bounded()
    ensures
        attempts_when_failing(0) == MAX_RETRIES + 1,
{
    reveal_with_fuel(attempts_when_failing, 7);
}

/// A download to make: the episode's number, its label, its file name.
pub struct EpisodeJob {
    pub number: u32,
    pub episode: String,
    pub file_name: String,
}

/// The downloads to make for the episodes `episodes` of a show, numbered
/// from one in the order of the list, or `NoEpisodes` for an empty list.
pub fn plan_episode_jobs(episodes: &Vec<String>) -> (r: Result<Vec<EpisodeJob>, ScrapeError>)
    requires
        episodes.len() < u32::MAX,
    ensures
        episodes.len() == 0 <==> r == Err::<Vec<EpisodeJob>, ScrapeError>(ScrapeError::NoEpisodes),
        r is Ok <==> episodes.len() > 0,
        r matches Ok(jobs) ==> jobs.len() == episodes.len() && forall|i: int|
            0 <= i < jobs.len() ==> {
                &&& (#[trigger] jobs[i]).number == i + 1
                &&& jobs[i].episode@ == episodes[i]@
                &&& jobs[i].file_name@ == episode_file_name_spec(
                    (i + 1) as nat,
                    EPISODE_NUMBER_WIDTH as nat,
                )
            },
{
    if episodes.len() == 0 {
        return Err(ScrapeError::NoEpisodes);
    }
    let mut jobs: Vec<EpisodeJob> = Vec::new();
    let n = episodes.len();
    for i in 0..n
        invariant
            n == episodes.len(),
            n < u32::MAX,
            jobs.len() == i,
            forall|k: int|
                0 <= k < i ==> {
                    &&& (#[trigger] jobs[k]).number == k + 1
                    &&& jobs[k].episode@ == episodes[k]@
                    &&& jobs[k].file_name@ == episode_file_name_spec(
                        (k + 1) as nat,
                        EPISODE_NUMBER_WIDTH as nat,
                    )
                },
    {
        let number = (i as u32) + 1;
        jobs.push(
            EpisodeJob {
                number,
                episode: copy_string(&episodes[i]),
                file_name: episode_file_name(number, EPISODE_NUMBER_WIDTH),
            },
        );
    }
    Ok(jobs)
}

/// The planned downloads write to distinct files.
pub proof fn lemma_planned_file_names_distinct(jobs: Seq<EpisodeJob>)
    requires
        forall|i: int|
            0 <= i < jobs.len() ==> (#[trigger] jobs[i]).file_name@ == episode_file_name_spec(
                (i + 1) as nat,
                EPISODE_NUMBER_WIDTH as nat,
            ),
    ensures
        forall|i: int, j: int|
            0 <= i < jobs.len() && 0 <= j < jobs.len() && i != j ==> (#[trigger] jobs[i]).file_name@
                != (#[trigger] jobs[j]).file_name@,
{
    assert forall|i: int, j: int|
        0 <= i < jobs.len() && 0 <= j < jobs.len() && i != j implies (#[trigger] jobs[i]).file_name@
        != (#[trigger] jobs[j]).file_name@ by {
        lemma_episode_file_names_distinct((i + 1) as nat, (j + 1) as nat, EPISODE_NUMBER_WIDTH as nat);
    }
}

} // verus!
