//! Metadata resolution: choosing among the provider's search candidates,
//! choosing localized images, and assembling entities from the provider's
//! records. The provider's transport is the caller's.

use vstd::prelude::*;
use crate::text::opt_view;
use crate::types::{Episode, Genre, ImagesResponse, Movie, Season, TvShow};

verus! {

/// The edit distance that the `strsim` crate computes between two strings.
pub uninterp spec fn levenshtein_of(a: Seq<char>, b: Seq<char>) -> nat;

/// Relies on `strsim::levenshtein`: the minimum number of single character
/// insertions, deletions and substitutions that turn `a` into `b`, which is
/// zero exactly for equal strings.
#[verifier::external_body]
fn edit_distance(a: &str, b: &str) -> (r: usize)
    ensures
        r as nat == levenshtein_of(a@, b@),
        r == 0 <==> a@ == b@,
{
    strsim::levenshtein(a, b)
}

/// Why an item could not be resolved.
#[derive(Clone, Copy, Debug, PartialEq, Eq, Structural)]
pub enum ResolveError {
    /// The search returned no candidate.
    NotFound,
    /// A provider response lacked a field or held one of the wrong type.
    Malformed,
    /// The provider could not be reached or answered with a failure.
    Transport,
}

/// One search result of the provider.
#[derive(Clone, Debug)]
pub struct Candidate {
    pub id: i64,
    pub title: String,
}

/// One image of an item's image set: its language tag and its file path.
#[derive(Clone, Debug)]
pub struct Image {
    pub language: Option<String>,
    pub file_path: String,
}

/// The images of an item, by kind.
#[derive(Clone, Debug)]
pub struct ImageSet {
    pub posters: Vec<Image>,
    pub backdrops: Vec<Image>,
    pub logos: Vec<Image>,
}

/// Detail record of a movie.
#[derive(Debug)]
pub struct MovieDetail {
    pub id: i32,
    pub collection_id: Option<i32>,
    pub title: String,
    pub original_title: String,
    pub overview: String,
    pub release_date: String,
    pub runtime: i32,
    pub genres: Option<Vec<Genre>>,
}

/// Detail record of a show.
#[derive(Debug)]
pub struct ShowDetail {
    pub id: i32,
    pub title: String,
    pub original_title: String,
    pub overview: String,
    pub genres: Option<Vec<Genre>>,
}

/// Detail record of a season.
#[derive(Debug)]
pub struct SeasonDetail {
    pub id: i32,
    pub season_number: i32,
    pub name: String,
    pub overview: String,
}

/// Detail record of an episode.
#[derive(Debug)]
pub struct EpisodeDetail {
    pub id: i32,
    pub episode_number: i32,
    pub title: String,
    pub overview: String,
    pub air_date: String,
    pub runtime: i32,
}

/// `k` is the first position of a least value of `d`.
pub open spec fn is_first_min(d: Seq<nat>, k: int) -> bool {
    &&& 0 <= k < d.len()
    &&& forall|j: int| 0 <= j < d.len() ==> d[k] <= #[trigger] d[j]
    &&& forall|j: int| 0 <= j < k ==> d[k] < #[trigger] d[j]
}

/// The distances from the query to each candidate's title.
pub open spec fn distances(query: Seq<char>, c: Seq<Candidate>) -> Seq<nat> {
    c.map_values(|x: Candidate| levenshtein_of(query, x.title@))
}

/// The first position of the least of `distances`, or `None` when there are
/// none.
pub fn closest_index(distances: &Vec<usize>) -> (r: Option<usize>)
    ensures
        r is None <==> distances@.len() == 0,
        r is Some ==> is_first_min(distances@.map_values(|d: usize| d as nat), r->0 as int),
{
    let ghost d = distances@.map_values(|d: usize| d as nat);
    if distances.len() == 0 {
        return None;
    }
    let mut best: usize = 0;
    let mut i: usize = 1;
    while i < distances.len()
        invariant
            d == distances@.map_values(|d: usize| d as nat),
            1 <= i <= distances.len(),
            best < i,
            forall|j: int| 0 <= j < i ==> d[best as int] <= #[trigger] d[j],
            forall|j: int| 0 <= j < best ==> d[best as int] < #[trigger] d[j],
        decreases distances.len() - i,
    {
        if distances[i] < distances[best] {
            best = i;
        }
        i = i + 1;
    }
    Some(best)
}

/// The candidate whose title is closest to the query by edit distance, the
/// first in the given order among equals; `NotFound` when there is none.
pub fn best_match(query: &str, candidates: &Vec<Candidate>) -> (r: Result<usize, ResolveError>)
    ensures
        r is Err <==> candidates@.len() == 0,
        r is Err ==> r->Err_0 == ResolveError::NotFound,
        r is Ok ==> is_first_min(distances(query@, candidates@), r->Ok_0 as int),
        forall|j: int| 0 <= j < candidates@.len() ==>
            (distances(query@, candidates@)[j] == 0 <==> (#[trigger] candidates@[j]).title@ == query@),
{
    let mut ds: Vec<usize> = Vec::new();
    let mut i: usize = 0;
    while i < candidates.len()
        invariant
            i <= candidates.len(),
            ds@.map_values(|d: usize| d as nat) =~= distances(query@, candidates@.take(i as int)),
            ds@.len() == i,
            forall|j: int| 0 <= j < i ==> (ds@[j] == 0 <==> (#[trigger] candidates@[j]).title@ == query@),
        decreases candidates.len() - i,
    {
        let d = edit_distance(query, candidates[i].title.as_str());
        ds.push(d);
        proof {
            assert(distances(query@, candidates@.take(i + 1)) =~= distances(query@, candidates@.take(i as int)).push(d as nat));
        }
        i = i + 1;
    }
    assert(candidates@.take(i as int) =~= candidates@);
    assert(distances(query@, candidates@) == ds@.map_values(|d: usize| d as nat));
    assert forall|j: int| 0 <= j < candidates@.len() implies
        (distances(query@, candidates@)[j] == 0 <==> (#[trigger] candidates@[j]).title@ == query@) by {
        assert(distances(query@, candidates@)[j] == ds@[j] as nat);
    }
    match closest_index(&ds) {
        Some(k) => Ok(k),
        None => Err(ResolveError::NotFound),
    }
}

/// Position of the first image tagged `lang`.
pub open spec fn first_tagged(imgs: Seq<Image>, lang: Seq<char>) -> Option<int>
    decreases imgs.len(),
{
    if imgs.len() == 0 {
        None
    } else if opt_view(imgs[0].language) == Some(lang) {
        Some(0)
    } else {
        match first_tagged(imgs.skip(1), lang) {
            Some(i) => Some(i + 1),
            None => None,
        }
    }
}

/// The file path of the first image tagged with the preferred language,
/// else of the first tagged `en`, else none.
pub open spec fn chosen_image(imgs: Seq<Image>, lang: Seq<char>) -> Option<Seq<char>> {
    match first_tagged(imgs, lang) {
        Some(i) => Some(imgs[i].file_path@),
        None => match first_tagged(imgs, "en"@) {
            Some(i) => Some(imgs[i].file_path@),
            None => None,
        },
    }
}

proof fn lemma_first_tagged(imgs: Seq<Image>, lang: Seq<char>, k: Option<int>)
    requires
        match k {
            Some(i) => 0 <= i < imgs.len() && opt_view(imgs[i].language) == Some(lang)
                && forall|j: int| 0 <= j < i ==> opt_view((#[trigger] imgs[j]).language) != Some(lang),
            None => forall|j: int| 0 <= j < imgs.len() ==> opt_view((#[trigger] imgs[j]).language) != Some(lang),
        },
    ensures
        first_tagged(imgs, lang) == k,
    decreases imgs.len(),
{
    if imgs.len() > 0 && opt_view(imgs[0].language) != Some(lang) {
        let t = imgs.skip(1);
        let k2 = match k {
            Some(i) => Some(i - 1),
            None => None,
        };
        assert forall|j: int| 0 <= j < t.len() implies t[j] == imgs[j + 1] by {}
        lemma_first_tagged(t, lang, k2);
    }
}

fn find_tagged(imgs: &Vec<Image>, lang: &String) -> (r: Option<usize>)
    ensures
        r is None ==> first_tagged(imgs@, lang@) is None,
        r is Some ==> r->0 < imgs.len() && first_tagged(imgs@, lang@) == Some(r->0 as int),
{
    let mut i: usize = 0;
    while i < imgs.len()
        invariant
            i <= imgs.len(),
            forall|j: int| 0 <= j < i ==> opt_view((#[trigger] imgs@[j]).language) != Some(lang@),
        decreases imgs.len() - i,
    {
        let hit = match &imgs[i].language {
            Some(l) => l.eq(lang),
            None => false,
        };
        if hit {
            proof {
                lemma_first_tagged(imgs@, lang@, Some(i as int));
            }
            return Some(i);
        }
        i = i + 1;
    }
    proof {
        lemma_first_tagged(imgs@, lang@, None);
    }
    None
}

/// The image of one kind to show: the first tagged with the preferred
/// language, falling back to the first tagged `en`, else none.
pub fn pick_image(imgs: &Vec<Image>, language: &String) -> (r: Option<String>)
    ensures
        opt_view(r) == chosen_image(imgs@, language@),
{
    match find_tagged(imgs, language) {
        Some(i) => Some(imgs[i].file_path.clone()),
        None => {
            let en = String::from_str("en");
            match find_tagged(imgs, &en) {
                Some(i) => Some(imgs[i].file_path.clone()),
                None => None,
            }
        },
    }
}

/// The chosen poster, backdrop and logo of an image set.
pub fn choose_images(set: &ImageSet, language: &String) -> (r: ImagesResponse)
    ensures
        opt_view(r.poster) == chosen_image(set.posters@, language@),
        opt_view(r.backdrop) == chosen_image(set.backdrops@, language@),
        opt_view(r.logo) == chosen_image(set.logos@, language@),
{
    ImagesResponse {
        backdrop: pick_image(&set.backdrops, language),
        logo: pick_image(&set.logos, language),
        poster: pick_image(&set.posters, language),
    }
}

/// A movie from its detail record and chosen images, with no path yet.
pub fn movie_from(detail: MovieDetail, images: ImagesResponse) -> (r: Movie)
    ensures
        r.id == detail.id,
        r.collection_id == detail.collection_id,
        r.title == detail.title,
        r.original_title == detail.original_title,
        r.overview == detail.overview,
        r.poster_path == images.poster,
        r.backdrop_path == images.backdrop,
        r.logo_path == images.logo,
        r.release_date == detail.release_date,
        r.runtime == detail.runtime,
        r.genres == detail.genres,
        r.path is None,
{
    Movie {
        id: detail.id,
        collection_id: detail.collection_id,
        title: detail.title,
        original_title: detail.original_title,
        overview: detail.overview,
        poster_path: images.poster,
        backdrop_path: images.backdrop,
        logo_path: images.logo,
        release_date: detail.release_date,
        runtime: detail.runtime,
        genres: detail.genres,
        path: None,
    }
}

/// A show from its detail record and chosen images, with no seasons and no
/// path yet.
pub fn show_from(detail: ShowDetail, images: ImagesResponse) -> (r: TvShow)
    ensures
        r.id == detail.id,
        r.title == detail.title,
        r.original_title == detail.original_title,
        r.overview == detail.overview,
        r.poster_path == images.poster,
        r.backdrop_path == images.backdrop,
        r.logo_path == images.logo,
        r.genres == detail.genres,
        r.seasons is None,
        r.path is None,
{
    TvShow {
        id: detail.id,
        title: detail.title,
        original_title: detail.original_title,
        overview: detail.overview,
        poster_path: images.poster,
        backdrop_path: images.backdrop,
        logo_path: images.logo,
        genres: detail.genres,
        seasons: None,
        path: None,
    }
}

/// A season from its detail record and its posters, with no episodes and no
/// path yet.
pub fn season_from(detail: SeasonDetail, posters: &Vec<Image>, language: &String) -> (r: Season)
    ensures
        r.id == detail.id,
        r.season_number == detail.season_number,
        r.name == detail.name,
        r.overview == detail.overview,
        opt_view(r.poster_path) == chosen_image(posters@, language@),
        r.episodes is None,
        r.path is None,
{
    Season {
        id: detail.id,
        season_number: detail.season_number,
        name: detail.name,
        overview: detail.overview,
        episodes: None,
        poster_path: pick_image(posters, language),
        path: None,
    }
}

/// An episode from its detail record and its stills, with no path yet.
pub fn episode_from(detail: EpisodeDetail, stills: &Vec<Image>, language: &String) -> (r: Episode)
    ensures
        r.id == detail.id,
        r.episode_number == detail.episode_number,
        r.title == detail.title,
        r.overview == detail.overview,
        r.air_date == detail.air_date,
        opt_view(r.still_path) == chosen_image(stills@, language@),
        r.runtime == detail.runtime,
        r.path is None,
{
    Episode {
        id: detail.id,
        episode_number: detail.episode_number,
        title: detail.title,
        overview: detail.overview,
        air_date: detail.air_date,
        still_path: pick_image(stills, language),
        runtime: detail.runtime,
        path: None,
    }
}

} // verus!
