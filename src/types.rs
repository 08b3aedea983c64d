//! The catalog's data: configured folders, the entities that a crawl
//! produces, and their mathematical models.

use vstd::prelude::*;
use crate::text::opt_view;

verus! {

/// Connection settings of the application and of the services it syncs with.
#[derive(Clone, Debug)]
pub struct Config {
    pub http_server: String,
    pub ws_url: String,
    pub ftp_host: String,
    pub ftp_port: u16,
    pub ftp_user: String,
    pub ftp_password: String,
    pub app_storage_path: String,
    pub tmdb_api_key: String,
    pub tmdb_language: String,
}

/// What a library folder holds: single-file items or show directories.
#[derive(Clone, Copy, Debug, PartialEq, Eq, Structural)]
pub enum MediaType {
    Movie,
    TvShow,
}

/// One configured root directory on the remote store.
#[derive(Clone, Debug)]
pub struct Folder {
    pub id: i32,
    pub name: String,
    pub path: String,
    pub media_type: MediaType,
}

#[derive(Debug)]
pub struct Genre {
    pub id: i32,
    pub name: String,
}

#[derive(Debug)]
pub struct Movie {
    pub id: i32,
    pub collection_id: Option<i32>,
    pub title: String,
    pub original_title: String,
    pub overview: String,
    pub poster_path: Option<String>,
    pub backdrop_path: Option<String>,
    pub logo_path: Option<String>,
    pub release_date: String,
    pub runtime: i32,
    pub genres: Option<Vec<Genre>>,
    pub path: Option<String>,
}

#[derive(Debug)]
pub struct TvShow {
    pub id: i32,
    pub title: String,
    pub original_title: String,
    pub overview: String,
    pub poster_path: Option<String>,
    pub backdrop_path: Option<String>,
    pub logo_path: Option<String>,
    pub genres: Option<Vec<Genre>>,
    pub seasons: Option<Vec<Season>>,
    pub path: Option<String>,
}

#[derive(Debug)]
pub struct Season {
    pub id: i32,
    pub season_number: i32,
    pub name: String,
    pub overview: String,
    pub episodes: Option<Vec<Episode>>,
    pub poster_path: Option<String>,
    pub path: Option<String>,
}

#[derive(Debug)]
pub struct Episode {
    pub id: i32,
    pub episode_number: i32,
    pub title: String,
    pub overview: String,
    pub air_date: String,
    pub still_path: Option<String>,
    pub runtime: i32,
    pub path: Option<String>,
}

/// The chosen image of each kind for one item.
#[derive(Clone, Debug)]
pub struct ImagesResponse {
    pub backdrop: Option<String>,
    pub logo: Option<String>,
    pub poster: Option<String>,
}

#[derive(Clone, Copy, Debug, PartialEq, Eq, Structural)]
pub enum Role {
    Admin,
    User,
}

#[derive(Clone, Debug)]
pub struct History {
    pub id: i32,
    pub date: String,
    pub title: String,
    pub media_type: MediaType,
    pub watched: bool,
    pub progress: i32,
}

#[derive(Clone, Debug)]
pub struct Profile {
    pub id: i32,
    pub name: String,
    pub password: Option<String>,
    pub role: Role,
    pub history: Option<Vec<History>>,
    pub watchlist: Option<Vec<Folder>>,
    pub favorites: Option<Vec<Folder>>,
}

pub struct GenreModel {
    pub id: i32,
    pub name: Seq<char>,
}

pub struct MovieModel {
    pub id: i32,
    pub collection_id: Option<i32>,
    pub title: Seq<char>,
    pub original_title: Seq<char>,
    pub overview: Seq<char>,
    pub poster_path: Option<Seq<char>>,
    pub backdrop_path: Option<Seq<char>>,
    pub logo_path: Option<Seq<char>>,
    pub release_date: Seq<char>,
    pub runtime: i32,
    pub genres: Option<Seq<GenreModel>>,
    pub path: Option<Seq<char>>,
}

pub struct EpisodeModel {
    pub id: i32,
    pub episode_number: i32,
    pub title: Seq<char>,
    pub overview: Seq<char>,
    pub air_date: Seq<char>,
    pub still_path: Option<Seq<char>>,
    pub runtime: i32,
    pub path: Option<Seq<char>>,
}

pub struct SeasonModel {
    pub id: i32,
    pub season_number: i32,
    pub name: Seq<char>,
    pub overview: Seq<char>,
    pub episodes: Option<Seq<EpisodeModel>>,
    pub poster_path: Option<Seq<char>>,
    pub path: Option<Seq<char>>,
}

pub struct ShowModel {
    pub id: i32,
    pub title: Seq<char>,
    pub original_title: Seq<char>,
    pub overview: Seq<char>,
    pub poster_path: Option<Seq<char>>,
    pub backdrop_path: Option<Seq<char>>,
    pub logo_path: Option<Seq<char>>,
    pub genres: Option<Seq<GenreModel>>,
    pub seasons: Option<Seq<SeasonModel>>,
    pub path: Option<Seq<char>>,
}

/// The models of a list of entities, in order.
pub open spec fn models<T: View>(v: Vec<T>) -> Seq<T::V> {
    v@.map_values(|x: T| x@)
}

pub open spec fn opt_models<T: View>(o: Option<Vec<T>>) -> Option<Seq<T::V>> {
    match o {
        Some(v) => Some(models(v)),
        None => None,
    }
}

impl View for Genre {
    type V = GenreModel;

    open spec fn view(&self) -> GenreModel {
        GenreModel { id: self.id, name: self.name@ }
    }
}

impl View for Movie {
    type V = MovieModel;

    open spec fn view(&self) -> MovieModel {
        MovieModel {
            id: self.id,
            collection_id: self.collection_id,
            title: self.title@,
            original_title: self.original_title@,
            overview: self.overview@,
            poster_path: opt_view(self.poster_path),
            backdrop_path: opt_view(self.backdrop_path),
            logo_path: opt_view(self.logo_path),
            release_date: self.release_date@,
            runtime: self.runtime,
            genres: opt_models(self.genres),
            path: opt_view(self.path),
        }
    }
}

impl View for Episode {
    type V = EpisodeModel;

    open spec fn view(&self) -> EpisodeModel {
        EpisodeModel {
            id: self.id,
            episode_number: self.episode_number,
            title: self.title@,
            overview: self.overview@,
            air_date: self.air_date@,
            still_path: opt_view(self.still_path),
            runtime: self.runtime,
            path: opt_view(self.path),
        }
    }
}

impl View for Season {
    type V = SeasonModel;

    open spec fn view(&self) -> SeasonModel {
        SeasonModel {
            id: self.id,
            season_number: self.season_number,
            name: self.name@,
            overview: self.overview@,
            episodes: opt_models(self.episodes),
            poster_path: opt_view(self.poster_path),
            path: opt_view(self.path),
        }
    }
}

impl View for TvShow {
    type V = ShowModel;

    open spec fn view(&self) -> ShowModel {
        ShowModel {
            id: self.id,
            title: self.title@,
            original_title: self.original_title@,
            overview: self.overview@,
            poster_path: opt_view(self.poster_path),
            backdrop_path: opt_view(self.backdrop_path),
            logo_path: opt_view(self.logo_path),
            genres: opt_models(self.genres),
            seasons: opt_models(self.seasons),
            path: opt_view(self.path),
        }
    }
}

/// A copy of an optional string, equal to it.
pub fn copy_opt_string(o: &Option<String>) -> (r: Option<String>)
    ensures
        r == *o,
{
    match o {
        Some(s) => Some(s.clone()),
        None => None,
    }
}

impl Clone for Genre {
    fn clone(&self) -> (r: Self)
        ensures
            r@ == self@,
    {
        Genre { id: self.id, name: self.name.clone() }
    }
}

impl Clone for Episode {
    fn clone(&self) -> (r: Self)
        ensures
            r@ == self@,
    {
        Episode {
            id: self.id,
            episode_number: self.episode_number,
            title: self.title.clone(),
            overview: self.overview.clone(),
            air_date: self.air_date.clone(),
            still_path: copy_opt_string(&self.still_path),
            runtime: self.runtime,
            path: copy_opt_string(&self.path),
        }
    }
}

fn copy_genres(o: &Option<Vec<Genre>>) -> (r: Option<Vec<Genre>>)
    ensures
        opt_models(r) == opt_models(*o),
{
    match o {
        Some(v) => {
            let c = v.clone();
            assert(models(c) =~= models(*v));
            Some(c)
        },
        None => None,
    }
}

fn copy_episodes(o: &Option<Vec<Episode>>) -> (r: Option<Vec<Episode>>)
    ensures
        opt_models(r) == opt_models(*o),
{
    match o {
        Some(v) => {
            let c = v.clone();
            assert(models(c) =~= models(*v));
            Some(c)
        },
        None => None,
    }
}

impl Clone for Season {
    fn clone(&self) -> (r: Self)
        ensures
            r@ == self@,
    {
        Season {
            id: self.id,
            season_number: self.season_number,
            name: self.name.clone(),
            overview: self.overview.clone(),
            episodes: copy_episodes(&self.episodes),
            poster_path: copy_opt_string(&self.poster_path),
            path: copy_opt_string(&self.path),
        }
    }
}

fn copy_seasons(o: &Option<Vec<Season>>) -> (r: Option<Vec<Season>>)
    ensures
        opt_models(r) == opt_models(*o),
{
    match o {
        Some(v) => {
            let c = v.clone();
            assert(models(c) =~= models(*v));
            Some(c)
        },
        None => None,
    }
}

impl Clone for Movie {
    fn clone(&self) -> (r: Self)
        ensures
            r@ == self@,
    {
        Movie {
            id: self.id,
            collection_id: self.collection_id,
            title: self.title.clone(),
            original_title: self.original_title.clone(),
            overview: self.overview.clone(),
            poster_path: copy_opt_string(&self.poster_path),
            backdrop_path: copy_opt_string(&self.backdrop_path),
            logo_path: copy_opt_string(&self.logo_path),
            release_date: self.release_date.clone(),
            runtime: self.runtime,
            genres: copy_genres(&self.genres),
            path: copy_opt_string(&self.path),
        }
    }
}

impl Clone for TvShow {
    fn clone(&self) -> (r: Self)
        ensures
            r@ == self@,
    {
        TvShow {
            id: self.id,
            title: self.title.clone(),
            original_title: self.original_title.clone(),
            overview: self.overview.clone(),
            poster_path: copy_opt_string(&self.poster_path),
            backdrop_path: copy_opt_string(&self.backdrop_path),
            logo_path: copy_opt_string(&self.logo_path),
            genres: copy_genres(&self.genres),
            seasons: copy_seasons(&self.seasons),
            path: copy_opt_string(&self.path),
        }
    }
}

} // verus!
