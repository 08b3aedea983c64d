use homestream::movies::{MovieCrawl, MovieQuery, MovieStep};
use homestream::shows::{EpisodeQuery, SeasonQuery, ShowCrawl, ShowQuery, ShowStep};
use homestream::types::{Episode, Movie, Season, TvShow};

fn names(v: &[&str]) -> Vec<String> {
    v.iter().map(|s| s.to_string()).collect()
}

fn movie_tree(path: &str) -> Option<Vec<String>> {
    match path {
        "/movies" => Some(names(&[".", "..", "Inception 2010.mkv", "Nolan", "Broken", "Heat.avi"])),
        "/movies/Nolan" => Some(names(&[".", "..", "Memento 2000.mkv", "Nolan"])),
        "/movies/Nolan/Nolan" => Some(names(&[".", "..", "Tenet 2020.mp4"])),
        _ => None,
    }
}

fn fake_movie(q: &MovieQuery, id: i32) -> Movie {
    Movie {
        id,
        collection_id: None,
        title: q.title.clone(),
        original_title: q.title.clone(),
        overview: String::new(),
        poster_path: None,
        backdrop_path: None,
        logo_path: None,
        release_date: q.year.clone().unwrap_or_default(),
        runtime: 100,
        genres: Some(Vec::new()),
        path: None,
    }
}

fn run_movies(cache: Vec<Movie>, calls: &mut Vec<String>, fail: &[&str]) -> Vec<Movie> {
    let mut crawl = MovieCrawl::new("/movies".to_string(), cache);
    let mut steps = 0;
    loop {
        steps += 1;
        assert!(steps < 1000);
        match crawl.next_step() {
            MovieStep::List(d) => crawl.on_listing(movie_tree(&d)),
            MovieStep::Resolve(q) => {
                calls.push(q.path.clone());
                let failed = fail.contains(&q.title.as_str());
                let id = calls.len() as i32;
                crawl.on_resolved(if failed { None } else { Some(fake_movie(&q, id)) });
            },
            MovieStep::Done => break,
        }
    }
    crawl.into_movies()
}

fn by_path(v: &[Movie]) -> Vec<String> {
    v.iter().map(|m| m.path.clone().unwrap()).collect()
}

#[test]
fn movie_crawl_resolves_every_file_with_its_path() {
    let mut calls = Vec::new();
    let movies = run_movies(Vec::new(), &mut calls, &[]);
    assert_eq!(calls.len(), 4);
    let mut paths = by_path(&movies);
    paths.sort();
    assert_eq!(
        paths,
        vec!["/movies/Heat.avi", "/movies/Inception 2010.mkv", "/movies/Nolan/Memento 2000.mkv", "/movies/Nolan/Nolan/Tenet 2020.mp4"]
    );
    let inception = movies.iter().find(|m| m.path.as_deref() == Some("/movies/Inception 2010.mkv")).unwrap();
    assert_eq!(inception.title, "Inception");
    assert_eq!(inception.release_date, "2010");
    let heat = movies.iter().find(|m| m.path.as_deref() == Some("/movies/Heat.avi")).unwrap();
    assert_eq!(heat.title, "Heat");
    assert_eq!(heat.release_date, "");
}

#[test]
fn second_movie_crawl_is_identical_and_calls_nothing() {
    let mut calls = Vec::new();
    let first = run_movies(Vec::new(), &mut calls, &[]);
    let mut again = Vec::new();
    let second = run_movies(first.clone(), &mut again, &[]);
    assert!(again.is_empty());
    assert_eq!(format!("{:?}", first), format!("{:?}", second));
}

#[test]
fn cached_files_are_never_resolved() {
    let mut calls = Vec::new();
    let first = run_movies(Vec::new(), &mut calls, &[]);
    let cache: Vec<Movie> = first.into_iter().filter(|m| m.title == "Memento" || m.title == "Heat").collect();
    let mut again = Vec::new();
    let second = run_movies(cache, &mut again, &[]);
    again.sort();
    assert_eq!(again, vec!["/movies/Inception 2010.mkv", "/movies/Nolan/Nolan/Tenet 2020.mp4"]);
    assert_eq!(second.len(), 4);
}

#[test]
fn failed_resolution_skips_only_that_file() {
    let mut calls = Vec::new();
    let movies = run_movies(Vec::new(), &mut calls, &["Memento"]);
    assert_eq!(calls.len(), 4);
    assert_eq!(movies.len(), 3);
    assert!(movies.iter().all(|m| m.title != "Memento"));
}

fn show_tree(path: &str) -> Option<Vec<String>> {
    match path {
        "/tv" => Some(names(&[".", "..", "Breaking Bad 2008", "notes.txt", "Lost"])),
        "/tv/Breaking Bad 2008" => Some(names(&[".", "..", "Season 01", "Season 02", "Extras", "poster.jpg"])),
        "/tv/Breaking Bad 2008/Season 01" => Some(names(&[".", "..", "S01E01.mkv", "S01E02.mkv", "Bonus"])),
        "/tv/Breaking Bad 2008/Season 01/Bonus" => Some(names(&["S01E03.mkv", "readme"])),
        "/tv/Breaking Bad 2008/Season 02" => Some(names(&["S02E01.mkv", "trailer.mkv"])),
        "/tv/Lost" => Some(names(&["Season 1"])),
        "/tv/Lost/Season 1" => None,
        _ => None,
    }
}

fn fake_show(q: &ShowQuery, id: i32) -> TvShow {
    TvShow {
        id,
        title: q.title.clone(),
        original_title: q.title.clone(),
        overview: q.year.clone().unwrap_or_default(),
        poster_path: None,
        backdrop_path: None,
        logo_path: None,
        genres: None,
        seasons: None,
        path: None,
    }
}

fn fake_season(q: &SeasonQuery, id: i32) -> Season {
    Season {
        id,
        season_number: q.season_number,
        name: format!("Season {}", q.season_number),
        overview: format!("show {}", q.show_id),
        episodes: None,
        poster_path: None,
        path: None,
    }
}

fn fake_episode(q: &EpisodeQuery, id: i32) -> Episode {
    Episode {
        id,
        episode_number: q.episode_number,
        title: format!("{}x{}", q.season_number, q.episode_number),
        overview: format!("show {}", q.show_id),
        air_date: String::new(),
        still_path: None,
        runtime: 47,
        path: None,
    }
}

fn run_shows(cache: Vec<TvShow>, calls: &mut Vec<String>) -> Vec<TvShow> {
    let mut crawl = ShowCrawl::new("/tv".to_string(), cache);
    let mut steps = 0;
    loop {
        steps += 1;
        assert!(steps < 1000);
        match crawl.next_step() {
            ShowStep::List(d) => crawl.on_listing(show_tree(&d)),
            ShowStep::ResolveShow(q) => {
                calls.push(q.path.clone());
                let id = 1000 + calls.len() as i32;
                crawl.on_show(Some(fake_show(&q, id)));
            },
            ShowStep::ResolveSeason(q) => {
                calls.push(q.path.clone());
                let id = 2000 + calls.len() as i32;
                crawl.on_season(Some(fake_season(&q, id)));
            },
            ShowStep::ResolveEpisode(q) => {
                calls.push(q.path.clone());
                let id = 3000 + calls.len() as i32;
                crawl.on_episode(Some(fake_episode(&q, id)));
            },
            ShowStep::Done => break,
        }
    }
    crawl.into_shows()
}

#[test]
fn show_crawl_builds_the_tree() {
    let mut calls = Vec::new();
    let shows = run_shows(Vec::new(), &mut calls);
    assert_eq!(shows.len(), 2);
    let bb = shows.iter().find(|s| s.title == "Breaking Bad").unwrap();
    assert_eq!(bb.overview, "2008");
    assert_eq!(bb.path.as_deref(), Some("/tv/Breaking Bad 2008"));
    let seasons = bb.seasons.as_ref().unwrap();
    assert_eq!(seasons.len(), 2);
    let s1 = seasons.iter().find(|s| s.season_number == 1).unwrap();
    let mut eps: Vec<(i32, String)> =
        s1.episodes.as_ref().unwrap().iter().map(|e| (e.episode_number, e.path.clone().unwrap())).collect();
    eps.sort();
    assert_eq!(
        eps,
        vec![
            (1, "/tv/Breaking Bad 2008/Season 01/S01E01.mkv".to_string()),
            (2, "/tv/Breaking Bad 2008/Season 01/S01E02.mkv".to_string()),
            (3, "/tv/Breaking Bad 2008/Season 01/Bonus/S01E03.mkv".to_string()),
        ]
    );
    let s2 = seasons.iter().find(|s| s.season_number == 2).unwrap();
    assert_eq!(s2.episodes.as_ref().unwrap().len(), 1);
    assert_eq!(s2.overview, format!("show {}", bb.id));
    let lost = shows.iter().find(|s| s.title == "Lost").unwrap();
    let lost_seasons = lost.seasons.as_ref().unwrap();
    assert_eq!(lost_seasons.len(), 1);
    assert!(lost_seasons[0].episodes.as_ref().unwrap().is_empty());
}

#[test]
fn seasons_and_episodes_lie_below_their_parents() {
    let mut calls = Vec::new();
    let shows = run_shows(Vec::new(), &mut calls);
    for show in &shows {
        let sp = format!("{}/", show.path.as_ref().unwrap());
        for season in show.seasons.as_ref().unwrap() {
            let zp = season.path.as_ref().unwrap();
            assert!(zp.starts_with(&sp));
            let zp = format!("{}/", zp);
            for e in season.episodes.as_ref().unwrap() {
                assert!(e.path.as_ref().unwrap().starts_with(&zp));
            }
        }
    }
}

#[test]
fn second_show_crawl_is_identical_and_calls_nothing() {
    let mut calls = Vec::new();
    let first = run_shows(Vec::new(), &mut calls);
    assert_eq!(calls.len(), 2 + 3 + 4);
    let mut again = Vec::new();
    let second = run_shows(first.clone(), &mut again);
    assert!(again.is_empty());
    assert_eq!(format!("{:?}", first), format!("{:?}", second));
}

#[test]
fn miss_at_a_show_resolves_its_whole_subtree() {
    let mut calls = Vec::new();
    let first = run_shows(Vec::new(), &mut calls);
    let mut cache = first.clone();
    for s in cache.iter_mut() {
        if s.title == "Breaking Bad" {
            s.path = Some("/tv/Elsewhere".to_string());
        }
    }
    let mut again = Vec::new();
    run_shows(cache, &mut again);
    assert_eq!(again.len(), 1 + 2 + 4);
    assert!(again.iter().all(|p| p.starts_with("/tv/Breaking Bad 2008")));
}

fn dup_tree(path: &str) -> Option<Vec<String>> {
    match path {
        "/tv" => Some(names(&["Lost"])),
        "/tv/Lost" => Some(names(&["Season 1"])),
        "/tv/Lost/Season 1" => Some(names(&["S01E01.mkv", "S01E01.mkv", "S01E02.mkv"])),
        _ => None,
    }
}

#[test]
fn repeated_episode_file_is_taken_once() {
    let mut crawl = ShowCrawl::new("/tv".to_string(), Vec::new());
    let mut calls = 0;
    loop {
        match crawl.next_step() {
            ShowStep::List(d) => crawl.on_listing(dup_tree(&d)),
            ShowStep::ResolveShow(q) => crawl.on_show(Some(fake_show(&q, 1))),
            ShowStep::ResolveSeason(q) => crawl.on_season(Some(fake_season(&q, 2))),
            ShowStep::ResolveEpisode(q) => {
                calls += 1;
                crawl.on_episode(Some(fake_episode(&q, 3)));
            },
            ShowStep::Done => break,
        }
    }
    let shows = crawl.into_shows();
    let eps = shows[0].seasons.as_ref().unwrap()[0].episodes.as_ref().unwrap();
    assert_eq!(calls, 2);
    assert_eq!(eps.len(), 2);
    assert_ne!(eps[0].path, eps[1].path);
}
