use homestream::resolve::{
    best_match, choose_images, closest_index, episode_from, movie_from, pick_image, season_from, show_from, Candidate,
    EpisodeDetail, Image, ImageSet, MovieDetail, ResolveError, SeasonDetail, ShowDetail,
};
use homestream::types::{Genre, ImagesResponse};

fn candidates(titles: &[&str]) -> Vec<Candidate> {
    titles.iter().enumerate().map(|(i, t)| Candidate { id: 100 + i as i64, title: t.to_string() }).collect()
}

fn image(lang: Option<&str>, path: &str) -> Image {
    Image { language: lang.map(|l| l.to_string()), file_path: path.to_string() }
}

#[test]
fn exact_title_is_the_best_match() {
    let c = candidates(&["Inceptions", "Inception", "Incepption"]);
    assert_eq!(best_match("Inception", &c), Ok(1));
    let c = candidates(&["Inception", "Inceptions", "Incepption"]);
    assert_eq!(best_match("Inception", &c), Ok(0));
}

#[test]
fn first_candidate_wins_a_tie() {
    let c = candidates(&["Inceptiom", "Inceptiox", "Inception"]);
    assert_eq!(best_match("Inceptio", &c), Ok(0));
    let c = candidates(&["Incepti0n", "Incepti1n"]);
    assert_eq!(best_match("Inception", &c), Ok(0));
}

#[test]
fn closest_by_edit_distance() {
    let c = candidates(&["kitten", "sitting", "mitten"]);
    assert_eq!(best_match("sittin", &c), Ok(1));
}

#[test]
fn no_candidate_is_not_found() {
    assert_eq!(best_match("Inception", &Vec::new()), Err(ResolveError::NotFound));
}

#[test]
fn least_distance_first_position() {
    assert_eq!(closest_index(&vec![3, 1, 2, 1]), Some(1));
    assert_eq!(closest_index(&vec![0]), Some(0));
    assert_eq!(closest_index(&vec![]), None);
}

#[test]
fn preferred_language_image_first() {
    let imgs = vec![image(Some("en"), "/en.jpg"), image(None, "/none.jpg"), image(Some("fr"), "/fr1.jpg"), image(Some("fr"), "/fr2.jpg")];
    assert_eq!(pick_image(&imgs, &"fr".to_string()), Some("/fr1.jpg".to_string()));
}

#[test]
fn english_image_as_fallback() {
    let imgs = vec![image(Some("de"), "/de.jpg"), image(Some("en"), "/en1.jpg"), image(Some("en"), "/en2.jpg")];
    assert_eq!(pick_image(&imgs, &"fr".to_string()), Some("/en1.jpg".to_string()));
}

#[test]
fn no_matching_image() {
    let imgs = vec![image(Some("de"), "/de.jpg"), image(None, "/x.jpg")];
    assert_eq!(pick_image(&imgs, &"fr".to_string()), None);
    assert_eq!(pick_image(&Vec::new(), &"fr".to_string()), None);
}

#[test]
fn image_set_by_kind() {
    let set = ImageSet {
        posters: vec![image(Some("fr"), "/p.jpg")],
        backdrops: vec![image(Some("en"), "/b.jpg")],
        logos: vec![image(Some("it"), "/l.jpg")],
    };
    let r = choose_images(&set, &"fr".to_string());
    assert_eq!(r.poster, Some("/p.jpg".to_string()));
    assert_eq!(r.backdrop, Some("/b.jpg".to_string()));
    assert_eq!(r.logo, None);
}

#[test]
fn movie_assembled_from_detail_and_images() {
    let detail = MovieDetail {
        id: 27205,
        collection_id: Some(9),
        title: "Inception".to_string(),
        original_title: "Inception".to_string(),
        overview: "Dreams.".to_string(),
        release_date: "2010-07-15".to_string(),
        runtime: 148,
        genres: Some(vec![Genre { id: 28, name: "Action".to_string() }]),
    };
    let images = ImagesResponse { backdrop: Some("/b.jpg".to_string()), logo: None, poster: Some("/p.jpg".to_string()) };
    let m = movie_from(detail, images);
    assert_eq!(m.id, 27205);
    assert_eq!(m.collection_id, Some(9));
    assert_eq!(m.runtime, 148);
    assert_eq!(m.poster_path, Some("/p.jpg".to_string()));
    assert_eq!(m.backdrop_path, Some("/b.jpg".to_string()));
    assert_eq!(m.logo_path, None);
    assert_eq!(m.genres.unwrap()[0].name, "Action");
    assert_eq!(m.path, None);
}

#[test]
fn show_season_and_episode_assembled() {
    let show = show_from(
        ShowDetail { id: 1396, title: "Breaking Bad".to_string(), original_title: "Breaking Bad".to_string(), overview: String::new(), genres: None },
        ImagesResponse { backdrop: None, logo: Some("/l.png".to_string()), poster: None },
    );
    assert_eq!(show.id, 1396);
    assert_eq!(show.logo_path, Some("/l.png".to_string()));
    assert!(show.seasons.is_none() && show.path.is_none());
    let season = season_from(
        SeasonDetail { id: 3572, season_number: 1, name: "Season 1".to_string(), overview: String::new() },
        &vec![image(Some("en"), "/s1.jpg")],
        &"es".to_string(),
    );
    assert_eq!(season.season_number, 1);
    assert_eq!(season.poster_path, Some("/s1.jpg".to_string()));
    assert!(season.episodes.is_none() && season.path.is_none());
    let episode = episode_from(
        EpisodeDetail { id: 62085, episode_number: 1, title: "Pilot".to_string(), overview: String::new(), air_date: "2008-01-20".to_string(), runtime: 58 },
        &vec![image(Some("es"), "/e1.jpg")],
        &"es".to_string(),
    );
    assert_eq!(episode.title, "Pilot");
    assert_eq!(episode.still_path, Some("/e1.jpg".to_string()));
    assert_eq!(episode.runtime, 58);
    assert!(episode.path.is_none());
}
