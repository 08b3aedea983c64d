use homestream::names::{all_digits, episode_number, number_value, parse_name, season_number};

#[test]
fn title_and_year_from_movie_file() {
    let p = parse_name("Inception 2010.mkv");
    assert_eq!(p.title, "Inception");
    assert_eq!(p.year, Some("2010".to_string()));
}

#[test]
fn title_without_year() {
    let p = parse_name("Inception.mkv");
    assert_eq!(p.title, "Inception");
    assert_eq!(p.year, None);
}

#[test]
fn three_digit_tail_is_no_year() {
    let p = parse_name("Report 123.mkv");
    assert_eq!(p.title, "Report 123");
    assert_eq!(p.year, None);
}

#[test]
fn year_alone_is_the_title() {
    let p = parse_name("2010.mkv");
    assert_eq!(p.title, "2010");
    assert_eq!(p.year, None);
}

#[test]
fn multi_word_title_keeps_single_spaces() {
    let p = parse_name("The Dark Knight 2008.en.mkv");
    assert_eq!(p.title, "The Dark Knight");
    assert_eq!(p.year, Some("2008".to_string()));
}

#[test]
fn non_digit_tail_is_no_year() {
    let p = parse_name("Alien 19a9.avi");
    assert_eq!(p.title, "Alien 19a9");
    assert_eq!(p.year, None);
}

#[test]
fn show_directory_name_with_year() {
    let p = parse_name("Breaking Bad 2008");
    assert_eq!(p.title, "Breaking Bad");
    assert_eq!(p.year, Some("2008".to_string()));
}

#[test]
fn season_number_from_directory() {
    assert_eq!(season_number("Season 02"), Some(2));
    assert_eq!(season_number("Season 10"), Some(10));
}

#[test]
fn season_directory_without_number_is_skipped() {
    assert_eq!(season_number("Specials"), None);
    assert_eq!(season_number("02"), None);
    assert_eq!(season_number("Season "), None);
    assert_eq!(season_number("Season x2"), None);
}

#[test]
fn season_number_that_overflows_is_skipped() {
    assert_eq!(season_number("Season 2147483647"), Some(2147483647));
    assert_eq!(season_number("Season 2147483648"), None);
    assert_eq!(season_number("Season 99999999999999999999"), None);
}

#[test]
fn episode_number_from_file() {
    assert_eq!(episode_number("S02E07.mkv"), Some(7));
    assert_eq!(episode_number("Breaking Bad S01E12.mkv"), Some(12));
}

#[test]
fn episode_file_without_number_is_skipped() {
    assert_eq!(episode_number("Pilot.mkv"), None);
    assert_eq!(episode_number("S02E.mkv"), None);
    assert_eq!(episode_number("S02E7x.mkv"), None);
}

#[test]
fn digits_and_values() {
    assert!(all_digits("0123"));
    assert!(!all_digits("01a3"));
    assert_eq!(number_value("0042"), Some(42));
    assert_eq!(number_value(""), None);
    assert_eq!(number_value("4x"), None);
}
