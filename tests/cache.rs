use homestream::cache::{find_by_path, settle_snapshot, store_file_name};
use homestream::types::Episode;

fn episode(id: i32, path: Option<&str>) -> Episode {
    Episode {
        id,
        episode_number: id,
        title: format!("E{}", id),
        overview: String::new(),
        air_date: "2020-01-01".to_string(),
        still_path: None,
        runtime: 42,
        path: path.map(|p| p.to_string()),
    }
}

#[test]
fn snapshot_file_name() {
    assert_eq!(store_file_name("movies"), "movies_store.json");
    assert_eq!(store_file_name("7"), "7_store.json");
}

#[test]
fn lookup_is_by_exact_path_and_first_wins() {
    let items = vec![episode(1, None), episode(2, Some("/s/a.mkv")), episode(3, Some("/s/b.mkv")), episode(4, Some("/s/a.mkv"))];
    assert_eq!(find_by_path(&items, &"/s/a.mkv".to_string()), Some(1));
    assert_eq!(find_by_path(&items, &"/s/b.mkv".to_string()), Some(2));
    assert_eq!(find_by_path(&items, &"/s/a".to_string()), None);
    assert_eq!(find_by_path(&items, &"/S/a.mkv".to_string()), None);
}

#[test]
fn unreadable_snapshot_is_empty_and_reset() {
    let (v, reset) = settle_snapshot::<Episode>(None);
    assert!(v.is_empty());
    assert!(reset);
    let (v, reset) = settle_snapshot(Some(vec![episode(1, Some("/x.mkv"))]));
    assert_eq!(v.len(), 1);
    assert!(!reset);
}

#[test]
fn clone_keeps_every_field() {
    let e = episode(9, Some("/s/e.mkv"));
    assert_eq!(format!("{:?}", e.clone()), format!("{:?}", e));
}
