use pictura::gallery::{Picture, Pictures};
use pictura::reconcile::{is_tracked, reconcile};
use pictura::sync::{compressed_size, medium_size, resolve_all, scaled, SyncRun};

fn record(name: &str, category: Option<&str>, id: u32) -> Picture {
    Picture {
        name: name.to_string(),
        extension: "jpg".to_string(),
        category: category.map(|c| c.to_string()),
        width: 100,
        height: 50,
        color: "00ff00".to_string(),
        id,
        compressed: None,
        medium: None,
        original: None,
    }
}

fn paths(v: &[&str]) -> Vec<String> {
    v.iter().map(|s| s.to_string()).collect()
}

/// One full pass: resolve the stored records, reconcile, accept a fresh
/// record for each new path with the given id, and store the result.
fn run(stored: Pictures, scanned: &Vec<String>, next_id: &mut u32) -> (Pictures, usize, usize, Vec<Picture>) {
    let resolved = resolve_all(stored, "/g");
    let mut run = SyncRun::start(resolved, scanned, "/g");
    let removed = run.to_remove.clone();
    for path in run.to_add.clone() {
        let p = Picture::from_parts("/g", &path, 100, 50, &vec![(0, 255, 0)], *next_id).unwrap();
        *next_id += 1;
        run.accept(p);
    }
    let (added, removed_count) = (run.added, run.removed);
    (run.finish(), added, removed_count, removed)
}

#[test]
fn reconcile_splits_by_path() {
    let mut a = record("a", None, 1);
    let mut b = record("b", Some("city"), 2);
    a.setup_paths("/g");
    b.setup_paths("/g");
    let scanned = paths(&["/g/wallpapers/a.jpg", "/g/wallpapers/c.jpg"]);
    let r = reconcile(vec![a, b], &scanned);
    assert_eq!(r.to_add, paths(&["/g/wallpapers/c.jpg"]));
    assert_eq!(r.kept.len(), 1);
    assert_eq!(r.kept[0].id, 1);
    assert_eq!(r.to_remove.len(), 1);
    assert_eq!(r.to_remove[0].id, 2);
}

#[test]
fn unresolved_record_tracks_nothing() {
    let a = record("a", None, 1);
    let pics = vec![a];
    assert!(!is_tracked(&pics, &"/g/wallpapers/a.jpg".to_string()));
    let r = reconcile(pics, &paths(&["/g/wallpapers/a.jpg"]));
    assert_eq!(r.to_add.len(), 1);
    assert_eq!(r.to_remove.len(), 1);
}

#[test]
fn second_sync_changes_nothing() {
    let scanned = paths(&[
        "/g/wallpapers/a.jpg",
        "/g/wallpapers/nature/b.jpg",
        "/g/wallpapers/wallpapers/c.jpg",
    ]);
    let mut id = 7;
    let (first, added, removed, _) = run(Pictures::new(), &scanned, &mut id);
    assert_eq!((added, removed), (3, 0));
    let before: Vec<Picture> = first.pictures.clone().unwrap();
    let (second, added, removed, _) = run(first, &scanned, &mut id);
    assert_eq!((added, removed), (0, 0));
    let after = second.pictures.unwrap();
    assert_eq!(after.len(), before.len());
    for (x, y) in before.iter().zip(after.iter()) {
        assert_eq!(x.id, y.id);
        assert_eq!(x.color, y.color);
        assert_eq!(x.compressed, y.compressed);
        assert_eq!(x.medium, y.medium);
        assert_eq!(x.original, y.original);
    }
}

#[test]
fn new_file_is_added_once() {
    let mut scanned = paths(&["/g/wallpapers/a.jpg"]);
    let mut id = 1;
    let (first, _, _, _) = run(Pictures::new(), &scanned, &mut id);
    scanned.push("/g/wallpapers/sky/new.jpg".to_string());
    let resolved = resolve_all(first, "/g");
    let mut sync = SyncRun::start(resolved, &scanned, "/g");
    assert_eq!(sync.to_add, paths(&["/g/wallpapers/sky/new.jpg"]));
    assert_eq!(sync.pictures.len(), 1);
    let p = Picture::from_parts("/g", &sync.to_add[0], 100, 50, &vec![(1, 2, 3)], 99).unwrap();
    let (small, mid) = sync.artifact_paths(&p);
    let name = p.to_string();
    assert_eq!(name, "w-100_h-50_c-010203_i-99_k-sky.jpg");
    assert_eq!(small, format!("/g/.pictura/compressed/{}", name));
    assert_eq!(mid, format!("/g/.pictura/medium/{}", name));
    sync.accept(p);
    assert_eq!(sync.added, 1);
    assert_eq!(sync.removed, 0);
    assert_eq!(sync.pictures.len(), 2);
    let last = sync.pictures.last().unwrap();
    assert_eq!(last.compressed, Some(small));
    assert_eq!(last.medium, Some(mid));
    assert_eq!(last.original, Some("/g/wallpapers/sky/new.jpg".to_string()));
}

#[test]
fn deleted_file_is_removed() {
    let mut scanned = paths(&["/g/wallpapers/a.jpg", "/g/wallpapers/b.jpg"]);
    let mut id = 1;
    let (first, _, _, _) = run(Pictures::new(), &scanned, &mut id);
    scanned.remove(0);
    let (second, added, removed, gone) = run(first, &scanned, &mut id);
    assert_eq!((added, removed), (0, 1));
    assert_eq!(gone.len(), 1);
    assert_eq!(gone[0].original, Some("/g/wallpapers/a.jpg".to_string()));
    assert_eq!(second.pictures.unwrap().len(), 1);
}

#[test]
fn renamed_file_is_replaced() {
    let mut scanned = paths(&["/g/wallpapers/a.jpg", "/g/wallpapers/b.jpg"]);
    let mut id = 1;
    let (first, _, _, _) = run(Pictures::new(), &scanned, &mut id);
    let old_ids: Vec<u32> = first.pictures.as_ref().unwrap().iter().map(|p| p.id).collect();
    scanned[1] = "/g/wallpapers/renamed.jpg".to_string();
    let (second, added, removed, gone) = run(first, &scanned, &mut id);
    assert_eq!((added, removed), (1, 1));
    assert_eq!(gone[0].original, Some("/g/wallpapers/b.jpg".to_string()));
    let pics = second.pictures.unwrap();
    assert_eq!(pics.len(), 2);
    let new = pics.iter().find(|p| p.name == "renamed").unwrap();
    assert!(!old_ids.contains(&new.id));
}

#[test]
fn resolve_all_of_no_records() {
    assert!(resolve_all(Pictures::new(), "/g").is_empty());
    assert!(resolve_all(Pictures { pictures: Some(vec![]) }, "/g").is_empty());
}

#[test]
fn thumbnail_sizes() {
    assert_eq!(compressed_size(1920, 1080), (192, 108));
    assert_eq!(medium_size(1920, 1080), (576, 324));
    assert_eq!(compressed_size(9, 19), (0, 1));
    assert_eq!(medium_size(9, 19), (2, 5));
    assert_eq!(scaled(u32::MAX, 30), 1288490188);
    assert_eq!(scaled(u32::MAX, 100), u32::MAX);
}
