use media_sorter::file::{ContentHasher, MediaFile, UsedNames};
use media_sorter::paths::path_contains_any_skip;
use media_sorter::sorter::{files_to_hash, get_file_hashes, get_files, listing, new_or_different, move_file, MediaSet, MoveError, WalkEntry};
use media_sorter::date::DateTaken;

fn entry(path: &str, is_file: bool) -> WalkEntry {
    WalkEntry { path: path.to_string(), is_file }
}

fn hashed(path: &str, hash: u64) -> MediaFile {
    MediaFile { file_loc: path.to_string(), hash: Some(hash) }
}

fn locs(v: &[MediaFile]) -> Vec<String> {
    let mut l: Vec<String> = v.iter().map(|f| f.file_loc.clone()).collect();
    l.sort();
    l
}

#[test]
fn skipping_directories() {
    let skips = vec!["Backups".to_string(), "Trash".to_string()];
    assert!(path_contains_any_skip("/home/Backups/a.jpg", &skips));
    assert!(path_contains_any_skip("Trash", &skips));
    assert!(!path_contains_any_skip("/home/Backup/a.jpg", &skips));
    assert!(!path_contains_any_skip("/home/Backups/a.jpg", &vec![]));
}

#[test]
fn gathering_files() {
    let entries = vec![
        entry("/m", false),
        entry("/m/a.jpg", true),
        entry("/m/b.txt", true),
        entry("/m/dir.mp4", false),
        entry("/m/Trash/c.png", true),
        entry("/m/d.mov", true),
        entry("/m/a.jpg", true),
    ];
    let set = get_files(&entries, &vec!["Trash".to_string()]);
    assert_eq!(set.len(), 2);
    assert_eq!(locs(set.files()), vec!["/m/a.jpg".to_string(), "/m/d.mov".to_string()]);
    assert!(set.files().iter().all(|f| f.hash.is_none()));
}

#[test]
fn media_set_is_a_set() {
    let mut s = MediaSet::new();
    assert!(s.insert(hashed("a.jpg", 1)));
    assert!(!s.insert(hashed("a.jpg", 2)));
    assert!(s.insert(hashed("b.jpg", 1)));
    assert_eq!(s.len(), 2);
    assert!(s.contains(&hashed("a.jpg", 9)));
    assert!(!s.contains(&hashed("c.jpg", 1)));
    assert_eq!(s.files()[0].hash, Some(1));
}

#[test]
fn choosing_files_to_hash() {
    let mut files = MediaSet::new();
    files.insert(MediaFile::new("a.jpg", true).unwrap());
    files.insert(MediaFile::new("b.mp4", true).unwrap());
    files.insert(MediaFile { file_loc: "c.txt".to_string(), hash: None });
    let mut ignore = MediaSet::new();
    ignore.insert(MediaFile::new("b.mp4", true).unwrap());
    let r = files_to_hash(&files, &ignore);
    assert_eq!(locs(&r), vec!["a.jpg".to_string()]);
}

#[test]
fn removing_copies() {
    let files = vec![hashed("a.jpg", 1), hashed("b.jpg", 2), hashed("c.jpg", 1), MediaFile { file_loc: "d.jpg".to_string(), hash: None }, hashed("e.jpg", 2), hashed("f.jpg", 3)];
    let (kept, copies) = get_file_hashes(&files);
    assert_eq!(locs(kept.files()), vec!["a.jpg", "b.jpg", "d.jpg", "f.jpg"]);
    assert_eq!(copies.iter().map(|f| f.file_loc.as_str()).collect::<Vec<_>>(), vec!["c.jpg", "e.jpg"]);
    let mut hashes: Vec<u64> = kept.files().iter().filter_map(|f| f.hash).collect();
    let n = hashes.len();
    hashes.sort();
    hashes.dedup();
    assert_eq!(hashes.len(), 3);
    assert_eq!(n, 3);
    for c in &copies {
        assert!(kept.files().iter().any(|k| k.hash == c.hash));
    }
}

#[test]
fn listing_files() {
    let mut s = MediaSet::new();
    s.insert(hashed("/a/x.jpg", 1));
    s.insert(hashed("/b/y.mp4", 2));
    assert_eq!(listing(&s), "/a/x.jpg\n/b/y.mp4\n");
    assert_eq!(listing(&MediaSet::new()), "");
}

#[test]
fn content_hashing() {
    let data: Vec<u8> = (0..20000u32).map(|i| (i % 251) as u8).collect();
    let mut whole = ContentHasher::new();
    whole.update(&data);
    let mut chunked = ContentHasher::new();
    for c in data.chunks(8192) {
        chunked.update(c);
    }
    assert_eq!(whole.digest(), chunked.digest());
    assert_eq!(whole.digest(), xxhash_rust::xxh3::xxh3_64(&data));
    let mut f = MediaFile::new("x.jpg", true).unwrap();
    f.load_hash(&chunked);
    assert_eq!(f.hash, Some(xxhash_rust::xxh3::xxh3_64(&data)));
    assert_eq!(f.file_loc, "x.jpg");
    let empty = ContentHasher::new();
    assert_eq!(empty.digest(), xxhash_rust::xxh3::xxh3_64(&[]));
    assert_ne!(empty.digest(), whole.digest());
}

#[test]
fn planning_moves() {
    let mut used = UsedNames::new();
    let f = MediaFile::new("/src/sub/a.jpg", true).unwrap();
    let d = DateTaken { year: 2019, month: 7, day: 8, hour: 9, minute: 10, second: 11 };
    let p = move_file(&f, Some("/dst"), &mut used, true, true, Some(d), false).ok().unwrap();
    assert_eq!(p.source, "/src/sub/a.jpg");
    assert_eq!(p.target, "/dst/2019/IMG_20190708_091011.jpg");
    assert_eq!(p.target_folder, Some("/dst/2019".to_string()));
    assert!(p.target.starts_with("/dst"));
    let p = move_file(&f, None, &mut used, false, false, None, false).ok().unwrap();
    assert_eq!(p.target, "/src/sub/a.jpg");
    let bad = MediaFile { file_loc: "/".to_string(), hash: None };
    let e = move_file(&bad, Some("/dst"), &mut used, true, false, None, false).err().unwrap();
    assert_eq!(e, MoveError::NoNewFilename("/".to_string()));
    assert_eq!(e.message(), "Failed to gather new filename for /");
}

#[test]
fn existing_targets_are_not_overwritten() {
    let mut used = UsedNames::new();
    let f = MediaFile::new("/src/a.jpg", true).unwrap();
    let d = DateTaken { year: 2019, month: 7, day: 8, hour: 9, minute: 10, second: 11 };
    assert_eq!(f.proposed_filename("/dst", &used, true, false, Some(d)), Some("/dst/IMG_20190708_091011.jpg".to_string()));
    let e = move_file(&f, Some("/dst"), &mut used, true, false, Some(d), true).err().unwrap();
    assert_eq!(e, MoveError::TargetExists("/dst/IMG_20190708_091011.jpg".to_string()));
    assert_eq!(e.message(), "Skipped, a file already exists at /dst/IMG_20190708_091011.jpg");
    assert_eq!(used.len(), 0);
    let p = move_file(&f, Some("/dst"), &mut used, true, false, Some(d), false).ok().unwrap();
    assert_eq!(p.target, "/dst/IMG_20190708_091011.jpg");
    assert_eq!(used.len(), 1);
}

#[test]
fn files_not_in_destination() {
    let mut src = MediaSet::new();
    src.insert(hashed("/s/a.jpg", 1));
    src.insert(hashed("/s/b.jpg", 2));
    src.insert(MediaFile { file_loc: "/s/c.jpg".to_string(), hash: None });
    let mut dst = MediaSet::new();
    dst.insert(hashed("/d/other_name.jpg", 2));
    dst.insert(hashed("/s/a.jpg", 7));
    let r = new_or_different(&src, &dst);
    assert_eq!(locs(&r), vec!["/s/a.jpg".to_string(), "/s/c.jpg".to_string()]);
}

#[test]
fn kept_hashes_are_loaded() {
    let files = vec![hashed("a.jpg", 4), hashed("b.jpg", 4), hashed("c.jpg", 5)];
    let (kept, _) = get_file_hashes(&files);
    assert!(kept.files().iter().all(|f| f.hash.is_some()));
}

#[test]
fn shallow_walk_gathers_less() {
    let shallow = vec![entry("/m/a.jpg", true), entry("/m/sub", false)];
    let deep = vec![entry("/m/a.jpg", true), entry("/m/sub", false), entry("/m/sub/b.png", true)];
    let s = get_files(&shallow, &vec![]);
    let d = get_files(&deep, &vec![]);
    for f in s.files() {
        assert!(d.contains(f));
    }
    assert_eq!(d.len(), 2);
}
