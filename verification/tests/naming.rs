use media_sorter::date::DateTaken;
use media_sorter::file::{destination_for, MediaError, MediaFile, UsedNames};
use media_sorter::text::{push_decimal, push_path, push_signed_decimal};

fn date(year: i32, month: u32, day: u32, hour: u32, minute: u32, second: u32) -> DateTaken {
    DateTaken { year, month, day, hour, minute, second }
}

fn media(path: &str) -> MediaFile {
    MediaFile::new(path, true).unwrap()
}

#[test]
fn decimal_padding() {
    let mut s = String::new();
    push_decimal(&mut s, 7, 2);
    assert_eq!(s, "07");
    let mut s = String::from("x");
    push_decimal(&mut s, 12345, 4);
    assert_eq!(s, "x12345");
    let mut s = String::new();
    push_decimal(&mut s, 0, 0);
    assert_eq!(s, "0");
    let mut s = String::new();
    push_decimal(&mut s, 1, 4);
    assert_eq!(s, "0001");
    let mut s = String::new();
    push_decimal(&mut s, u32::MAX, 0);
    assert_eq!(s, u32::MAX.to_string());
}

#[test]
fn signed_decimal_text() {
    let mut s = String::new();
    push_signed_decimal(&mut s, 2024);
    assert_eq!(s, "2024");
    let mut s = String::new();
    push_signed_decimal(&mut s, -44);
    assert_eq!(s, "-44");
    let mut s = String::new();
    push_signed_decimal(&mut s, i32::MIN);
    assert_eq!(s, i32::MIN.to_string());
}

#[test]
fn path_pushing_matches_pathbuf() {
    for (base, comp) in [("dest", "a.jpg"), ("dest/", "a.jpg"), ("", "a.jpg"), ("dest", "/abs"), ("/", "x"), ("a", "")] {
        let mut s = String::from(base);
        push_path(&mut s, comp);
        let mut p = std::path::PathBuf::from(base);
        p.push(comp);
        assert_eq!(s, p.to_str().unwrap(), "{} + {}", base, comp);
    }
}

#[test]
fn media_kinds() {
    assert!(media("a/b.jpg").is_image_file());
    assert!(!media("a/b.jpg").is_video_file());
    assert!(media("a/b.mov").is_video_file());
    assert!(!media("a/b.mov").is_image_file());
    for ext in ["jpg", "jpeg", "png", "gif", "bmp", "mp4", "avi", "mkv", "mov", "flv"] {
        let f = media(&format!("dir/x.{}", ext));
        assert!(f.is_media_file());
        assert!(f.is_image_file() != f.is_video_file());
    }
}

#[test]
fn new_refuses_non_media() {
    assert_eq!(MediaFile::new("a/b.txt", true).err(), Some(MediaError::NotAMediaFile("a/b.txt".to_string())));
    assert_eq!(MediaFile::new("a/b.JPG", true).err(), Some(MediaError::NotAMediaFile("a/b.JPG".to_string())));
    assert_eq!(MediaFile::new("a/.jpg", true).err(), Some(MediaError::NotAMediaFile("a/.jpg".to_string())));
    assert_eq!(MediaFile::new("a/b.jpg", false).err(), Some(MediaError::NotAFile("a/b.jpg".to_string())));
    assert_eq!(MediaError::NotAFile("p".to_string()).message(), "not a file: p");
    assert_eq!(MediaError::NotAMediaFile("p".to_string()).message(), "not a media file: p");
    let f = MediaFile::new("a/b.png", true).unwrap();
    assert_eq!(f.file_loc, "a/b.png");
    assert_eq!(f.hash, None);
}

#[test]
fn extensions_follow_the_file_name() {
    let f = MediaFile { file_loc: "x/file.".to_string(), hash: None };
    assert_eq!(f.extension(), Some("".to_string()));
    let f = MediaFile { file_loc: "x/.hidden".to_string(), hash: None };
    assert_eq!(f.extension(), None);
    assert!(!f.is_media_file());
    let f = MediaFile { file_loc: "x/.b.jpg".to_string(), hash: None };
    assert_eq!(f.extension(), Some("jpg".to_string()));
    assert!(f.is_image_file());
    let f = MediaFile { file_loc: "x/a.tar.mkv/".to_string(), hash: None };
    assert_eq!(f.extension(), Some("mkv".to_string()));
    let f = MediaFile { file_loc: "x/..".to_string(), hash: None };
    assert_eq!(f.extension(), None);
    assert_eq!(f.file_name(), None);
}

#[test]
fn names_and_parents() {
    let f = media("photos/2024/img.jpeg");
    assert_eq!(f.file_name(), Some("img.jpeg".to_string()));
    assert_eq!(f.extension(), Some("jpeg".to_string()));
    assert_eq!(f.parent(), "photos/2024");
    assert_eq!(media("img.jpg").parent(), "");
    assert_eq!(media("/img.jpg").parent(), "/");
    assert_eq!(f.display(), "photos/2024/img.jpeg");
    let odd = MediaFile { file_loc: "/".to_string(), hash: None };
    assert_eq!(odd.parent(), ".");
    assert_eq!(odd.file_name(), None);
    assert!(media("a.jpg") == MediaFile { file_loc: "a.jpg".to_string(), hash: Some(3) });
    assert!(media("a.jpg") != media("b.jpg"));
}

#[test]
fn renames_image_by_date() {
    let mut used = UsedNames::new();
    let f = media("src/DSC0001.jpg");
    let r = f.new_filename("/dest", &mut used, true, false, Some(date(2024, 5, 15, 14, 30, 22)));
    assert_eq!(r, Some("/dest/IMG_20240515_143022.jpg".to_string()));
    assert!(used.contains("IMG_20240515_143022.jpg"));
    assert_eq!(used.len(), 1);
}

#[test]
fn renames_video_with_counter() {
    let mut used = UsedNames::new();
    let d = date(2023, 12, 25, 8, 15, 0);
    let a = media("src/a.mp4").new_filename("/dest", &mut used, true, false, Some(d));
    let b = media("src/b.mp4").new_filename("/dest", &mut used, true, false, Some(d));
    let c = media("src/c.mp4").new_filename("/dest", &mut used, true, false, Some(d));
    assert_eq!(a, Some("/dest/VID_20231225_081500.mp4".to_string()));
    assert_eq!(b, Some("/dest/VID_20231225_081500_0001.mp4".to_string()));
    assert_eq!(c, Some("/dest/VID_20231225_081500_0002.mp4".to_string()));
}

#[test]
fn extension_lower_cased() {
    let mut used = UsedNames::new();
    let f = MediaFile { file_loc: "/in/P1.JPG".to_string(), hash: None };
    let r = f.new_filename("/out", &mut used, true, false, Some(date(2024, 5, 15, 14, 30, 22)));
    assert_eq!(r, Some("/out/IMG_20240515_143022.jpg".to_string()));
    let r = destination_for("/out", Some("x.Mp4"), Some("Mp4"), &mut used, true, false, Some(date(2024, 5, 15, 14, 30, 22)));
    assert_eq!(r, Some("/out/IMG_20240515_143022.mp4".to_string()));
    let mut s = String::new();
    media_sorter::text::push_ascii_lowercase(&mut s, "AbZ-9é");
    assert_eq!(s, "abz-9é");
}

#[test]
fn year_subfolders() {
    let mut used = UsedNames::new();
    let r = media("src/a.png").new_filename("/dest", &mut used, true, true, Some(date(2001, 1, 2, 3, 4, 5)));
    assert_eq!(r, Some("/dest/2001/IMG_20010102_030405.png".to_string()));
    let r = media("src/b.png").new_filename("/dest", &mut used, false, true, Some(date(1999, 1, 2, 3, 4, 5)));
    assert_eq!(r, Some("/dest/1999/b.png".to_string()));
    assert_eq!(used.len(), 1);
}

#[test]
fn no_date_keeps_name() {
    let mut used = UsedNames::new();
    let r = media("src/b.gif").new_filename("/dest/", &mut used, true, true, None);
    assert_eq!(r, Some("/dest/b.gif".to_string()));
    assert_eq!(used.len(), 0);
}

#[test]
fn destination_without_name_or_extension() {
    let mut used = UsedNames::new();
    let d = Some(date(2020, 2, 2, 2, 2, 2));
    assert_eq!(destination_for("/d", None, Some("jpg"), &mut used, true, false, d), None);
    assert_eq!(destination_for("/d", Some("x"), None, &mut used, true, false, d), None);
    assert_eq!(destination_for("/d", Some("x"), None, &mut used, false, false, d), Some("/d/x".to_string()));
    assert_eq!(used.len(), 0);
}

#[test]
fn preused_names_are_skipped() {
    let mut used = UsedNames::new();
    used.insert("IMG_20200202_020202.jpg".to_string());
    used.insert("IMG_20200202_020202_0001.jpg".to_string());
    let r = destination_for("d", Some("x.jpg"), Some("jpg"), &mut used, true, false, Some(date(2020, 2, 2, 2, 2, 2)));
    assert_eq!(r, Some("d/IMG_20200202_020202_0002.jpg".to_string()));
    assert_eq!(used.len(), 3);
}

#[test]
fn successive_renames_differ() {
    let mut used = UsedNames::new();
    let d = Some(date(2020, 1, 1, 0, 0, 0));
    let mut seen = std::collections::HashSet::new();
    for i in 0..20 {
        let r = destination_for("d", Some("x.jpg"), Some("jpg"), &mut used, true, false, d).unwrap();
        assert!(seen.insert(r), "repeat at {}", i);
    }
}

#[test]
fn exiftool_arguments() {
    let f = media("a b/c.jpg");
    assert_eq!(
        f.exiftool_args(),
        vec![
            "-DateTimeOriginal", "-CreateDate", "-MediaCreateDate", "-TrackCreateDate",
            "-CreationTime", "-FileModifyDate", "-s3", "-f", "a b/c.jpg"
        ]
    );
}
