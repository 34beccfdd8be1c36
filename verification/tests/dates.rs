use media_sorter::date::{date_candidate, parse_exif_line, DateTaken};
use media_sorter::file::MediaFile;

#[test]
fn exif_date_parsed() {
    let out = "-\n-\n2024:05:15 14:30:22\n2023:01:01 00:00:00\n";
    assert_eq!(
        MediaFile::get_date_taken(out),
        Some(DateTaken { year: 2024, month: 5, day: 15, hour: 14, minute: 30, second: 22 })
    );
}

#[test]
fn offset_date_parsed() {
    let out = "-\n  \n-\n-\n-\n2022:03:04 05:06:07+02:00\r\n";
    assert_eq!(
        MediaFile::get_date_taken(out),
        Some(DateTaken { year: 2022, month: 3, day: 4, hour: 5, minute: 6, second: 7 })
    );
}

#[test]
fn no_date_found() {
    assert_eq!(MediaFile::get_date_taken("-\n-\n-\n"), None);
    assert_eq!(MediaFile::get_date_taken(""), None);
    assert_eq!(MediaFile::get_date_taken("garbage\nmore garbage"), None);
}

#[test]
fn first_parsable_line_wins() {
    let out = "not a date\n  2021:12:31 23:59:58  \n2020:01:01 00:00:00";
    assert_eq!(
        MediaFile::get_date_taken(out),
        Some(DateTaken { year: 2021, month: 12, day: 31, hour: 23, minute: 59, second: 58 })
    );
}

#[test]
fn candidates() {
    assert!(!date_candidate(""));
    assert!(!date_candidate("-"));
    assert!(date_candidate("--"));
    assert!(date_candidate("2020"));
}

#[test]
fn single_lines() {
    assert_eq!(parse_exif_line("2024:02:29 01:02:03"), Some(DateTaken { year: 2024, month: 2, day: 29, hour: 1, minute: 2, second: 3 }));
    assert_eq!(parse_exif_line("2023:02:29 01:02:03"), None);
    assert_eq!(parse_exif_line("-"), None);
}

#[test]
fn creation_time_parsed() {
    let out = "-\n-\n-\n-\nSat 02 May 2026 16:23:10 CEST\n-\n";
    assert_eq!(
        MediaFile::get_date_taken(out),
        Some(DateTaken { year: 2026, month: 5, day: 2, hour: 16, minute: 23, second: 10 })
    );
}

#[test]
fn lines_and_trim_match_std() {
    let samples = [
        "", "\n", "a", "a\n", "a\nb", "a\r\nb\r\n", "a\rb\r", "\r\n\r\n", "x\n\ny\n\n", " \u{a0}a b\u{3000}\t", "\u{2003}\u{2003}", "  -  ",
    ];
    for s in samples {
        let ours = media_sorter::text::lines_of(s);
        let std: Vec<String> = s.lines().map(|l| l.to_string()).collect();
        assert_eq!(ours, std, "lines of {:?}", s);
        assert_eq!(media_sorter::text::trim_of(s), s.trim(), "trim of {:?}", s);
    }
}
