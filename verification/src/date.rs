//! The date a picture or video was taken, read from the text that exiftool
//! prints for it.
use vstd::prelude::*;
use chrono::{Datelike, Timelike};
use crate::text;

verus! {

/// A calendar date and time of day, as chrono's `NaiveDateTime` reports it
/// through `year()`, `month()`, `day()`, `hour()`, `minute()` and `second()`.
#[derive(Clone, Copy, Debug, PartialEq, Eq, Structural)]
pub struct DateTaken {
    pub year: i32,
    pub month: u32,
    pub day: u32,
    pub hour: u32,
    pub minute: u32,
    pub second: u32,
}

/// The fields of a date, in the order year, month, day, hour, minute, second.
pub type DateFields = (i32, u32, u32, u32, u32, u32);

/// What `chrono::NaiveDateTime::parse_from_str(text, format)` gives, as the
/// fields of the parsed date, or `None` where it returns an error.
pub uninterp spec fn naive_datetime_parse(text: Seq<char>, format: Seq<char>) -> Option<DateFields>;

/// What `chrono::DateTime::parse_from_str(text, format)` gives, as the
/// fields of the parsed date in its own offset (`naive_local`), or `None`
/// where it returns an error.
pub uninterp spec fn offset_datetime_parse(text: Seq<char>, format: Seq<char>) -> Option<
    DateFields,
>;

/// The date with the given fields.
pub open spec fn date_of(f: DateFields) -> DateTaken {
    DateTaken { year: f.0, month: f.1, day: f.2, hour: f.3, minute: f.4, second: f.5 }
}

/// The date with the given fields, if there are any.
pub open spec fn opt_date(f: Option<DateFields>) -> Option<DateTaken> {
    match f {
        Some(t) => Some(date_of(t)),
        None => None,
    }
}

/// Calls `NaiveDateTime::parse_from_str`; the contract states that the
/// result is `naive_datetime_parse` of the text and the format.
#[verifier::external_body]
fn parse_naive(text: &str, format: &str) -> (r: Option<DateTaken>)
    ensures
        r == opt_date(naive_datetime_parse(text@, format@)),
{
    chrono::NaiveDateTime::parse_from_str(text, format).ok().map(
        |d| DateTaken {
            year: d.year(),
            month: d.month(),
            day: d.day(),
            hour: d.hour(),
            minute: d.minute(),
            second: d.second(),
        },
    )
}

/// Calls `DateTime::parse_from_str` and takes the local date and time of
/// the result (`naive_local`, which cannot leave the range of dates here, as
/// the local date is the one that was parsed); the contract states that the
/// result is `offset_datetime_parse` of the text and the format.
#[verifier::external_body]
fn parse_with_offset(text: &str, format: &str) -> (r: Option<DateTaken>)
    ensures
        r == opt_date(offset_datetime_parse(text@, format@)),
{
    chrono::DateTime::parse_from_str(text, format).ok().map(
        |d| {
            let l = d.naive_local();
            DateTaken {
                year: l.year(),
                month: l.month(),
                day: l.day(),
                hour: l.hour(),
                minute: l.minute(),
                second: l.second(),
            }
        },
    )
}

/// The layout of a date in EXIF: `2024:05:15 14:30:22`.
pub open spec fn exif_format() -> Seq<char> {
    "%Y:%m:%d %H:%M:%S"@
}

/// The EXIF layout followed by an offset from UTC, as in `FileModifyDate`.
pub open spec fn exif_offset_format() -> Seq<char> {
    "%Y:%m:%d %H:%M:%S%z"@
}

/// The layout of `CreationTime`: `Sat 02 May 2026 16:23:10 CEST`.
pub open spec fn creation_time_format() -> Seq<char> {
    "%a %d %b %Y %H:%M:%S %Z"@
}

/// The date in one line of exiftool's output: the first of the three
/// layouts that parses it. The zone name of `CreationTime` gives no offset,
/// so that layout is read as a local date and time.
pub open spec fn exif_line_date(line: Seq<char>) -> Option<DateTaken> {
    match opt_date(naive_datetime_parse(line, exif_format())) {
        Some(d) => Some(d),
        None => match opt_date(offset_datetime_parse(line, exif_offset_format())) {
            Some(d) => Some(d),
            None => opt_date(naive_datetime_parse(line, creation_time_format())),
        },
    }
}

/// Whether a trimmed line of exiftool's output may hold a date: it is not
/// empty and is not the `-` that exiftool prints for a missing tag.
pub open spec fn is_date_candidate(line: Seq<char>) -> bool {
    line.len() > 0 && line != seq!['-']
}

/// The date of the first line, trimmed, that may hold a date and parses.
pub open spec fn first_date(lines: Seq<Seq<char>>) -> Option<DateTaken>
    decreases lines.len(),
{
    if lines.len() == 0 {
        None
    } else {
        let t = text::trimmed(lines[0]);
        if is_date_candidate(t) && exif_line_date(t) is Some {
            exif_line_date(t)
        } else {
            first_date(lines.drop_first())
        }
    }
}

/// Law: the tags are read in priority order: when the first line, trimmed,
/// is neither empty nor `-` and holds a date, that date is the result,
/// whatever the lines after it hold.
pub proof fn law_first_dated_line_wins(a: Seq<char>, rest: Seq<Seq<char>>)
    requires
        text::trimmed(a).len() > 0,
        text::trimmed(a) != seq!['-'],
        exif_line_date(text::trimmed(a)) is Some,
    ensures
        first_date(seq![a] + rest) == exif_line_date(text::trimmed(a)),
{
    assert((seq![a] + rest)[0] == a);
}

/// Law: a line that is empty or `-` once trimmed, or that holds no date,
/// is passed over: the result is that of the lines after it.
pub proof fn law_undated_line_skipped(a: Seq<char>, rest: Seq<Seq<char>>)
    requires
        text::trimmed(a).len() == 0 || text::trimmed(a) == seq!['-'] || exif_line_date(
            text::trimmed(a),
        ) is None,
    ensures
        first_date(seq![a] + rest) == first_date(rest),
{
    assert((seq![a] + rest)[0] == a);
    assert((seq![a] + rest).drop_first() =~= rest);
}

/// Law: no lines, no date.
pub proof fn law_no_lines_no_date()
    ensures
        first_date(Seq::<Seq<char>>::empty()) is None,
{
}

/// Law: a line in the EXIF layout is read in that layout, before any
/// other: its date is the one `NaiveDateTime::parse_from_str` gives for
/// `%Y:%m:%d %H:%M:%S`; a line that no layout reads holds no date.
pub proof fn law_exif_layout_first(line: Seq<char>)
    ensures
        naive_datetime_parse(line, "%Y:%m:%d %H:%M:%S"@) is Some ==> exif_line_date(line) == Some(
            date_of(naive_datetime_parse(line, "%Y:%m:%d %H:%M:%S"@)->0),
        ),
        naive_datetime_parse(line, "%Y:%m:%d %H:%M:%S"@) is None && offset_datetime_parse(
            line,
            "%Y:%m:%d %H:%M:%S%z"@,
        ) is None && naive_datetime_parse(line, "%a %d %b %Y %H:%M:%S %Z"@) is None
            ==> exif_line_date(line) is None,
{
}

/// Whether a trimmed line of exiftool's output may hold a date.
pub fn date_candidate(line: &str) -> (r: bool)
    ensures
        r == is_date_candidate(line@),
{
    let n: usize = line.unicode_len();
    if n == 0 {
        return false;
    }
    if n == 1 && line.get_char(0) == '-' {
        assert(line@ =~= seq!['-']);
        return false;
    }
    assert(line@ != seq!['-']) by {
        if line@ == seq!['-'] {
            assert(line@[0] == '-');
        }
    }
    true
}

/// Parses one line of exiftool's output: as an EXIF date, then as an EXIF
/// date with an offset, then as a `CreationTime` (local date and time; the
/// zone name is skipped).
pub fn parse_exif_line(line: &str) -> (r: Option<DateTaken>)
    ensures
        r == exif_line_date(line@),
{
    proof {
        reveal_strlit("%Y:%m:%d %H:%M:%S");
        reveal_strlit("%Y:%m:%d %H:%M:%S%z");
        reveal_strlit("%a %d %b %Y %H:%M:%S %Z");
    }
    match parse_naive(line, "%Y:%m:%d %H:%M:%S") {
        Some(d) => Some(d),
        None => match parse_with_offset(line, "%Y:%m:%d %H:%M:%S%z") {
            Some(d) => Some(d),
            None => parse_naive(line, "%a %d %b %Y %H:%M:%S %Z"),
        },
    }
}

} // verus!
