//! The Range header grammar and its validation against a file size,
//! including the strictness rules: no leading zeroes, no plus sign, at most
//! one whitespace per piece and none trailing.

use lwoss::range::ByteRange;
use lwoss::range::ParsedRange;
use lwoss::range::check_range_header;
use lwoss::range::parse_range_header;
use lwoss::range::resolve_range;

fn parse(s: &str) -> Option<Vec<ParsedRange>> {
    parse_range_header(s.as_bytes())
}

fn check(s: &str, size: u64) -> Option<ByteRange> {
    check_range_header(s.as_bytes(), size)
}

#[test]
fn parses_explicit_range() {
    assert_eq!(parse("bytes=0-15"), Some(vec![ParsedRange::FromTo { start: 0, end: 15 }]));
    assert_eq!(parse("bytes=1-3"), Some(vec![ParsedRange::FromTo { start: 1, end: 3 }]));
    assert_eq!(parse("bytes=0-0"), Some(vec![ParsedRange::FromTo { start: 0, end: 0 }]));
}

#[test]
fn parses_open_and_suffix_ranges() {
    assert_eq!(parse("bytes=470-"), Some(vec![ParsedRange::From { start: 470 }]));
    assert_eq!(parse("bytes=-2"), Some(vec![ParsedRange::Suffix { last: 2 }]));
}

#[test]
fn parses_multiple_ranges() {
    assert_eq!(
        parse("bytes=0-15, 20-30"),
        Some(vec![
            ParsedRange::FromTo { start: 0, end: 15 },
            ParsedRange::FromTo { start: 20, end: 30 },
        ])
    );
    assert_eq!(
        parse("bytes=0-15,20-30"),
        Some(vec![
            ParsedRange::FromTo { start: 0, end: 15 },
            ParsedRange::FromTo { start: 20, end: 30 },
        ])
    );
}

#[test]
fn rejects_malformed_headers() {
    assert_eq!(parse(""), None);
    assert_eq!(parse("bytes"), None);
    assert_eq!(parse("bytes="), None);
    assert_eq!(parse("octets=1-3"), None);
    assert_eq!(parse("foobar"), None);
    assert_eq!(parse("bytes=a-b"), None);
    assert_eq!(parse("bytes=1-2-3"), None);
    assert_eq!(parse("bytes=--5"), None);
    assert_eq!(parse("bytes=5"), None);
    assert_eq!(parse("bytes=-"), None);
}

#[test]
fn rejects_whitespace_violations() {
    // No whitespace right after the unit.
    assert_eq!(parse("bytes= 0-15"), None);
    // None at the end of a piece.
    assert_eq!(parse("bytes=0-15 "), None);
    // At most one whitespace character per piece.
    assert_eq!(parse("bytes=0-15,  20-30"), None);
    // Whitespace inside a number splits it and fails the digit check.
    assert_eq!(parse("bytes=1 -3"), None);
}

#[test]
fn rejects_lax_numbers() {
    // No leading zeroes except the number zero itself.
    assert_eq!(parse("bytes=00-15"), None);
    assert_eq!(parse("bytes=01-15"), None);
    // No sign characters.
    assert_eq!(parse("bytes=+0-15"), None);
    // A suffix of zero bytes is unsatisfiable from the start.
    assert_eq!(parse("bytes=-0"), None);
    // Values beyond u64 do not parse.
    assert_eq!(parse("bytes=18446744073709551616-"), None);
    assert_eq!(
        parse("bytes=18446744073709551615-"),
        Some(vec![ParsedRange::From { start: u64::MAX }])
    );
}

#[test]
fn resolves_against_file_size() {
    // An explicit end is clamped to the last byte.
    assert_eq!(check("bytes=0-20", 15), Some(ByteRange { start: 0, end: 14 }));
    assert_eq!(check("bytes=1-3", 475), Some(ByteRange { start: 1, end: 3 }));
    // A start at or past the end of the file is rejected, not clamped.
    assert_eq!(check("bytes=15-20", 15), None);
    assert_eq!(check("bytes=475-", 475), None);
    // A suffix longer than the file is rejected.
    assert_eq!(check("bytes=-600", 500), None);
    // A suffix of exactly the file is the whole file.
    assert_eq!(check("bytes=-500", 500), Some(ByteRange { start: 0, end: 499 }));
    // Reversed ranges are rejected.
    assert_eq!(check("bytes=5-2", 500), None);
    // Nothing is satisfiable on an empty file.
    assert_eq!(check("bytes=0-", 0), None);
    assert_eq!(check("bytes=-1", 0), None);
}

#[test]
fn multiple_ranges_never_satisfiable() {
    // Each range alone would be valid; together they are refused.
    assert_eq!(check("bytes=80-83,429-472,294-304", 475), None);
    assert_eq!(check("bytes=0-1,3-4", 475), None);
}

#[test]
fn resolve_range_cases() {
    assert_eq!(
        resolve_range(ParsedRange::Suffix { last: 5 }, 475),
        Some(ByteRange { start: 470, end: 474 })
    );
    assert_eq!(
        resolve_range(ParsedRange::From { start: 470 }, 475),
        Some(ByteRange { start: 470, end: 474 })
    );
    assert_eq!(resolve_range(ParsedRange::FromTo { start: 3, end: 900 }, 475),
        Some(ByteRange { start: 3, end: 474 }));
    assert_eq!(resolve_range(ParsedRange::FromTo { start: 3, end: 900 }, 0), None);
}
