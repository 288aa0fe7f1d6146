//! Cross-checks the verified Range parser against the http-range-header
//! crate: for every sample header and file size, both must agree on
//! whether a single satisfiable range comes out and which one.
//!
//! The one deliberate divergence is the empty file, which this engine
//! always answers with "not satisfiable", so no size 0 appears here.

use lwoss::range::check_range_header;

fn single_range_ext(header: &str, size: u64) -> Option<(u64, u64)> {
    match http_range_header::parse_range_header(header) {
        Err(_) => None,
        Ok(parsed) => match parsed.validate(size) {
            Err(_) => None,
            Ok(ranges) => {
                if ranges.len() == 1 {
                    Some((*ranges[0].start(), *ranges[0].end()))
                } else {
                    None
                }
            }
        },
    }
}

fn single_range_mine(header: &str, size: u64) -> Option<(u64, u64)> {
    check_range_header(header.as_bytes(), size).map(|r| (r.start, r.end))
}

#[test]
fn agrees_with_the_reference_parser() {
    let headers = [
        "bytes=0-15",
        "bytes=1-3",
        "bytes=0-0",
        "bytes=470-",
        "bytes=-2",
        "bytes=-500",
        "bytes=-501",
        "bytes=0-20",
        "bytes=20-30",
        "bytes=5-2",
        "bytes=15-20",
        "bytes=475-",
        "bytes=0-15, 20-30",
        "bytes=0-15,20-30",
        "bytes=0-15,  20-30",
        "bytes=80-83,429-472,294-304",
        "bytes=0-15 ",
        "bytes= 0-15",
        "bytes=00-15",
        "bytes=01-15",
        "bytes=+0-15",
        "bytes=-0",
        "bytes=-12-15",
        "bytes=1 -3",
        "bytes=a-b",
        "bytes=1-2-3",
        "bytes=--5",
        "bytes=5",
        "bytes=-",
        "bytes=",
        "bytes",
        "octets=1-3",
        "foobar",
        "",
        "bytes=18446744073709551616-",
        "bytes=18446744073709551615-",
        "bytes=0-18446744073709551615",
        "bytes=bytes=1-2",
    ];
    let sizes = [1u64, 2, 15, 16, 475, 500, u64::MAX];

    for header in headers {
        for size in sizes {
            assert_eq!(
                single_range_mine(header, size),
                single_range_ext(header, size),
                "disagreement on {:?} at size {}",
                header,
                size
            );
        }
    }
}
