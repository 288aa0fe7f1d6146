//! The delivery engine on whole requests: status, headers and body
//! selector for a 475-byte file, mirroring real request shapes.

use lwoss::range::BodySelect;
use lwoss::range::CacheIdentifier;
use lwoss::range::ContentRangeHeader;
use lwoss::range::FileMeta;
use lwoss::range::OpenFailure;
use lwoss::range::Reply;
use lwoss::range::RequestHeaders;
use lwoss::range::ValidatorHeader;
use lwoss::range::send_file;
use lwoss::range::send_range;

const SIZE: u64 = 475;

fn stub_meta() -> FileMeta {
    FileMeta { size: SIZE, mime: "text/plain".to_string(), cache: CacheIdentifier::Disabled }
}

fn with_range(value: &str) -> RequestHeaders {
    RequestHeaders {
        range: Some(value.as_bytes().to_vec()),
        if_none_match: None,
        if_unmodified_since: None,
    }
}

fn assert_unsatisfiable(r: &Reply) {
    assert_eq!(r.status, 416);
    assert_eq!(r.content_range, Some(ContentRangeHeader::Unsatisfied { size: SIZE }));
    assert_eq!(r.content_length, None);
    assert_eq!(r.body, BodySelect::Empty);
}

#[test]
fn not_found() {
    let headers = RequestHeaders::new();
    let r = send_file(Err(OpenFailure::NotFound), &headers);
    assert_eq!(r.status, 404);
    assert_eq!(r.body, BodySelect::Empty);

    let r = send_file(Err(OpenFailure::Other), &headers);
    assert_eq!(r.status, 500);
    assert_eq!(r.body, BodySelect::Empty);
}

#[test]
fn invalid_range() {
    let r = send_range(&with_range("foobar"), stub_meta());
    assert_unsatisfiable(&r);
}

#[test]
fn non_range() {
    let r = send_range(&RequestHeaders::new(), stub_meta());
    assert_eq!(r.status, 200);
    assert_eq!(r.content_length, Some(SIZE));
    assert_eq!(r.content_type.as_deref(), Some("text/plain"));
    assert_eq!(r.content_range, None);
    assert!(r.accept_ranges);
    assert_eq!(r.body, BodySelect::WholeFile);
}

#[test]
fn single() {
    let r = send_range(&with_range("bytes=1-3"), stub_meta());
    assert_eq!(r.status, 206);
    assert_eq!(r.content_range, Some(ContentRangeHeader::Span { start: 1, end: 3, size: SIZE }));
    assert_eq!(r.content_length, Some(3));
    assert_eq!(r.content_type.as_deref(), Some("text/plain"));
    assert_eq!(r.body, BodySelect::Slice { start: 1, end: 3 });
}

#[test]
fn begin_only() {
    let r = send_range(&with_range("bytes=470-"), stub_meta());
    assert_eq!(r.status, 206);
    assert_eq!(r.content_range, Some(ContentRangeHeader::Span { start: 470, end: 474, size: SIZE }));
    assert_eq!(r.content_length, Some(5));
    assert_eq!(r.body, BodySelect::Slice { start: 470, end: 474 });
}

#[test]
fn end_only() {
    let r = send_range(&with_range("bytes=-2"), stub_meta());
    assert_eq!(r.status, 206);
    assert_eq!(r.content_range, Some(ContentRangeHeader::Span { start: 473, end: 474, size: SIZE }));
    assert_eq!(r.content_length, Some(2));
    assert_eq!(r.body, BodySelect::Slice { start: 473, end: 474 });
}

#[test]
fn multiple() {
    let r = send_range(&with_range("bytes=80-83,429-472,294-304"), stub_meta());
    assert_unsatisfiable(&r);
}

#[test]
fn etag() {
    let meta = FileMeta {
        size: SIZE,
        mime: "image/png".to_string(),
        cache: CacheIdentifier::Etag("AQIDBAUGBwgJCgsMDQ4P".to_string()),
    };
    let headers = RequestHeaders {
        range: Some(b"bytes=1-3".to_vec()),
        if_none_match: Some("AQIDBAUGBwgJCgsMDQ4P".to_string()),
        if_unmodified_since: None,
    };
    // The conditional check wins over any Range header.
    let r = send_range(&headers, meta);
    assert_eq!(r.status, 304);
    assert_eq!(r.body, BodySelect::Empty);
    assert!(matches!(r.validator, ValidatorHeader::Absent));
}

#[test]
fn etag_mismatch_serves_body() {
    let meta = FileMeta {
        size: SIZE,
        mime: "image/png".to_string(),
        cache: CacheIdentifier::Etag("AQIDBAUGBwgJCgsMDQ4P".to_string()),
    };
    let headers = RequestHeaders {
        range: None,
        if_none_match: Some("someotheretag".to_string()),
        if_unmodified_since: None,
    };
    let r = send_range(&headers, meta);
    assert_eq!(r.status, 200);
    match &r.validator {
        ValidatorHeader::Etag(v) => assert_eq!(v, "AQIDBAUGBwgJCgsMDQ4P"),
        _ => panic!("expected an ETag validator"),
    }
}

#[test]
fn last_modified_round_trip() {
    // 784111777 is Sun, 06 Nov 1994 08:49:37 GMT, the RFC example date.
    let meta = FileMeta {
        size: SIZE,
        mime: "text/plain".to_string(),
        cache: CacheIdentifier::Modified(784111777),
    };
    let headers = RequestHeaders::new();
    let r = send_range(&headers, meta);
    assert_eq!(r.status, 200);
    match &r.validator {
        ValidatorHeader::LastModified(d) => assert_eq!(d, "Sun, 06 Nov 1994 08:49:37 GMT"),
        _ => panic!("expected a Last-Modified validator"),
    }
}

#[test]
fn if_unmodified_since_short_circuit() {
    let meta = FileMeta {
        size: SIZE,
        mime: "text/plain".to_string(),
        cache: CacheIdentifier::Modified(784111777),
    };
    let headers = RequestHeaders {
        range: None,
        if_none_match: None,
        if_unmodified_since: Some("Sun, 06 Nov 1994 08:49:37 GMT".to_string()),
    };
    let r = send_range(&headers, meta);
    assert_eq!(r.status, 304);
    assert_eq!(r.body, BodySelect::Empty);
}

#[test]
fn if_unmodified_since_other_time_serves_body() {
    let meta = FileMeta {
        size: SIZE,
        mime: "text/plain".to_string(),
        cache: CacheIdentifier::Modified(784111778),
    };
    let headers = RequestHeaders {
        range: None,
        if_none_match: None,
        if_unmodified_since: Some("Sun, 06 Nov 1994 08:49:37 GMT".to_string()),
    };
    let r = send_range(&headers, meta);
    assert_eq!(r.status, 200);
}

#[test]
fn from_policy_picks_validator() {
    let c = CacheIdentifier::from_policy(lwoss::range::FileCache::Hashed("h".to_string()), None);
    assert!(matches!(c, CacheIdentifier::Etag(ref v) if v == "h"));
    let c = CacheIdentifier::from_policy(lwoss::range::FileCache::Modified, Some(7));
    assert!(matches!(c, CacheIdentifier::Modified(7)));
    let c = CacheIdentifier::from_policy(lwoss::range::FileCache::Modified, None);
    assert!(matches!(c, CacheIdentifier::Disabled));
    let c = CacheIdentifier::from_policy(lwoss::range::FileCache::Disabled, Some(7));
    assert!(matches!(c, CacheIdentifier::Disabled));
}
