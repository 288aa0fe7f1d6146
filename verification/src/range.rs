//! The range/conditional delivery engine.
//!
//! Everything here is a pure decision: given the plain values of the request
//! headers and the file's metadata, compute a response descriptor (status,
//! headers, body selector). Opening files and streaming bytes happen outside.
//!
//! The `Range` header grammar is strict: `bytes=` followed by comma-separated
//! ranges `a-b`, `a-` or `-k`, decimal without leading zeroes, at most one
//! whitespace character per piece and none at its end. Multi-range requests
//! are never served; they fall back to "range not satisfiable".

use vstd::prelude::*;
use vstd::slice::slice_subrange;

verus! {

// ---------------------------------------------------------------------------
// Bytes and digits
// ---------------------------------------------------------------------------

/// ASCII whitespace, the characters `char::is_whitespace` accepts below 0x80.
pub open spec fn is_ws(b: u8) -> bool {
    b == 32 || b == 9 || b == 10 || b == 11 || b == 12 || b == 13
}

/// ASCII decimal digit.
pub open spec fn is_digit(b: u8) -> bool {
    48 <= b && b <= 57
}

pub open spec fn all_digits(s: Seq<u8>) -> bool {
    forall|i: int| 0 <= i < s.len() ==> is_digit(#[trigger] s[i])
}

/// The number written by a digit sequence, most significant digit first.
pub open spec fn digits_val(s: Seq<u8>) -> int
    decreases s.len(),
{
    if s.len() == 0 {
        0
    } else {
        digits_val(s.drop_last()) * 10 + (s.last() - 48)
    }
}

/// A strictly written u64: nonempty, all digits, no leading zero unless the
/// number is exactly "0", and within range.
pub open spec fn is_strict_u64(s: Seq<u8>) -> bool {
    s.len() > 0 && all_digits(s) && (s.len() == 1 || s[0] != 48) && digits_val(s) <= u64::MAX
}

pub open spec fn count_ws(s: Seq<u8>) -> int
    decreases s.len(),
{
    if s.len() == 0 {
        0
    } else {
        count_ws(s.drop_last()) + if is_ws(s.last()) {
            1int
        } else {
            0int
        }
    }
}

proof fn lemma_digits_val_nonneg(s: Seq<u8>)
    requires
        all_digits(s),
    ensures
        digits_val(s) >= 0,
    decreases s.len(),
{
    if s.len() > 0 {
        assert(all_digits(s.drop_last()));
        lemma_digits_val_nonneg(s.drop_last());
    }
}

/// A digit string is at least as large as any of its prefixes.
proof fn lemma_digits_val_prefix_le(s: Seq<u8>, k: int)
    requires
        all_digits(s),
        0 <= k <= s.len(),
    ensures
        digits_val(s.take(k)) <= digits_val(s),
    decreases s.len(),
{
    if k == s.len() {
        assert(s.take(k) =~= s);
    } else {
        let d = s.drop_last();
        assert(d =~= s.take(s.len() - 1));
        assert(all_digits(d));
        lemma_digits_val_prefix_le(d, k);
        assert(d.take(k) =~= s.take(k));
        lemma_digits_val_nonneg(d);
    }
}

// ---------------------------------------------------------------------------
// Splitting a byte string on a separator
// ---------------------------------------------------------------------------

/// The pieces of `cur + s` once every separator in `s` is consumed; `cur` is
/// the piece under construction.
pub open spec fn spec_split_byte(s: Seq<u8>, sep: u8, cur: Seq<u8>) -> Seq<Seq<u8>>
    decreases s.len(),
{
    if s.len() == 0 {
        seq![cur]
    } else if s[0] == sep {
        seq![cur] + spec_split_byte(s.skip(1), sep, Seq::empty())
    } else {
        spec_split_byte(s.skip(1), sep, cur.push(s[0]))
    }
}

/// `s` split on `sep`; always at least one piece, empty pieces kept.
pub open spec fn spec_split_bytes(s: Seq<u8>, sep: u8) -> Seq<Seq<u8>> {
    spec_split_byte(s, sep, Seq::empty())
}

pub(crate) fn split_bytes(s: &[u8], sep: u8) -> (r: Vec<Vec<u8>>)
    ensures
        r@.map_values(|p: Vec<u8>| p@) == spec_split_bytes(s@, sep),
{
    let mut done: Vec<Vec<u8>> = Vec::new();
    let mut cur: Vec<u8> = Vec::new();
    let mut i: usize = 0;
    proof {
        assert(s@.skip(0) =~= s@);
        assert(done@.map_values(|p: Vec<u8>| p@) =~= Seq::<Seq<u8>>::empty());
        assert(Seq::<Seq<u8>>::empty() + spec_split_byte(s@, sep, cur@) =~= spec_split_byte(
            s@,
            sep,
            cur@,
        ));
    }
    while i < s.len()
        invariant
            i <= s.len(),
            spec_split_bytes(s@, sep) == done@.map_values(|p: Vec<u8>| p@) + spec_split_byte(
                s@.skip(i as int),
                sep,
                cur@,
            ),
        decreases s.len() - i,
    {
        let b = s[i];
        proof {
            assert(s@.skip(i as int).skip(1) =~= s@.skip(i as int + 1));
            assert(s@.skip(i as int)[0] == s@[i as int]);
        }
        if b == sep {
            let ghost old_done = done@;
            let ghost old_cur = cur@;
            done.push(cur);
            cur = Vec::new();
            proof {
                assert(done@.map_values(|p: Vec<u8>| p@) =~= old_done.map_values(
                    |p: Vec<u8>| p@,
                ).push(old_cur));
            }
        } else {
            cur.push(b);
        }
        i += 1;
    }
    proof {
        assert(s@.skip(s@.len() as int) =~= Seq::<u8>::empty());
    }
    let ghost old_done = done@;
    let ghost old_cur = cur@;
    done.push(cur);
    proof {
        assert(done@.map_values(|p: Vec<u8>| p@) =~= old_done.map_values(|p: Vec<u8>| p@).push(
            old_cur,
        ));
    }
    done
}

// ---------------------------------------------------------------------------
// Strict decimal parsing
// ---------------------------------------------------------------------------

pub(crate) fn parse_strict_u64(s: &[u8]) -> (r: Option<u64>)
    ensures
        match r {
            Some(v) => is_strict_u64(s@) && v == digits_val(s@),
            None => !is_strict_u64(s@),
        },
{
    if s.len() == 0 {
        return None;
    }
    if s.len() > 1 && s[0] == 48 {
        return None;
    }
    let mut val: u64 = 0;
    let mut i: usize = 0;
    while i < s.len()
        invariant
            i <= s.len(),
            s.len() > 0,
            forall|j: int| 0 <= j < i ==> is_digit(#[trigger] s@[j]),
            val == digits_val(s@.take(i as int)),
        decreases s.len() - i,
    {
        let b = s[i];
        if b < 48 || b > 57 {
            assert(!all_digits(s@));
            return None;
        }
        proof {
            assert(s@.take(i as int + 1).drop_last() =~= s@.take(i as int));
        }
        let stepped = match val.checked_mul(10) {
            Some(v10) => v10.checked_add((b - 48) as u64),
            None => None,
        };
        match stepped {
            Some(nv) => {
                val = nv;
            },
            None => {
                // The prefix up to and including this digit already exceeds
                // u64::MAX, so the whole digit string does too.
                assert(digits_val(s@.take(i as int + 1)) > u64::MAX);
                assert(!is_strict_u64(s@)) by {
                    if all_digits(s@) {
                        lemma_digits_val_prefix_le(s@, i as int + 1);
                    }
                }
                return None;
            },
        }
        i += 1;
    }
    proof {
        assert(s@.take(s@.len() as int) =~= s@);
    }
    Some(val)
}

// ---------------------------------------------------------------------------
// The Range header grammar
// ---------------------------------------------------------------------------

/// One range as written in the header, before the file size is known.
#[derive(Clone, Copy, Debug, PartialEq, Eq, Structural)]
pub enum ParsedRange {
    /// `a-b`: from byte `a` through byte `b`.
    FromTo { start: u64, end: u64 },
    /// `a-`: from byte `a` through the last byte.
    From { start: u64 },
    /// `-k`: the final `k` bytes; `k` is never zero.
    Suffix { last: u64 },
}

/// One comma-separated piece, parsed: exactly one dash, and a strict decimal
/// on the side(s) that carry one. A suffix of zero bytes is rejected.
pub open spec fn spec_parse_piece(p: Seq<u8>) -> Option<ParsedRange> {
    let parts = spec_split_bytes(p, 45);
    if parts.len() != 2 {
        None
    } else {
        let left = parts[0];
        let right = parts[1];
        if left.len() == 0 {
            if is_strict_u64(right) && digits_val(right) > 0 {
                Some(ParsedRange::Suffix { last: digits_val(right) as u64 })
            } else {
                None
            }
        } else if !is_strict_u64(left) {
            None
        } else if right.len() == 0 {
            Some(ParsedRange::From { start: digits_val(left) as u64 })
        } else if is_strict_u64(right) {
            Some(
                ParsedRange::FromTo {
                    start: digits_val(left) as u64,
                    end: digits_val(right) as u64,
                },
            )
        } else {
            None
        }
    }
}

/// At most one leading whitespace character is tolerated per piece; strip it.
pub open spec fn spec_trim_lead(p: Seq<u8>) -> Seq<u8> {
    if p.len() > 0 && is_ws(p[0]) {
        p.skip(1)
    } else {
        p
    }
}

/// A piece is acceptable if it holds at most one whitespace character, none
/// at its end, and parses once that whitespace is stripped.
pub open spec fn spec_check_piece(p: Seq<u8>) -> Option<ParsedRange> {
    if p.len() > 0 && is_ws(p.last()) {
        None
    } else if count_ws(p) > 1 {
        None
    } else {
        spec_parse_piece(spec_trim_lead(p))
    }
}

/// The bytes of the mandatory `bytes=` prefix.
pub open spec fn spec_bytes_prefix() -> Seq<u8> {
    seq![98u8, 121u8, 116u8, 101u8, 115u8, 61u8]
}

pub open spec fn all_pieces_parse(ps: Seq<Seq<u8>>) -> bool {
    forall|i: int| 0 <= i < ps.len() ==> (#[trigger] spec_check_piece(ps[i])) is Some
}

/// The whole header: `bytes=` followed by comma-separated pieces, the first
/// of which may not start with whitespace. `None` means malformed.
pub open spec fn spec_parse_range_header(h: Seq<u8>) -> Option<Seq<ParsedRange>> {
    if h.len() < 6 || h.take(6) != spec_bytes_prefix() {
        None
    } else {
        let rest = h.skip(6);
        if rest.len() > 0 && is_ws(rest[0]) {
            None
        } else {
            let ps = spec_split_bytes(rest, 44);
            if all_pieces_parse(ps) {
                Some(ps.map_values(|p: Seq<u8>| spec_check_piece(p)->Some_0))
            } else {
                None
            }
        }
    }
}

fn parse_piece(p: &[u8]) -> (r: Option<ParsedRange>)
    ensures
        r == spec_parse_piece(p@),
{
    let parts = split_bytes(p, 45);
    proof {
        assert(parts@.map_values(|q: Vec<u8>| q@).len() == parts@.len());
    }
    if parts.len() != 2 {
        return None;
    }
    let left = &parts[0];
    let right = &parts[1];
    proof {
        assert(left@ == spec_split_bytes(p@, 45)[0]);
        assert(right@ == spec_split_bytes(p@, 45)[1]);
    }
    if left.len() == 0 {
        match parse_strict_u64(right.as_slice()) {
            Some(k) => {
                if k > 0 {
                    proof {
                        lemma_digits_val_nonneg(right@);
                    }
                    Some(ParsedRange::Suffix { last: k })
                } else {
                    None
                }
            },
            None => None,
        }
    } else {
        match parse_strict_u64(left.as_slice()) {
            None => None,
            Some(a) => {
                if right.len() == 0 {
                    Some(ParsedRange::From { start: a })
                } else {
                    match parse_strict_u64(right.as_slice()) {
                        Some(b) => Some(ParsedRange::FromTo { start: a, end: b }),
                        None => None,
                    }
                }
            },
        }
    }
}

fn check_piece(p: &[u8]) -> (r: Option<ParsedRange>)
    ensures
        r == spec_check_piece(p@),
{
    let n = p.len();
    if n > 0 {
        let last = p[n - 1];
        if last == 32 || last == 9 || last == 10 || last == 11 || last == 12 || last == 13 {
            return None;
        }
    }
    let mut ws: u64 = 0;
    let mut i: usize = 0;
    while i < n
        invariant
            i <= n,
            n == p@.len(),
            ws == count_ws(p@.take(i as int)),
            ws <= i,
        decreases n - i,
    {
        let b = p[i];
        proof {
            assert(p@.take(i as int + 1).drop_last() =~= p@.take(i as int));
        }
        if b == 32 || b == 9 || b == 10 || b == 11 || b == 12 || b == 13 {
            ws = ws + 1;
        }
        i += 1;
    }
    proof {
        assert(p@.take(n as int) =~= p@);
    }
    if ws > 1 {
        return None;
    }
    if n > 0 {
        let first = p[0];
        if first == 32 || first == 9 || first == 10 || first == 11 || first == 12 || first == 13 {
            let rest = slice_subrange(p, 1, n);
            return parse_piece(rest);
        }
    }
    parse_piece(p)
}

/// Parses a `Range` header value. `None` means the header is malformed and
/// the request is not satisfiable.
pub fn parse_range_header(h: &[u8]) -> (r: Option<Vec<ParsedRange>>)
    ensures
        match r {
            Some(v) => spec_parse_range_header(h@) == Some(v@),
            None => spec_parse_range_header(h@) is None,
        },
{
    if h.len() < 6 {
        return None;
    }
    if !(h[0] == 98 && h[1] == 121 && h[2] == 116 && h[3] == 101 && h[4] == 115 && h[5] == 61) {
        proof {
            assert(h@.take(6) != spec_bytes_prefix()) by {
                if h@.take(6) == spec_bytes_prefix() {
                    assert(h@[0] == 98 && h@[1] == 121 && h@[2] == 116 && h@[3] == 101 && h@[4]
                        == 115 && h@[5] == 61) by {
                        assert(h@.take(6)[0] == h@[0]);
                        assert(h@.take(6)[1] == h@[1]);
                        assert(h@.take(6)[2] == h@[2]);
                        assert(h@.take(6)[3] == h@[3]);
                        assert(h@.take(6)[4] == h@[4]);
                        assert(h@.take(6)[5] == h@[5]);
                    }
                }
            }
        }
        return None;
    }
    proof {
        assert(h@.take(6) =~= spec_bytes_prefix());
    }
    let n = h.len();
    if n > 6 {
        let b = h[6];
        if b == 32 || b == 9 || b == 10 || b == 11 || b == 12 || b == 13 {
            proof {
                assert(h@.skip(6)[0] == h@[6]);
            }
            return None;
        }
    }
    let rest = slice_subrange(h, 6, n);
    proof {
        assert(rest@ =~= h@.skip(6));
        if h@.len() > 6 {
            assert(h@.skip(6)[0] == h@[6]);
        }
    }
    let pieces = split_bytes(rest, 44);
    let ghost ps = spec_split_bytes(rest@, 44);
    let mut out: Vec<ParsedRange> = Vec::new();
    let mut i: usize = 0;
    proof {
        assert(pieces@.map_values(|q: Vec<u8>| q@).len() == pieces@.len());
    }
    while i < pieces.len()
        invariant
            i <= pieces.len(),
            h@.len() >= 6,
            h@.take(6) == spec_bytes_prefix(),
            !(h@.skip(6).len() > 0 && is_ws(h@.skip(6)[0])),
            ps == spec_split_bytes(h@.skip(6), 44),
            ps == pieces@.map_values(|q: Vec<u8>| q@),
            ps.len() == pieces@.len(),
            forall|j: int| 0 <= j < i ==> (#[trigger] spec_check_piece(ps[j])) is Some,
            out@ == ps.take(i as int).map_values(|p: Seq<u8>| spec_check_piece(p)->Some_0),
        decreases pieces.len() - i,
    {
        proof {
            assert(ps[i as int] == pieces@[i as int]@);
        }
        match check_piece(pieces[i].as_slice()) {
            Some(pr) => {
                out.push(pr);
                proof {
                    assert(out@ =~= ps.take(i as int + 1).map_values(
                        |p: Seq<u8>| spec_check_piece(p)->Some_0,
                    ));
                }
            },
            None => {
                proof {
                    assert(spec_check_piece(ps[i as int]) is None);
                    assert(!all_pieces_parse(ps));
                }
                return None;
            },
        }
        i += 1;
    }
    proof {
        assert(ps.take(ps.len() as int) =~= ps);
        assert(all_pieces_parse(ps));
    }
    Some(out)
}

// ---------------------------------------------------------------------------
// Validating a parsed range against the file size
// ---------------------------------------------------------------------------

/// An inclusive byte range within a file: `start <= end < size` of the file
/// it was validated against.
#[derive(Clone, Copy, Debug, PartialEq, Eq, Structural)]
pub struct ByteRange {
    pub start: u64,
    pub end: u64,
}

impl ByteRange {
    /// How many bytes the range covers.
    pub open spec fn spec_length(self) -> int {
        self.end - self.start + 1
    }
}

/// A parsed range against the actual file size. An explicit end is clamped to
/// the last byte; a start at or past the end of the file, a suffix longer
/// than the file, and any range of an empty file are rejected, not clamped.
pub open spec fn spec_resolve(r: ParsedRange, size: u64) -> Option<ByteRange> {
    if size == 0 {
        None
    } else {
        match r {
            ParsedRange::FromTo { start, end } => {
                let e = if end < size - 1 {
                    end as int
                } else {
                    size - 1
                };
                if start <= e {
                    Some(ByteRange { start, end: e as u64 })
                } else {
                    None
                }
            },
            ParsedRange::From { start } => {
                if start < size {
                    Some(ByteRange { start, end: (size - 1) as u64 })
                } else {
                    None
                }
            },
            ParsedRange::Suffix { last } => {
                if last == 0 || last > size {
                    None
                } else {
                    Some(ByteRange { start: (size - last) as u64, end: (size - 1) as u64 })
                }
            },
        }
    }
}

pub fn resolve_range(r: ParsedRange, size: u64) -> (out: Option<ByteRange>)
    ensures
        out == spec_resolve(r, size),
{
    if size == 0 {
        return None;
    }
    match r {
        ParsedRange::FromTo { start, end } => {
            let e = if end < size - 1 {
                end
            } else {
                size - 1
            };
            if start <= e {
                Some(ByteRange { start, end: e })
            } else {
                None
            }
        },
        ParsedRange::From { start } => {
            if start < size {
                Some(ByteRange { start, end: size - 1 })
            } else {
                None
            }
        },
        ParsedRange::Suffix { last } => {
            if last == 0 || last > size {
                None
            } else {
                Some(ByteRange { start: size - last, end: size - 1 })
            }
        },
    }
}

/// What a `Range` header asks of a file of the given size: a single
/// satisfiable range, or nothing. `None` stands both for malformed headers
/// and for requests this engine refuses to serve: several ranges at once,
/// or a range outside the file.
pub open spec fn spec_range_outcome(h: Seq<u8>, size: u64) -> Option<ByteRange> {
    match spec_parse_range_header(h) {
        None => None,
        Some(rs) => if rs.len() == 1 {
            spec_resolve(rs[0], size)
        } else {
            None
        },
    }
}

/// Parses and validates a `Range` header against the file size.
pub fn check_range_header(h: &[u8], size: u64) -> (r: Option<ByteRange>)
    ensures
        r == spec_range_outcome(h@, size),
{
    match parse_range_header(h) {
        None => None,
        Some(rs) => {
            if rs.len() == 1 {
                resolve_range(rs[0], size)
            } else {
                None
            }
        },
    }
}

// ---------------------------------------------------------------------------
// Cache validators
// ---------------------------------------------------------------------------

/// Seconds from the epoch to the year 9999; HTTP dates stop there.
pub const HTTP_DATE_LIMIT_SECS: u64 = 253402300800;

/// The caching policy chosen for a response before the file is opened.
pub enum FileCache {
    /// Emit no validator and skip conditional checks.
    Disabled,
    /// The object is content-addressed; its hash is the ETag.
    Hashed(String),
    /// Use the file's modification time as the validator.
    Modified,
}

/// The validator attached to an outgoing response, with its data.
pub enum CacheIdentifier {
    Disabled,
    /// An ETag compared verbatim against `If-None-Match`.
    Etag(String),
    /// A modification time in whole seconds from the epoch.
    Modified(u64),
}

pub enum FileCacheView {
    Disabled,
    Hashed(Seq<char>),
    Modified,
}

pub enum CacheIdentifierView {
    Disabled,
    Etag(Seq<char>),
    Modified(u64),
}

impl View for FileCache {
    type V = FileCacheView;

    open spec fn view(&self) -> FileCacheView {
        match self {
            FileCache::Disabled => FileCacheView::Disabled,
            FileCache::Hashed(h) => FileCacheView::Hashed(h@),
            FileCache::Modified => FileCacheView::Modified,
        }
    }
}

impl View for CacheIdentifier {
    type V = CacheIdentifierView;

    open spec fn view(&self) -> CacheIdentifierView {
        match self {
            CacheIdentifier::Disabled => CacheIdentifierView::Disabled,
            CacheIdentifier::Etag(e) => CacheIdentifierView::Etag(e@),
            CacheIdentifier::Modified(t) => CacheIdentifierView::Modified(*t),
        }
    }
}

/// A modification time this engine can format as an HTTP date.
pub open spec fn cache_wf(c: CacheIdentifierView) -> bool {
    match c {
        CacheIdentifierView::Modified(t) => t < HTTP_DATE_LIMIT_SECS,
        _ => true,
    }
}

/// How a policy and an optional modification time pick the validator.
pub open spec fn spec_from_policy(c: FileCacheView, mtime: Option<u64>) -> CacheIdentifierView {
    match c {
        FileCacheView::Disabled => CacheIdentifierView::Disabled,
        FileCacheView::Hashed(h) => CacheIdentifierView::Etag(h),
        FileCacheView::Modified => match mtime {
            Some(t) => CacheIdentifierView::Modified(t),
            None => CacheIdentifierView::Disabled,
        },
    }
}

impl CacheIdentifier {
    /// Chooses the validator for a response: a hash-named object carries its
    /// hash as ETag, otherwise the file's modification time when available.
    pub fn from_policy(cache: FileCache, mtime: Option<u64>) -> (r: CacheIdentifier)
        ensures
            r@ == spec_from_policy(cache@, mtime),
    {
        match cache {
            FileCache::Disabled => CacheIdentifier::Disabled,
            FileCache::Hashed(h) => CacheIdentifier::Etag(h),
            FileCache::Modified => match mtime {
                Some(t) => CacheIdentifier::Modified(t),
                None => CacheIdentifier::Disabled,
            },
        }
    }
}

// ---------------------------------------------------------------------------
// HTTP dates
// ---------------------------------------------------------------------------

/// The timestamp an HTTP-date string denotes, in whole seconds from the
/// epoch, if it parses.
pub uninterp spec fn parsed_http_date(s: Seq<char>) -> Option<u64>;

/// The IMF-fixdate form of a timestamp given in seconds from the epoch.
pub uninterp spec fn http_date_of(t: u64) -> Seq<char>;

/// Relies on `httpdate::parse_http_date`: accepts the three fixed HTTP date
/// formats, in GMT only, so the result depends on the string alone; dates
/// before the epoch do not occur (parsed years start at 1970).
#[verifier::external_body]
fn parse_http_date_secs(s: &str) -> (r: Option<u64>)
    ensures
        r == parsed_http_date(s@),
{
    match httpdate::parse_http_date(s) {
        Ok(t) => match t.duration_since(std::time::UNIX_EPOCH) {
            Ok(d) => Some(d.as_secs()),
            Err(_) => None,
        },
        Err(_) => None,
    }
}

/// Relies on `httpdate::fmt_http_date`: formats a timestamp as an
/// IMF-fixdate, a function of the timestamp alone; it panics from the year
/// 9999 on, which the precondition rules out.
#[verifier::external_body]
fn format_http_date(t: u64) -> (r: String)
    requires
        t < HTTP_DATE_LIMIT_SECS,
    ensures
        r@ == http_date_of(t),
{
    httpdate::fmt_http_date(std::time::UNIX_EPOCH + std::time::Duration::from_secs(t))
}

// ---------------------------------------------------------------------------
// The response descriptor
// ---------------------------------------------------------------------------

/// The validator header an outgoing response carries.
pub enum ValidatorHeader {
    Absent,
    /// `ETag: <value>`
    Etag(String),
    /// `Last-Modified: <http-date>`
    LastModified(String),
}

pub enum ValidatorHeaderView {
    Absent,
    Etag(Seq<char>),
    LastModified(Seq<char>),
}

impl View for ValidatorHeader {
    type V = ValidatorHeaderView;

    open spec fn view(&self) -> ValidatorHeaderView {
        match self {
            ValidatorHeader::Absent => ValidatorHeaderView::Absent,
            ValidatorHeader::Etag(e) => ValidatorHeaderView::Etag(e@),
            ValidatorHeader::LastModified(d) => ValidatorHeaderView::LastModified(d@),
        }
    }
}

/// The `Content-Range` header of a 206 or 416 response.
#[derive(Clone, Copy, Debug, PartialEq, Eq, Structural)]
pub enum ContentRangeHeader {
    /// `bytes start-end/size`
    Span { start: u64, end: u64, size: u64 },
    /// `bytes */size`
    Unsatisfied { size: u64 },
}

/// Which bytes of the file the response body holds.
#[derive(Clone, Copy, Debug, PartialEq, Eq, Structural)]
pub enum BodySelect {
    Empty,
    WholeFile,
    /// The inclusive span `start..=end`, to be streamed after a seek.
    Slice { start: u64, end: u64 },
}

/// A response, decided: status, headers and body selector. The code that
/// owns the socket turns this into an actual HTTP response verbatim.
pub struct Reply {
    pub status: u16,
    pub validator: ValidatorHeader,
    pub content_range: Option<ContentRangeHeader>,
    pub content_length: Option<u64>,
    pub content_type: Option<String>,
    /// Whether `Accept-Ranges: bytes` is emitted.
    pub accept_ranges: bool,
    pub body: BodySelect,
}

#[verifier::ext_equal]
pub struct ReplyView {
    pub status: u16,
    pub validator: ValidatorHeaderView,
    pub content_range: Option<ContentRangeHeader>,
    pub content_length: Option<u64>,
    pub content_type: Option<Seq<char>>,
    pub accept_ranges: bool,
    pub body: BodySelect,
}

impl View for Reply {
    type V = ReplyView;

    open spec fn view(&self) -> ReplyView {
        ReplyView {
            status: self.status,
            validator: self.validator@,
            content_range: self.content_range,
            content_length: self.content_length,
            content_type: match &self.content_type {
                Some(m) => Some(m@),
                None => None,
            },
            accept_ranges: self.accept_ranges,
            body: self.body,
        }
    }
}

/// The request headers the engine reads, as plain values; absent or
/// non-ASCII headers arrive as `None`.
pub struct RequestHeaders {
    /// The raw `Range` header value.
    pub range: Option<Vec<u8>>,
    /// The `If-None-Match` header value.
    pub if_none_match: Option<String>,
    /// The `If-Unmodified-Since` header value.
    pub if_unmodified_since: Option<String>,
}

pub struct RequestHeadersView {
    pub range: Option<Seq<u8>>,
    pub if_none_match: Option<Seq<char>>,
    pub if_unmodified_since: Option<Seq<char>>,
}

impl View for RequestHeaders {
    type V = RequestHeadersView;

    open spec fn view(&self) -> RequestHeadersView {
        RequestHeadersView {
            range: match &self.range {
                Some(r) => Some(r@),
                None => None,
            },
            if_none_match: match &self.if_none_match {
                Some(s) => Some(s@),
                None => None,
            },
            if_unmodified_since: match &self.if_unmodified_since {
                Some(s) => Some(s@),
                None => None,
            },
        }
    }
}

impl RequestHeaders {
    /// Headers that ask for nothing special.
    pub fn new() -> (r: RequestHeaders)
        ensures
            r@.range is None,
            r@.if_none_match is None,
            r@.if_unmodified_since is None,
    {
        RequestHeaders { range: None, if_none_match: None, if_unmodified_since: None }
    }
}

/// What a file looks like to the delivery engine once opened: its size, the
/// content type to report, and the chosen cache validator.
pub struct FileMeta {
    pub size: u64,
    pub mime: String,
    pub cache: CacheIdentifier,
}

pub struct FileMetaView {
    pub size: u64,
    pub mime: Seq<char>,
    pub cache: CacheIdentifierView,
}

impl View for FileMeta {
    type V = FileMetaView;

    open spec fn view(&self) -> FileMetaView {
        FileMetaView { size: self.size, mime: self.mime@, cache: self.cache@ }
    }
}

/// Why opening the file failed, reduced to what the response needs.
#[derive(Clone, Copy, Debug, PartialEq, Eq, Structural)]
pub enum OpenFailure {
    /// The file does not exist: HTTP 404.
    NotFound,
    /// Any other I/O error: HTTP 500.
    Other,
}

// ---------------------------------------------------------------------------
// The decision
// ---------------------------------------------------------------------------

/// A conditional request that short-circuits to 304: `If-None-Match` equal,
/// verbatim, to the ETag, or `If-Unmodified-Since` parsing to exactly the
/// modification time. No weak validators, no lists, no ordering.
pub open spec fn spec_not_modified(h: RequestHeadersView, cache: CacheIdentifierView) -> bool {
    match cache {
        CacheIdentifierView::Etag(v) => h.if_none_match == Some(v),
        CacheIdentifierView::Modified(t) => match h.if_unmodified_since {
            Some(s) => parsed_http_date(s) == Some(t),
            None => false,
        },
        CacheIdentifierView::Disabled => false,
    }
}

/// The validator header emitted with a non-304 response.
pub open spec fn spec_validator_header(cache: CacheIdentifierView) -> ValidatorHeaderView {
    match cache {
        CacheIdentifierView::Disabled => ValidatorHeaderView::Absent,
        CacheIdentifierView::Etag(v) => ValidatorHeaderView::Etag(v),
        CacheIdentifierView::Modified(t) => ValidatorHeaderView::LastModified(http_date_of(t)),
    }
}

pub open spec fn spec_reply_not_modified() -> ReplyView {
    ReplyView {
        status: 304,
        validator: ValidatorHeaderView::Absent,
        content_range: None,
        content_length: None,
        content_type: None,
        accept_ranges: false,
        body: BodySelect::Empty,
    }
}

pub open spec fn spec_reply_whole(m: FileMetaView) -> ReplyView {
    ReplyView {
        status: 200,
        validator: spec_validator_header(m.cache),
        content_range: None,
        content_length: Some(m.size),
        content_type: Some(m.mime),
        accept_ranges: true,
        body: BodySelect::WholeFile,
    }
}

pub open spec fn spec_reply_partial(br: ByteRange, m: FileMetaView) -> ReplyView {
    ReplyView {
        status: 206,
        validator: spec_validator_header(m.cache),
        content_range: Some(ContentRangeHeader::Span { start: br.start, end: br.end, size: m.size }),
        content_length: Some(br.spec_length() as u64),
        content_type: Some(m.mime),
        accept_ranges: true,
        body: BodySelect::Slice { start: br.start, end: br.end },
    }
}

pub open spec fn spec_reply_unsatisfiable(m: FileMetaView) -> ReplyView {
    ReplyView {
        status: 416,
        validator: spec_validator_header(m.cache),
        content_range: Some(ContentRangeHeader::Unsatisfied { size: m.size }),
        content_length: None,
        content_type: None,
        accept_ranges: true,
        body: BodySelect::Empty,
    }
}

pub open spec fn spec_reply_error(status: u16) -> ReplyView {
    ReplyView {
        status,
        validator: ValidatorHeaderView::Absent,
        content_range: None,
        content_length: None,
        content_type: None,
        accept_ranges: false,
        body: BodySelect::Empty,
    }
}

/// The whole delivery decision for an opened file: conditional
/// short-circuit first, then no-range, single-range or unsatisfiable.
pub open spec fn spec_send_range(h: RequestHeadersView, m: FileMetaView) -> ReplyView {
    if spec_not_modified(h, m.cache) {
        spec_reply_not_modified()
    } else {
        match h.range {
            None => spec_reply_whole(m),
            Some(rh) => match spec_range_outcome(rh, m.size) {
                Some(br) => spec_reply_partial(br, m),
                None => spec_reply_unsatisfiable(m),
            },
        }
    }
}

/// The delivery decision including open failures: a missing file is 404,
/// any other I/O failure 500.
pub open spec fn spec_send_file(
    open_result: Result<FileMetaView, OpenFailure>,
    h: RequestHeadersView,
) -> ReplyView {
    match open_result {
        Ok(m) => spec_send_range(h, m),
        Err(OpenFailure::NotFound) => spec_reply_error(404),
        Err(OpenFailure::Other) => spec_reply_error(500),
    }
}

fn make_validator(cache: CacheIdentifier) -> (r: ValidatorHeader)
    requires
        cache_wf(cache@),
    ensures
        r@ == spec_validator_header(cache@),
{
    match cache {
        CacheIdentifier::Disabled => ValidatorHeader::Absent,
        CacheIdentifier::Etag(v) => ValidatorHeader::Etag(v),
        CacheIdentifier::Modified(t) => ValidatorHeader::LastModified(format_http_date(t)),
    }
}

/// Decides the response for an opened file, 206 Partial Content included.
///
/// Multi-range requests are refused: they answer 416 like malformed ones.
pub fn send_range(headers: &RequestHeaders, meta: FileMeta) -> (r: Reply)
    requires
        cache_wf(meta.cache@),
    ensures
        r@ == spec_send_range(headers@, meta@),
{
    let FileMeta { size, mime, cache } = meta;

    // Conditional short-circuit, before any range handling.
    match &cache {
        CacheIdentifier::Etag(v) => {
            if let Some(inm) = &headers.if_none_match {
                if *inm == *v {
                    return Reply {
                        status: 304,
                        validator: ValidatorHeader::Absent,
                        content_range: None,
                        content_length: None,
                        content_type: None,
                        accept_ranges: false,
                        body: BodySelect::Empty,
                    };
                }
            }
        },
        CacheIdentifier::Modified(t) => {
            if let Some(ius) = &headers.if_unmodified_since {
                if let Some(parsed) = parse_http_date_secs(ius.as_str()) {
                    if parsed == *t {
                        return Reply {
                            status: 304,
                            validator: ValidatorHeader::Absent,
                            content_range: None,
                            content_length: None,
                            content_type: None,
                            accept_ranges: false,
                            body: BodySelect::Empty,
                        };
                    }
                }
            }
        },
        CacheIdentifier::Disabled => {},
    }

    let validator = make_validator(cache);
    match &headers.range {
        None => Reply {
            status: 200,
            validator,
            content_range: None,
            content_length: Some(size),
            content_type: Some(mime),
            accept_ranges: true,
            body: BodySelect::WholeFile,
        },
        Some(rh) => match check_range_header(rh.as_slice(), size) {
            Some(br) => {
                proof {
                    lemma_resolve_within_outcome(rh@, size);
                }
                Reply {
                    status: 206,
                    validator,
                    content_range: Some(
                        ContentRangeHeader::Span { start: br.start, end: br.end, size },
                    ),
                    content_length: Some(br.end - br.start + 1),
                    content_type: Some(mime),
                    accept_ranges: true,
                    body: BodySelect::Slice { start: br.start, end: br.end },
                }
            },
            None => Reply {
                status: 416,
                validator,
                content_range: Some(ContentRangeHeader::Unsatisfied { size }),
                content_length: None,
                content_type: None,
                accept_ranges: true,
                body: BodySelect::Empty,
            },
        },
    }
}

/// A satisfiable outcome always lies within the file.
pub proof fn lemma_resolve_within_outcome(h: Seq<u8>, size: u64)
    ensures
        spec_range_outcome(h, size) matches Some(br) ==> br.start <= br.end < size,
{
}

/// Decides the response for a download request from the result of opening
/// the file: the delivery decision when it opened, 404 when it does not
/// exist, 500 on any other I/O failure.
pub fn send_file(open_result: Result<FileMeta, OpenFailure>, headers: &RequestHeaders) -> (r:
    Reply)
    requires
        open_result matches Ok(m) ==> cache_wf(m.cache@),
    ensures
        r@ == spec_send_file(spec_open_view(open_result), headers@),
{
    match open_result {
        Ok(meta) => send_range(headers, meta),
        Err(OpenFailure::NotFound) => Reply {
            status: 404,
            validator: ValidatorHeader::Absent,
            content_range: None,
            content_length: None,
            content_type: None,
            accept_ranges: false,
            body: BodySelect::Empty,
        },
        Err(OpenFailure::Other) => Reply {
            status: 500,
            validator: ValidatorHeader::Absent,
            content_range: None,
            content_length: None,
            content_type: None,
            accept_ranges: false,
            body: BodySelect::Empty,
        },
    }
}

/// The view of an open result, for contracts.
pub open spec fn spec_open_view(o: Result<FileMeta, OpenFailure>) -> Result<
    FileMetaView,
    OpenFailure,
> {
    match o {
        Ok(m) => Ok(m@),
        Err(e) => Err(e),
    }
}

// ---------------------------------------------------------------------------
// Laws of the delivery engine
// ---------------------------------------------------------------------------

/// Range correctness: a request whose `Range` header parses to the single
/// explicit range `a-b`, with `b` inside the file, is answered 206 with
/// exactly the bytes `[a, b]`, `Content-Range: bytes a-b/size` and
/// `Content-Length: b-a+1`.
pub proof fn lemma_range_correctness(h: RequestHeadersView, m: FileMetaView, a: u64, bnd: u64)
    requires
        !spec_not_modified(h, m.cache),
        h.range matches Some(rh) && spec_parse_range_header(rh) == Some(
            seq![ParsedRange::FromTo { start: a, end: bnd }],
        ),
        a <= bnd < m.size,
    ensures
        spec_send_range(h, m) == spec_reply_partial(ByteRange { start: a, end: bnd }, m),
        spec_send_range(h, m).status == 206,
        spec_send_range(h, m).content_range == Some(
            ContentRangeHeader::Span { start: a, end: bnd, size: m.size },
        ),
        spec_send_range(h, m).content_length == Some((bnd - a + 1) as u64),
        spec_send_range(h, m).body == (BodySelect::Slice { start: a, end: bnd }),
{
}

/// Suffix range: `-k` with `1 <= k <= size` is answered 206 with exactly
/// the last `k` bytes of the file.
pub proof fn lemma_suffix_range(h: RequestHeadersView, m: FileMetaView, k: u64)
    requires
        !spec_not_modified(h, m.cache),
        h.range matches Some(rh) && spec_parse_range_header(rh) == Some(
            seq![ParsedRange::Suffix { last: k }],
        ),
        1 <= k <= m.size,
    ensures
        spec_send_range(h, m).status == 206,
        spec_send_range(h, m).body == (BodySelect::Slice {
            start: (m.size - k) as u64,
            end: (m.size - 1) as u64,
        }),
        spec_send_range(h, m).content_length == Some(k),
{
}

/// Open-ended range: `a-` with `a` inside the file is answered 206 with
/// everything from byte `a` through the last byte.
pub proof fn lemma_open_ended_range(h: RequestHeadersView, m: FileMetaView, a: u64)
    requires
        !spec_not_modified(h, m.cache),
        h.range matches Some(rh) && spec_parse_range_header(rh) == Some(
            seq![ParsedRange::From { start: a }],
        ),
        a < m.size,
    ensures
        spec_send_range(h, m).status == 206,
        spec_send_range(h, m).body == (BodySelect::Slice {
            start: a,
            end: (m.size - 1) as u64,
        }),
        spec_send_range(h, m).content_length == Some((m.size - a) as u64),
{
}

/// Several comma-separated ranges are never served, however valid each one
/// is on its own: the outcome is unsatisfiable.
pub proof fn lemma_multi_range_unsatisfiable(rh: Seq<u8>, size: u64)
    requires
        spec_parse_range_header(rh) matches Some(rs) && rs.len() != 1,
    ensures
        spec_range_outcome(rh, size) is None,
{
}

/// Unsatisfiable or multi-range: when the `Range` header is present but
/// yields no single satisfiable range — malformed syntax, several ranges,
/// or a range outside the file — the response is 416 with
/// `Content-Range: bytes */size` and an empty body.
pub proof fn lemma_unsatisfiable_reply(h: RequestHeadersView, m: FileMetaView)
    requires
        !spec_not_modified(h, m.cache),
        h.range matches Some(rh) && spec_range_outcome(rh, m.size) is None,
    ensures
        spec_send_range(h, m).status == 416,
        spec_send_range(h, m).content_range == Some(
            ContentRangeHeader::Unsatisfied { size: m.size },
        ),
        spec_send_range(h, m).body == BodySelect::Empty,
        spec_send_range(h, m).content_length is None,
{
}

/// Conditional short-circuit: `If-None-Match` equal, verbatim, to the ETag
/// answers 304 with an empty body, whatever `Range` header is present.
pub proof fn lemma_etag_short_circuit(h: RequestHeadersView, m: FileMetaView, v: Seq<char>)
    requires
        m.cache == CacheIdentifierView::Etag(v),
        h.if_none_match == Some(v),
    ensures
        spec_send_range(h, m) == spec_reply_not_modified(),
        spec_send_range(h, m).status == 304,
        spec_send_range(h, m).body == BodySelect::Empty,
{
}

/// No-range full body: a request without a `Range` header that is not
/// short-circuited is answered 200 with `Content-Length: size` and the
/// whole file.
pub proof fn lemma_no_range_whole(h: RequestHeadersView, m: FileMetaView)
    requires
        !spec_not_modified(h, m.cache),
        h.range is None,
    ensures
        spec_send_range(h, m).status == 200,
        spec_send_range(h, m).content_length == Some(m.size),
        spec_send_range(h, m).body == BodySelect::WholeFile,
{
}

/// Missing file: a download whose file does not exist is answered 404, and
/// any other failure to open it 500, both with empty bodies.
pub proof fn lemma_open_failure_status(h: RequestHeadersView)
    ensures
        spec_send_file(Err(OpenFailure::NotFound), h).status == 404,
        spec_send_file(Err(OpenFailure::NotFound), h).body == BodySelect::Empty,
        spec_send_file(Err(OpenFailure::Other), h).status == 500,
        spec_send_file(Err(OpenFailure::Other), h).body == BodySelect::Empty,
{
}

// ---------------------------------------------------------------------------
// Writing a range header
// ---------------------------------------------------------------------------

/// The canonical decimal digits of a number, most significant first: what a
/// client writes into a `Range` header.
pub open spec fn spec_decimal(n: u64) -> Seq<u8>
    decreases n,
{
    if n < 10 {
        seq![(n + 48) as u8]
    } else {
        spec_decimal(n / 10).push((n % 10 + 48) as u8)
    }
}

/// A written decimal is a strict u64 naming the number itself.
proof fn lemma_decimal_strict(n: u64)
    ensures
        all_digits(spec_decimal(n)),
        spec_decimal(n).len() >= 1,
        n >= 1 ==> spec_decimal(n)[0] != 48,
        digits_val(spec_decimal(n)) == n,
        is_strict_u64(spec_decimal(n)),
    decreases n,
{
    if n < 10 {
        let s = spec_decimal(n);
        assert(s == seq![(n + 48) as u8]);
        assert(s.drop_last() =~= Seq::<u8>::empty());
        assert(s.last() == (n + 48) as u8);
        assert((n + 48) as u8 == n + 48);
        assert(digits_val(Seq::<u8>::empty()) == 0);
        assert(digits_val(s) == n);
        assert(all_digits(s)) by {
            assert(s[0] == (n + 48) as u8);
        }
    } else {
        lemma_decimal_strict(n / 10);
        let s = spec_decimal(n / 10);
        let d = (n % 10 + 48) as u8;
        assert(spec_decimal(n) == s.push(d));
        assert(s.push(d).drop_last() =~= s);
        assert(s.push(d).last() == d);
        assert(digits_val(s.push(d)) == digits_val(s) * 10 + (d - 48));
        assert(digits_val(s) * 10 + (d - 48) == n) by {
            assert(digits_val(s) == n / 10);
            assert(d - 48 == n % 10);
        }
        assert(all_digits(s.push(d))) by {
            assert forall|i: int| 0 <= i < s.push(d).len() implies is_digit(
                #[trigger] s.push(d)[i],
            ) by {
                if i < s.len() {
                    assert(s.push(d)[i] == s[i]);
                    assert(is_digit(s[i]));
                } else {
                    assert(s.push(d)[i] == d);
                }
            }
        }
        assert(s.push(d)[0] == s[0]);
    }
}

/// Splitting a string free of the separator yields it as the one piece.
proof fn lemma_split_no_sep(s: Seq<u8>, sep: u8, cur: Seq<u8>)
    requires
        forall|i: int| 0 <= i < s.len() ==> #[trigger] s[i] != sep,
    ensures
        spec_split_byte(s, sep, cur) == seq![cur + s],
    decreases s.len(),
{
    if s.len() == 0 {
        assert(cur + s =~= cur);
    } else {
        assert forall|i: int| 0 <= i < s.skip(1).len() implies #[trigger] s.skip(1)[i]
            != sep by {
            assert(s.skip(1)[i] == s[i + 1]);
        }
        lemma_split_no_sep(s.skip(1), sep, cur.push(s[0]));
        assert(cur.push(s[0]) + s.skip(1) =~= cur + s);
    }
}

/// Splitting around one separator cuts exactly there, when the left part is
/// free of it.
proof fn lemma_split_sep_between(u: Seq<u8>, v: Seq<u8>, sep: u8, cur: Seq<u8>)
    requires
        forall|i: int| 0 <= i < u.len() ==> #[trigger] u[i] != sep,
    ensures
        spec_split_byte(u + seq![sep] + v, sep, cur) == seq![cur + u] + spec_split_byte(
            v,
            sep,
            Seq::empty(),
        ),
    decreases u.len(),
{
    let s = u + seq![sep] + v;
    if u.len() == 0 {
        assert(s[0] == sep);
        assert(s.skip(1) =~= v);
        assert(cur + u =~= cur);
    } else {
        assert(s[0] == u[0]);
        assert(s.skip(1) =~= u.skip(1) + seq![sep] + v);
        assert forall|i: int| 0 <= i < u.skip(1).len() implies #[trigger] u.skip(1)[i]
            != sep by {
            assert(u.skip(1)[i] == u[i + 1]);
        }
        lemma_split_sep_between(u.skip(1), v, sep, cur.push(u[0]));
        assert(cur.push(u[0]) + u.skip(1) =~= cur + u);
    }
}

proof fn lemma_count_ws_zero(s: Seq<u8>)
    requires
        forall|i: int| 0 <= i < s.len() ==> !is_ws(#[trigger] s[i]),
    ensures
        count_ws(s) == 0,
    decreases s.len(),
{
    if s.len() > 0 {
        let d = s.drop_last();
        assert forall|i: int| 0 <= i < d.len() implies !is_ws(#[trigger] d[i]) by {
            assert(d[i] == s[i]);
        }
        lemma_count_ws_zero(d);
        assert(!is_ws(s.last()));
    }
}

/// On a piece free of whitespace, acceptance is parsing alone.
proof fn lemma_check_piece_no_ws(p: Seq<u8>)
    requires
        p.len() > 0,
        forall|i: int| 0 <= i < p.len() ==> !is_ws(#[trigger] p[i]),
    ensures
        spec_check_piece(p) == spec_parse_piece(p),
{
    lemma_count_ws_zero(p);
    assert(!is_ws(p.last()));
    assert(!is_ws(p[0]));
    assert(spec_trim_lead(p) == p);
}

/// The written piece `a-b` parses to the explicit range it names.
proof fn lemma_written_piece_fromto(a: u64, b: u64)
    ensures
        spec_parse_piece(spec_decimal(a) + seq![45u8] + spec_decimal(b)) == Some(
            ParsedRange::FromTo { start: a, end: b },
        ),
{
    lemma_decimal_strict(a);
    lemma_decimal_strict(b);
    let u = spec_decimal(a);
    let v = spec_decimal(b);
    assert forall|i: int| 0 <= i < u.len() implies #[trigger] u[i] != 45 by {
        assert(is_digit(u[i]));
    }
    assert forall|i: int| 0 <= i < v.len() implies #[trigger] v[i] != 45 by {
        assert(is_digit(v[i]));
    }
    lemma_split_sep_between(u, v, 45, Seq::empty());
    lemma_split_no_sep(v, 45, Seq::empty());
    assert(Seq::<u8>::empty() + u =~= u);
    assert(Seq::<u8>::empty() + v =~= v);
    let parts = spec_split_bytes(u + seq![45u8] + v, 45);
    assert(parts == seq![u] + seq![v]);
    assert(parts.len() == 2);
    assert(parts[0] == u);
    assert(parts[1] == v);
}

/// The written piece `a-` parses to the open-ended range it names.
proof fn lemma_written_piece_from(a: u64)
    ensures
        spec_parse_piece(spec_decimal(a) + seq![45u8]) == Some(ParsedRange::From { start: a }),
{
    lemma_decimal_strict(a);
    let u = spec_decimal(a);
    assert forall|i: int| 0 <= i < u.len() implies #[trigger] u[i] != 45 by {
        assert(is_digit(u[i]));
    }
    assert(u + seq![45u8] =~= u + seq![45u8] + Seq::<u8>::empty());
    lemma_split_sep_between(u, Seq::empty(), 45, Seq::empty());
    assert(Seq::<u8>::empty() + u =~= u);
    let parts = spec_split_bytes(u + seq![45u8], 45);
    assert(parts == seq![u] + seq![Seq::<u8>::empty()]);
    assert(parts.len() == 2);
    assert(parts[0] == u);
    assert(parts[1] == Seq::<u8>::empty());
}

/// The written piece `-k` parses to the suffix it names, for `k >= 1`.
proof fn lemma_written_piece_suffix(k: u64)
    requires
        k >= 1,
    ensures
        spec_parse_piece(seq![45u8] + spec_decimal(k)) == Some(ParsedRange::Suffix { last: k }),
{
    lemma_decimal_strict(k);
    let v = spec_decimal(k);
    assert forall|i: int| 0 <= i < v.len() implies #[trigger] v[i] != 45 by {
        assert(is_digit(v[i]));
    }
    assert(seq![45u8] + v =~= Seq::<u8>::empty() + seq![45u8] + v);
    lemma_split_sep_between(Seq::empty(), v, 45, Seq::empty());
    lemma_split_no_sep(v, 45, Seq::empty());
    assert(Seq::<u8>::empty() + v =~= v);
    assert(Seq::<u8>::empty() + Seq::<u8>::empty() =~= Seq::<u8>::empty());
    let parts = spec_split_bytes(seq![45u8] + v, 45);
    assert(parts == seq![Seq::<u8>::empty()] + seq![v]);
    assert(parts.len() == 2);
    assert(parts[0] == Seq::<u8>::empty());
    assert(parts[1] == v);
}

/// A whole header made of `bytes=` and one whitespace-free, comma-free piece
/// parses to exactly that piece's range.
proof fn lemma_written_header(p: Seq<u8>)
    requires
        p.len() > 0,
        forall|i: int| 0 <= i < p.len() ==> !is_ws(#[trigger] p[i]),
        forall|i: int| 0 <= i < p.len() ==> #[trigger] p[i] != 44,
        spec_parse_piece(p) is Some,
    ensures
        spec_parse_range_header(spec_bytes_prefix() + p) == Some(
            seq![spec_parse_piece(p)->Some_0],
        ),
{
    let h = spec_bytes_prefix() + p;
    assert(h.len() == 6 + p.len());
    assert(h.take(6) =~= spec_bytes_prefix());
    assert(h.skip(6) =~= p);
    assert(!is_ws(p[0]));
    lemma_split_no_sep(p, 44, Seq::empty());
    assert(Seq::<u8>::empty() + p =~= p);
    let ps = spec_split_bytes(p, 44);
    assert(ps == seq![p]);
    lemma_check_piece_no_ws(p);
    assert(ps[0] == p);
    assert(all_pieces_parse(ps)) by {
        assert forall|i: int| 0 <= i < ps.len() implies (#[trigger] spec_check_piece(
            ps[i],
        )) is Some by {
            assert(ps[i] == p);
        }
    }
    assert(ps.map_values(|q: Seq<u8>| spec_check_piece(q)->Some_0) =~= seq![
        spec_parse_piece(p)->Some_0,
    ]);
}

/// Range correctness over the header as written (the fully general form):
/// `bytes=a-b` in decimal, with `b` inside the file, is answered 206 with
/// exactly the bytes `[a, b]`, `Content-Range: bytes a-b/size` and
/// `Content-Length: b-a+1`.
pub proof fn lemma_written_range_correctness(
    h: RequestHeadersView,
    m: FileMetaView,
    a: u64,
    bnd: u64,
)
    requires
        !spec_not_modified(h, m.cache),
        h.range == Some(spec_bytes_prefix() + spec_decimal(a) + seq![45u8] + spec_decimal(bnd)),
        a <= bnd < m.size,
    ensures
        spec_send_range(h, m).status == 206,
        spec_send_range(h, m).content_range == Some(
            ContentRangeHeader::Span { start: a, end: bnd, size: m.size },
        ),
        spec_send_range(h, m).content_length == Some((bnd - a + 1) as u64),
        spec_send_range(h, m).body == (BodySelect::Slice { start: a, end: bnd }),
{
    let p = spec_decimal(a) + seq![45u8] + spec_decimal(bnd);
    assert(spec_bytes_prefix() + spec_decimal(a) + seq![45u8] + spec_decimal(bnd)
        =~= spec_bytes_prefix() + p);
    lemma_decimal_strict(a);
    lemma_decimal_strict(bnd);
    lemma_written_piece_fromto(a, bnd);
    assert forall|i: int| 0 <= i < p.len() implies !is_ws(#[trigger] p[i]) && p[i] != 44 by {
        let u = spec_decimal(a);
        let v = spec_decimal(bnd);
        if i < u.len() {
            assert(p[i] == u[i]);
            assert(is_digit(u[i]));
        } else if i == u.len() {
            assert(p[i] == 45);
        } else {
            assert(p[i] == v[i - u.len() - 1]);
            assert(is_digit(v[i - u.len() - 1]));
        }
    }
    lemma_written_header(p);
    lemma_range_correctness(h, m, a, bnd);
}

/// Suffix range over the header as written: `bytes=-k` in decimal, with
/// `1 <= k <= size`, is answered 206 with exactly the last `k` bytes.
pub proof fn lemma_written_suffix_range(h: RequestHeadersView, m: FileMetaView, k: u64)
    requires
        !spec_not_modified(h, m.cache),
        h.range == Some(spec_bytes_prefix() + seq![45u8] + spec_decimal(k)),
        1 <= k <= m.size,
    ensures
        spec_send_range(h, m).status == 206,
        spec_send_range(h, m).body == (BodySelect::Slice {
            start: (m.size - k) as u64,
            end: (m.size - 1) as u64,
        }),
        spec_send_range(h, m).content_length == Some(k),
{
    let p = seq![45u8] + spec_decimal(k);
    assert(spec_bytes_prefix() + seq![45u8] + spec_decimal(k) =~= spec_bytes_prefix() + p);
    lemma_decimal_strict(k);
    lemma_written_piece_suffix(k);
    assert forall|i: int| 0 <= i < p.len() implies !is_ws(#[trigger] p[i]) && p[i] != 44 by {
        let v = spec_decimal(k);
        if i == 0 {
            assert(p[i] == 45);
        } else {
            assert(p[i] == v[i - 1]);
            assert(is_digit(v[i - 1]));
        }
    }
    lemma_written_header(p);
    lemma_suffix_range(h, m, k);
}

/// Open-ended range over the header as written: `bytes=a-` in decimal, with
/// `a` inside the file, is answered 206 with everything from byte `a` on.
pub proof fn lemma_written_open_ended_range(h: RequestHeadersView, m: FileMetaView, a: u64)
    requires
        !spec_not_modified(h, m.cache),
        h.range == Some(spec_bytes_prefix() + spec_decimal(a) + seq![45u8]),
        a < m.size,
    ensures
        spec_send_range(h, m).status == 206,
        spec_send_range(h, m).body == (BodySelect::Slice { start: a, end: (m.size - 1) as u64 }),
        spec_send_range(h, m).content_length == Some((m.size - a) as u64),
{
    let p = spec_decimal(a) + seq![45u8];
    assert(spec_bytes_prefix() + spec_decimal(a) + seq![45u8] =~= spec_bytes_prefix() + p);
    lemma_decimal_strict(a);
    lemma_written_piece_from(a);
    assert forall|i: int| 0 <= i < p.len() implies !is_ws(#[trigger] p[i]) && p[i] != 44 by {
        let u = spec_decimal(a);
        if i < u.len() {
            assert(p[i] == u[i]);
            assert(is_digit(u[i]));
        } else {
            assert(p[i] == 45);
        }
    }
    lemma_written_header(p);
    lemma_open_ended_range(h, m, a);
}

/// Prefix range: on a file of at least five bytes, the written header
/// `bytes=<size-5>-` is answered 206 with exactly the last five bytes.
pub proof fn lemma_written_last_five(h: RequestHeadersView, m: FileMetaView)
    requires
        !spec_not_modified(h, m.cache),
        m.size >= 5,
        h.range == Some(spec_bytes_prefix() + spec_decimal((m.size - 5) as u64) + seq![45u8]),
    ensures
        spec_send_range(h, m).status == 206,
        spec_send_range(h, m).body == (BodySelect::Slice {
            start: (m.size - 5) as u64,
            end: (m.size - 1) as u64,
        }),
        spec_send_range(h, m).content_length == Some(5u64),
{
    lemma_written_open_ended_range(h, m, (m.size - 5) as u64);
}

} // verus!
