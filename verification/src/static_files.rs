//! The path resolver for static serving: jails a request path under a base
//! directory, and the decision taken for a static request.
//!
//! `normalize_path` is the security boundary. It never yields `..`, an
//! absolute component, or a component that could be re-read as several path
//! segments (embedded `/`, `\` or a drive-style `:`), so joining its output
//! onto a base directory always stays inside that directory, on every
//! platform. Rejection is mapped to "not found" by the caller, never to
//! "forbidden", so blocked and missing paths are indistinguishable.

use vstd::prelude::*;
use vstd::string::StrSliceExecFns;
use vstd::string::StringExecFns;

verus! {

// ---------------------------------------------------------------------------
// Components
// ---------------------------------------------------------------------------

/// A component that may be appended under the base directory: nonempty, not
/// a dot-name, and with no character that any platform could read as a
/// separator or a drive prefix.
pub open spec fn is_plain_component(c: Seq<char>) -> bool {
    &&& c.len() > 0
    &&& c != seq!['.']
    &&& c != seq!['.', '.']
    &&& forall|i: int| 0 <= i < c.len() ==> #[trigger] c[i] != '/' && c[i] != '\\' && c[i] != ':'
}

/// A component that is silently dropped: empty (doubled or trailing
/// separators) or the current directory.
pub open spec fn is_skipped_component(c: Seq<char>) -> bool {
    c.len() == 0 || c == seq!['.']
}

pub open spec fn component_ok(c: Seq<char>) -> bool {
    is_plain_component(c) || is_skipped_component(c)
}

pub open spec fn all_components_ok(ps: Seq<Seq<char>>) -> bool {
    forall|i: int| 0 <= i < ps.len() ==> component_ok(#[trigger] ps[i])
}

/// The pieces of `cur + s` once every `/` in `s` is consumed; `cur` is the
/// piece under construction.
pub open spec fn spec_split_slash(s: Seq<char>, cur: Seq<char>) -> Seq<Seq<char>>
    decreases s.len(),
{
    if s.len() == 0 {
        seq![cur]
    } else if s[0] == '/' {
        seq![cur] + spec_split_slash(s.skip(1), Seq::empty())
    } else {
        spec_split_slash(s.skip(1), cur.push(s[0]))
    }
}

/// Resolves a request path to the components to walk under the base
/// directory. One leading `/` is stripped; the rest must decompose into
/// plain or skipped components only, or the whole path is rejected.
pub open spec fn spec_normalize(s: Seq<char>) -> Option<Seq<Seq<char>>> {
    let t = if s.len() > 0 && s[0] == '/' {
        s.skip(1)
    } else {
        s
    };
    if t.len() > 0 && t[0] == '/' {
        // A second separator would make the remainder an absolute path.
        None
    } else {
        let ps = spec_split_slash(t, Seq::empty());
        if all_components_ok(ps) {
            Some(ps.filter(|c: Seq<char>| is_plain_component(c)))
        } else {
            None
        }
    }
}

/// Everything the resolver returns is a plain component: never `..`, never
/// empty, and free of separators and drive prefixes. Joined in order onto a
/// base directory, such components always name a descendant of it.
pub proof fn lemma_normalize_components_plain(s: Seq<char>)
    ensures
        spec_normalize(s) matches Some(cs) ==> forall|i: int|
            0 <= i < cs.len() ==> is_plain_component(#[trigger] cs[i]),
{
    if spec_normalize(s) is Some {
        let t = if s.len() > 0 && s[0] == '/' {
            s.skip(1)
        } else {
            s
        };
        let ps = spec_split_slash(t, Seq::empty());
        let pred = |c: Seq<char>| is_plain_component(c);
        assert forall|i: int| 0 <= i < ps.filter(pred).len() implies is_plain_component(
            #[trigger] ps.filter(pred)[i],
        ) by {
            ps.lemma_filter_pred(pred, i);
        }
    }
}

enum CompClass {
    Plain,
    Skip,
    Bad,
}

fn classify_component(c: &str) -> (r: CompClass)
    ensures
        (r is Plain) == is_plain_component(c@),
        (r is Skip) == is_skipped_component(c@),
{
    let n = c.unicode_len();
    if n == 0 {
        return CompClass::Skip;
    }
    if n == 1 && c.get_char(0) == '.' {
        proof {
            assert(c@ =~= seq!['.']);
        }
        return CompClass::Skip;
    }
    if n == 2 && c.get_char(0) == '.' && c.get_char(1) == '.' {
        proof {
            assert(c@ =~= seq!['.', '.']);
        }
        return CompClass::Bad;
    }
    let ghost not_dots = (n != 1 || c@[0] != '.') && (n != 2 || c@[0] != '.' || c@[1] != '.');
    let mut i: usize = 0;
    while i < n
        invariant
            i <= n,
            n == c@.len(),
            n > 0,
            not_dots,
            not_dots == ((n != 1 || c@[0] != '.') && (n != 2 || c@[0] != '.' || c@[1] != '.')),
            forall|j: int| 0 <= j < i ==> #[trigger] c@[j] != '/' && c@[j] != '\\' && c@[j] != ':',
        decreases n - i,
    {
        let ch = c.get_char(i);
        if ch == '/' || ch == '\\' || ch == ':' {
            proof {
                assert(!is_plain_component(c@));
                assert(!is_skipped_component(c@)) by {
                    if c@ == seq!['.'] {
                        assert(c@.len() == 1 && c@[0] == '.');
                    }
                }
            }
            return CompClass::Bad;
        }
        i += 1;
    }
    proof {
        assert(c@ != seq!['.']) by {
            if c@ == seq!['.'] {
                assert(c@.len() == 1 && c@[0] == '.');
            }
        }
        assert(c@ != seq!['.', '.']) by {
            if c@ == seq!['.', '.'] {
                assert(c@.len() == 2 && c@[0] == '.' && c@[1] == '.');
            }
        }
        assert(is_plain_component(c@));
    }
    CompClass::Plain
}

/// Resolves a request path into the safe components to join, in order, onto
/// the base directory, or rejects it. `.` and empty components are dropped;
/// `..`, absolute remainders, and components with embedded separators or
/// drive prefixes reject the whole path.
#[verifier::loop_isolation(false)]
#[verifier::rlimit(80)]
pub fn normalize_path(path: &str) -> (r: Option<Vec<String>>)
    ensures
        match r {
            Some(v) => spec_normalize(path@) == Some(v@.map_values(|c: String| c@)),
            None => spec_normalize(path@) is None,
        },
{
    let n = path.unicode_len();
    let b: usize = if n > 0 && path.get_char(0) == '/' {
        1
    } else {
        0
    };
    let ghost t = if b == 1 {
        path@.skip(1)
    } else {
        path@
    };
    if n > b && path.get_char(b) == '/' {
        proof {
            assert(t[0] == path@[b as int]);
        }
        return None;
    }
    let ghost full = spec_split_slash(t, Seq::<char>::empty());
    let ghost pred = |c: Seq<char>| is_plain_component(c);
    let mut comps: Vec<String> = Vec::new();
    let ghost mut done: Seq<Seq<char>> = Seq::empty();
    let mut start: usize = b;
    let mut i: usize = b;
    proof {
        assert(t.len() == n - b);
        if n > b {
            assert(t[0] == path@[b as int]);
        }
        assert(t.skip(0) =~= t);
        assert(path@.subrange(b as int, b as int) =~= Seq::<char>::empty());
        assert(Seq::<Seq<char>>::empty() + full =~= full);
        assert(Seq::<Seq<char>>::empty().filter(pred) =~= Seq::<Seq<char>>::empty()) by {
            reveal_with_fuel(Seq::<_>::filter, 1);
        }
    }
    while i < n
        invariant
            b <= start <= i <= n,
            full == done + spec_split_slash(t.skip(i - b), path@.subrange(start as int, i as int)),
            forall|j: int| 0 <= j < done.len() ==> component_ok(#[trigger] done[j]),
            comps@.map_values(|c: String| c@) == done.filter(pred),
        decreases n - i,
    {
        let ch = path.get_char(i);
        proof {
            assert(t.skip(i - b).skip(1) =~= t.skip(i + 1 - b));
            assert(t.skip(i - b)[0] == path@[i as int]);
        }
        if ch == '/' {
            let comp = path.substring_char(start, i);
            let ghost cur = path@.subrange(start as int, i as int);
            let ghost rest = spec_split_slash(t.skip(i + 1 - b), Seq::<char>::empty());
            let ghost prev = done;
            proof {
                assert(full == prev + (seq![cur] + rest));
                assert(prev + (seq![cur] + rest) =~= prev.push(cur) + rest);
                assert((prev.push(cur) + rest)[prev.len() as int] == cur);
            }
            match classify_component(comp) {
                CompClass::Bad => {
                    proof {
                        assert(full[prev.len() as int] == cur);
                        assert(0 <= prev.len() < full.len());
                        assert(!component_ok(cur));
                        assert(!all_components_ok(full));
                        assert(spec_normalize(path@) is None);
                    }
                    return None;
                },
                CompClass::Skip => {
                    proof {
                        done = prev.push(cur);
                        assert(done =~= prev + seq![cur]);
                        Seq::<Seq<char>>::filter_distributes_over_add(prev, seq![cur], pred);
                        assert(seq![cur].filter(pred) =~= Seq::<Seq<char>>::empty()) by {
                            reveal_with_fuel(Seq::<_>::filter, 2);
                            assert(seq![cur].drop_last() =~= Seq::<Seq<char>>::empty());
                        }
                        assert(done.filter(pred) =~= prev.filter(pred));
                    }
                },
                CompClass::Plain => {
                    let ghost old_comps = comps@;
                    comps.push(comp.to_owned());
                    proof {
                        done = prev.push(cur);
                        assert(done =~= prev + seq![cur]);
                        Seq::<Seq<char>>::filter_distributes_over_add(prev, seq![cur], pred);
                        assert(seq![cur].filter(pred) =~= seq![cur]) by {
                            reveal_with_fuel(Seq::<_>::filter, 2);
                            assert(seq![cur].drop_last() =~= Seq::<Seq<char>>::empty());
                        }
                        assert(comps@.map_values(|c: String| c@) =~= old_comps.map_values(
                            |c: String| c@,
                        ).push(cur));
                        assert(done.filter(pred) =~= prev.filter(pred) + seq![cur]);
                    }
                },
            }
            start = i + 1;
            proof {
                assert(path@.subrange(start as int, start as int) =~= Seq::<char>::empty());
            }
        } else {
            proof {
                assert(path@.subrange(start as int, i as int).push(path@[i as int])
                    =~= path@.subrange(start as int, i + 1));
            }
        }
        i += 1;
    }
    // The final piece, after the last separator.
    let comp = path.substring_char(start, n);
    let ghost cur = path@.subrange(start as int, n as int);
    let ghost prev = done;
    proof {
        assert(t.skip(n - b) =~= Seq::<char>::empty());
        assert(full == prev + seq![cur]);
        assert(full =~= prev.push(cur));
        assert(full[prev.len() as int] == cur);
        Seq::<Seq<char>>::filter_distributes_over_add(prev, seq![cur], pred);
    }
    match classify_component(comp) {
        CompClass::Bad => {
            proof {
                assert(0 <= prev.len() < full.len());
                assert(!component_ok(full[prev.len() as int]));
                assert(!all_components_ok(full));
                assert(spec_normalize(path@) is None);
            }
            None
        },
        CompClass::Skip => {
            proof {
                assert(seq![cur].filter(pred) =~= Seq::<Seq<char>>::empty()) by {
                    reveal_with_fuel(Seq::<_>::filter, 2);
                    assert(seq![cur].drop_last() =~= Seq::<Seq<char>>::empty());
                }
                assert(full.filter(pred) =~= prev.filter(pred));
                assert forall|j: int| 0 <= j < full.len() implies component_ok(
                    #[trigger] full[j],
                ) by {
                    if j < prev.len() {
                        assert(full[j] == prev[j]);
                    } else {
                        assert(full[j] == cur);
                    }
                }
                assert(all_components_ok(full));
            }
            Some(comps)
        },
        CompClass::Plain => {
            let ghost old_comps = comps@;
            comps.push(comp.to_owned());
            proof {
                assert(seq![cur].filter(pred) =~= seq![cur]) by {
                    reveal_with_fuel(Seq::<_>::filter, 2);
                    assert(seq![cur].drop_last() =~= Seq::<Seq<char>>::empty());
                }
                assert(full.filter(pred) =~= prev.filter(pred) + seq![cur]);
                assert(comps@.map_values(|c: String| c@) =~= old_comps.map_values(
                    |c: String| c@,
                ).push(cur));
                assert forall|j: int| 0 <= j < full.len() implies component_ok(
                    #[trigger] full[j],
                ) by {
                    if j < prev.len() {
                        assert(full[j] == prev[j]);
                    } else {
                        assert(full[j] == cur);
                    }
                }
                assert(all_components_ok(full));
            }
            Some(comps)
        },
    }
}

// ---------------------------------------------------------------------------
// Content types
// ---------------------------------------------------------------------------

/// The content type guessed from a path's extension, if the table knows one.
pub uninterp spec fn mime_of(path: Seq<char>) -> Option<Seq<char>>;

/// Relies on `mime_guess::from_path` and `MimeGuess::first_raw`: the guess
/// comes from a table compiled into the crate, keyed by the path's
/// extension, so it is a function of the path alone.
#[verifier::external_body]
fn guess_mime(path: &str) -> (r: Option<String>)
    ensures
        match r {
            Some(m) => mime_of(path@) == Some(m@),
            None => mime_of(path@) is None,
        },
{
    mime_guess::from_path(path).first_raw().map(|s| s.to_string())
}

/// The content type a static response reports: the guess for the path, or
/// the generic byte stream type when the extension is unknown.
pub open spec fn spec_mime_for(path: Seq<char>) -> Seq<char> {
    match mime_of(path) {
        Some(m) => m,
        None => "application/octet-stream"@,
    }
}

pub fn mime_for_path(path: &str) -> (r: String)
    ensures
        r@ == spec_mime_for(path@),
{
    match guess_mime(path) {
        Some(m) => m,
        None => String::from_str("application/octet-stream"),
    }
}

// ---------------------------------------------------------------------------
// The static-serving decision
// ---------------------------------------------------------------------------

/// What the static file area does with a request, before any file is opened.
pub enum StaticPlan {
    /// Only GET and HEAD are served.
    MethodNotAllowed,
    /// The path failed resolution; blocked and missing look the same.
    NotFound,
    /// Open and serve the file at these components under the base directory.
    Serve(Vec<String>),
}

pub enum StaticPlanView {
    MethodNotAllowed,
    NotFound,
    Serve(Seq<Seq<char>>),
}

impl View for StaticPlan {
    type V = StaticPlanView;

    open spec fn view(&self) -> StaticPlanView {
        match self {
            StaticPlan::MethodNotAllowed => StaticPlanView::MethodNotAllowed,
            StaticPlan::NotFound => StaticPlanView::NotFound,
            StaticPlan::Serve(v) => StaticPlanView::Serve(v@.map_values(|c: String| c@)),
        }
    }
}

pub open spec fn spec_serve_dir_plan(get_or_head: bool, path: Seq<char>) -> StaticPlanView {
    if !get_or_head {
        StaticPlanView::MethodNotAllowed
    } else {
        match spec_normalize(path) {
            None => StaticPlanView::NotFound,
            Some(cs) => StaticPlanView::Serve(cs),
        }
    }
}

/// The decision taken for a request to the static area: refuse methods
/// other than GET and HEAD, resolve the path, and name the file to serve.
/// Falling back to a configured file when that one is missing is left to
/// the caller, which sees the open result.
pub fn serve_dir_plan(get_or_head: bool, path: &str) -> (r: StaticPlan)
    ensures
        r@ == spec_serve_dir_plan(get_or_head, path@),
{
    if !get_or_head {
        return StaticPlan::MethodNotAllowed;
    }
    match normalize_path(path) {
        None => StaticPlan::NotFound,
        Some(comps) => StaticPlan::Serve(comps),
    }
}

} // verus!