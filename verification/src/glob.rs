//! The pattern classifier and the glob-to-traversal compiler.
//!
//! A path string is either a literal path or a glob pattern; a pattern is
//! split into a literal prefix (the walk root), the remaining pattern text
//! (handed to the matcher) and a depth bound.  Path strings are modelled as
//! sequences of `/`-separated segments; empty segments (from doubled or
//! trailing separators) are dropped.

use vstd::prelude::*;
use vstd::string::*;

use crate::job::{CompileError, Job, JobView};
use crate::matcher::{glob_accepts, glob_check};

verus! {

/// The three metacharacters that make a string a glob pattern.
pub open spec fn is_glob_char(c: char) -> bool {
    c == '*' || c == '?' || c == '['
}

/// A string is a pattern when it holds any glob metacharacter.  A lone `[`
/// is enough: the matcher itself decides whether the bracket expression is
/// well formed.
pub open spec fn spec_is_glob(s: Seq<char>) -> bool {
    exists|i: int| 0 <= i < s.len() && is_glob_char(s[i])
}

/// Classifies a path string: `true` means it must be compiled as a glob
/// pattern, `false` that it names a literal path.
pub fn is_glob(s: &str) -> (r: bool)
    ensures
        r == spec_is_glob(s@),
{
    let n = s.unicode_len();
    let mut i: usize = 0;
    while i < n
        invariant
            n == s@.len(),
            0 <= i <= n,
            forall|j: int| 0 <= j < i ==> !is_glob_char(s@[j]),
        decreases n - i,
    {
        let c = s.get_char(i);
        if c == '*' || c == '?' || c == '[' {
            return true;
        }
        i += 1;
    }
    false
}

/// The `/`-separated segments of a path string, nonempty ones only.
pub open spec fn spec_segments(s: Seq<char>) -> Seq<Seq<char>>
    decreases s.len(),
{
    if s.len() == 0 {
        Seq::empty()
    } else {
        let rest = spec_segments(s.drop_last());
        let c = s.last();
        if c == '/' {
            rest
        } else if s.len() >= 2 && s[s.len() - 2] != '/' {
            rest.drop_last().push(rest.last().push(c))
        } else {
            rest.push(seq![c])
        }
    }
}

/// Whether one segment holds a glob metacharacter.
pub open spec fn seg_has_glob(seg: Seq<char>) -> bool {
    exists|i: int| 0 <= i < seg.len() && is_glob_char(seg[i])
}

/// The index of the first segment holding a glob metacharacter (the length
/// of the list when there is none).
pub open spec fn spec_glob_index(segs: Seq<Seq<char>>) -> int
    decreases segs.len(),
{
    if segs.len() == 0 {
        0
    } else if seg_has_glob(segs[0]) {
        0
    } else {
        1 + spec_glob_index(segs.drop_first())
    }
}

/// Basic facts about `spec_glob_index`: it is the first glob segment when one
/// exists, and the length of the list otherwise.
proof fn lemma_glob_index_bounds(segs: Seq<Seq<char>>)
    ensures
        0 <= spec_glob_index(segs) <= segs.len(),
        spec_glob_index(segs) < segs.len() <==> exists|j: int|
            0 <= j < segs.len() && seg_has_glob(segs[j]),
        spec_glob_index(segs) < segs.len() ==> seg_has_glob(segs[spec_glob_index(segs)]),
        forall|j: int| 0 <= j < spec_glob_index(segs) ==> !seg_has_glob(segs[j]),
    decreases segs.len(),
{
    if segs.len() == 0 {
    } else if seg_has_glob(segs[0]) {
    } else {
        lemma_glob_index_bounds(segs.drop_first());
        let rest = segs.drop_first();
        if spec_glob_index(rest) < rest.len() {
            let j = spec_glob_index(rest);
            assert(segs[j + 1] == rest[j]);
        }
        assert forall|j: int| 0 <= j < segs.len() && seg_has_glob(segs[j]) implies spec_glob_index(
            segs,
        ) < segs.len() by {
            if j > 0 {
                assert(rest[j - 1] == segs[j]);
            }
        }
        assert forall|j: int| 0 <= j < spec_glob_index(segs) implies !seg_has_glob(segs[j]) by {
            if j > 0 {
                assert(segs[j] == rest[j - 1]);
            }
        }
    }
}

/// The first index at which a property of the segments is witnessed pins
/// `spec_glob_index` down.
proof fn lemma_glob_index_char(segs: Seq<Seq<char>>, i: int)
    requires
        0 <= i < segs.len(),
        seg_has_glob(segs[i]),
        forall|j: int| 0 <= j < i ==> !seg_has_glob(segs[j]),
    ensures
        spec_glob_index(segs) == i,
    decreases i,
{
    if i == 0 {
    } else {
        assert(!seg_has_glob(segs[0]));
        let rest = segs.drop_first();
        assert(rest[i - 1] == segs[i]);
        assert forall|j: int| 0 <= j < i - 1 implies !seg_has_glob(rest[j]) by {
            assert(rest[j] == segs[j + 1]);
        }
        lemma_glob_index_char(rest, i - 1);
    }
}

/// A glob metacharacter is never the separator, so a pattern string always
/// has a segment holding one: the classifier and the compiler agree, and the
/// compiler's search for a glob segment cannot come up empty.
pub proof fn lemma_is_glob_some_seg(s: Seq<char>)
    requires
        spec_is_glob(s),
    ensures
        exists|j: int|
            0 <= j < spec_segments(s).len() && seg_has_glob(#[trigger] spec_segments(s)[j]),
    decreases s.len(),
{
    let segs = spec_segments(s);
    let c = s.last();
    let rest = spec_segments(s.drop_last());
    let i = choose|i: int| 0 <= i < s.len() && is_glob_char(s[i]);
    if i < s.len() - 1 {
        assert(s.drop_last()[i] == s[i]);
        assert(spec_is_glob(s.drop_last()));
        lemma_is_glob_some_seg(s.drop_last());
        let j = choose|j: int| 0 <= j < rest.len() && seg_has_glob(#[trigger] rest[j]);
        if c == '/' {
            assert(segs[j] == rest[j]);
        } else if s.len() >= 2 && s[s.len() - 2] != '/' {
            if j < rest.len() - 1 {
                assert(segs[j] == rest[j]);
            } else {
                let ext = rest.last().push(c);
                let k = choose|k: int| 0 <= k < rest[j].len() && is_glob_char(rest[j][k]);
                assert(ext[k] == rest[j][k]);
                assert(seg_has_glob(ext));
                assert(segs[rest.len() - 1] == ext);
            }
        } else {
            assert(segs[j] == rest[j]);
        }
    } else {
        assert(is_glob_char(c));
        assert(c != '/');
        if s.len() >= 2 && s[s.len() - 2] != '/' {
            let ext = rest.last().push(c);
            assert(is_glob_char(ext[ext.len() - 1]));
            assert(seg_has_glob(ext));
            assert(segs[rest.len() - 1] == ext);
        } else {
            let ext = seq![c];
            assert(is_glob_char(ext[0]));
            assert(seg_has_glob(ext));
            assert(segs[segs.len() - 1] == ext);
        }
    }
}

/// The segments joined back into a path string with single separators.
pub open spec fn spec_join(segs: Seq<Seq<char>>) -> Seq<char>
    decreases segs.len(),
{
    if segs.len() == 0 {
        Seq::empty()
    } else if segs.len() == 1 {
        segs[0]
    } else {
        spec_join(segs.drop_last()) + "/"@ + segs.last()
    }
}

/// Whether the path string is absolute.
pub open spec fn spec_abs(s: Seq<char>) -> bool {
    s.len() > 0 && s[0] == '/'
}

/// The walk root of a pattern string: its literal prefix, or the current
/// (respectively root) directory when the very first segment already holds
/// a wildcard.
pub open spec fn spec_root_of(s: Seq<char>) -> Seq<char> {
    let segs = spec_segments(s);
    let gi = spec_glob_index(segs);
    if gi == 0 {
        if spec_abs(s) {
            "/"@
        } else {
            "."@
        }
    } else if spec_abs(s) {
        "/"@ + spec_join(segs.take(gi))
    } else {
        spec_join(segs.take(gi))
    }
}

/// The pattern text of a pattern string: its segments from the first
/// wildcard segment on, handed to the matcher.
pub open spec fn spec_pattern_of(s: Seq<char>) -> Seq<char> {
    let segs = spec_segments(s);
    spec_join(segs.skip(spec_glob_index(segs)))
}

/// Whether the pattern text holds the recursive wildcard token `**`.
pub open spec fn spec_has_recursive(p: Seq<char>) -> bool {
    exists|i: int| 0 <= i && i + 1 < p.len() && #[trigger] p[i] == '*' && p[i + 1] == '*'
}

/// The depth bound of a pattern string: unbounded under a recursive
/// wildcard, otherwise the number of segments the pattern spans.
pub open spec fn spec_depth_of(s: Seq<char>) -> Option<u64> {
    if spec_has_recursive(spec_pattern_of(s)) {
        None
    } else {
        Some((spec_segments(s).len() - spec_glob_index(spec_segments(s))) as u64)
    }
}

/// The job that compiling the pattern string `s` yields.
pub open spec fn spec_compiled(s: Seq<char>) -> JobView {
    JobView::Pattern {
        root: spec_root_of(s),
        pattern: spec_pattern_of(s),
        depth_limit: spec_depth_of(s),
    }
}

/// The segment texts that a list of index pairs cuts out of `s`.
pub open spec fn seg_views(s: Seq<char>, bounds: Seq<(usize, usize)>) -> Seq<Seq<char>> {
    bounds.map_values(|b: (usize, usize)| s.subrange(b.0 as int, b.1 as int))
}

/// Each pair cuts a nonempty range inside `s`.
pub open spec fn bounds_wf(s: Seq<char>, bounds: Seq<(usize, usize)>) -> bool {
    forall|k: int| 0 <= k < bounds.len() ==> ((#[trigger] bounds[k]).0 < bounds[k].1 && bounds[k].1 <= s.len())
}

proof fn lemma_seg_views_push(s: Seq<char>, bs: Seq<(usize, usize)>, b: (usize, usize))
    ensures
        seg_views(s, bs.push(b)) == seg_views(s, bs).push(
            s.subrange(b.0 as int, b.1 as int),
        ),
{
    assert(seg_views(s, bs.push(b)) =~= seg_views(s, bs).push(s.subrange(b.0 as int, b.1 as int)));
}

/// Cuts the path string into its segment boundaries, left to right.
fn split_segments(s: &str) -> (bounds: Vec<(usize, usize)>)
    ensures
        bounds_wf(s@, bounds@),
        seg_views(s@, bounds@) == spec_segments(s@),
{
    let n = s.unicode_len();
    let mut bounds: Vec<(usize, usize)> = Vec::new();
    let mut cur: Option<usize> = None;
    let mut i: usize = 0;
    while i < n
        invariant
            n == s@.len(),
            i <= n,
            forall|k: int|
                0 <= k < bounds@.len() ==> ((#[trigger] bounds@[k]).0 < bounds@[k].1
                    && bounds@[k].1 <= i),
            match cur {
                Some(st) => {
                    &&& st < i
                    &&& i >= 1
                    &&& s@[i - 1] != '/'
                    &&& seg_views(s@, bounds@.push((st, i))) == spec_segments(s@.take(i as int))
                },
                None => {
                    &&& (i == 0 || s@[i - 1] == '/')
                    &&& seg_views(s@, bounds@) == spec_segments(s@.take(i as int))
                },
            },
        decreases n - i,
    {
        let c = s.get_char(i);
        proof {
            assert(s@.take(i + 1).drop_last() =~= s@.take(i as int));
            assert(s@.take(i + 1).last() == s@[i as int]);
        }
        if c == '/' {
            if let Some(st) = cur {
                bounds.push((st, i));
                cur = None;
            }
        } else {
            match cur {
                Some(st) => {
                    proof {
                        let rest = spec_segments(s@.take(i as int));
                        lemma_seg_views_push(s@, bounds@, (st, i));
                        lemma_seg_views_push(s@, bounds@, (st, (i + 1) as usize));
                        assert(rest.drop_last() =~= seg_views(s@, bounds@));
                        assert(s@.subrange(st as int, i as int).push(s@[i as int]) =~= s@.subrange(
                            st as int,
                            i + 1,
                        ));
                        assert(spec_segments(s@.take(i + 1)) =~= seg_views(
                            s@,
                            bounds@.push((st, (i + 1) as usize)),
                        ));
                    }
                },
                None => {
                    cur = Some(i);
                    proof {
                        lemma_seg_views_push(s@, bounds@, (i, (i + 1) as usize));
                        assert(seq![s@[i as int]] =~= s@.subrange(i as int, i + 1));
                        assert(spec_segments(s@.take(i + 1)) =~= seg_views(
                            s@,
                            bounds@.push((i, (i + 1) as usize)),
                        ));
                    }
                },
            }
        }
        i += 1;
    }
    if let Some(st) = cur {
        bounds.push((st, n));
    }
    proof {
        assert(s@.take(n as int) =~= s@);
    }
    bounds
}

/// Whether any character of `s` in `lo..hi` is a glob metacharacter.
fn has_glob_range(s: &str, lo: usize, hi: usize) -> (r: bool)
    requires
        lo <= hi <= s@.len(),
    ensures
        r == seg_has_glob(s@.subrange(lo as int, hi as int)),
{
    let seg = Ghost(s@.subrange(lo as int, hi as int));
    let mut j: usize = lo;
    while j < hi
        invariant
            lo <= j <= hi <= s@.len(),
            seg@ == s@.subrange(lo as int, hi as int),
            forall|t: int| 0 <= t < j - lo ==> !is_glob_char(seg@[t]),
        decreases hi - j,
    {
        let c = s.get_char(j);
        proof {
            assert(seg@[j - lo] == s@[j as int]);
        }
        if c == '*' || c == '?' || c == '[' {
            proof {
                assert(seg_has_glob(seg@));
            }
            return true;
        }
        j += 1;
    }
    false
}

/// Finds the first segment holding a glob metacharacter; the classifier
/// guarantees there is one.
fn find_glob_seg(s: &str, bounds: &Vec<(usize, usize)>) -> (gi: usize)
    requires
        spec_is_glob(s@),
        bounds_wf(s@, bounds@),
        seg_views(s@, bounds@) == spec_segments(s@),
    ensures
        gi < bounds@.len(),
        gi == spec_glob_index(spec_segments(s@)),
{
    proof {
        lemma_is_glob_some_seg(s@);
        lemma_glob_index_bounds(spec_segments(s@));
    }
    let mut k: usize = 0;
    while k < bounds.len()
        invariant
            spec_is_glob(s@),
            bounds_wf(s@, bounds@),
            seg_views(s@, bounds@) == spec_segments(s@),
            k <= bounds@.len(),
            forall|j: int| 0 <= j < k ==> !seg_has_glob(#[trigger] spec_segments(s@)[j]),
        decreases bounds@.len() - k,
    {
        let b = bounds[k];
        proof {
            assert(spec_segments(s@)[k as int] == s@.subrange(b.0 as int, b.1 as int));
        }
        if has_glob_range(s, b.0, b.1) {
            proof {
                lemma_glob_index_char(spec_segments(s@), k as int);
            }
            return k;
        }
        k += 1;
    }
    proof {
        lemma_is_glob_some_seg(s@);
        assert(false);
    }
    0
}

/// Joins the segments `lo..hi` back into one path string.
fn join_range(s: &str, bounds: &Vec<(usize, usize)>, lo: usize, hi: usize) -> (r: String)
    requires
        bounds_wf(s@, bounds@),
        lo <= hi <= bounds@.len(),
    ensures
        r@ == spec_join(seg_views(s@, bounds@).subrange(lo as int, hi as int)),
{
    let segs = Ghost(seg_views(s@, bounds@));
    let mut r = String::new();
    let mut k: usize = lo;
    while k < hi
        invariant
            bounds_wf(s@, bounds@),
            lo <= k <= hi <= bounds@.len(),
            segs@ == seg_views(s@, bounds@),
            r@ == spec_join(segs@.subrange(lo as int, k as int)),
        decreases hi - k,
    {
        let b = bounds[k];
        proof {
            assert(segs@[k as int] == s@.subrange(b.0 as int, b.1 as int));
            assert(segs@.subrange(lo as int, k + 1).drop_last() =~= segs@.subrange(
                lo as int,
                k as int,
            ));
            assert(segs@.subrange(lo as int, k + 1).last() == segs@[k as int]);
        }
        let seg = s.substring_char(b.0, b.1);
        if k > lo {
            r.append("/");
        }
        r.append(seg);
        k += 1;
    }
    r
}

/// Whether the pattern text holds the recursive wildcard token.
fn has_recursive(p: &str) -> (r: bool)
    ensures
        r == spec_has_recursive(p@),
{
    let n = p.unicode_len();
    if n < 2 {
        return false;
    }
    let mut i: usize = 0;
    while i + 1 < n
        invariant
            n == p@.len(),
            i + 1 <= n,
            forall|j: int| 0 <= j < i ==> !(#[trigger] p@[j] == '*' && p@[j + 1] == '*'),
        decreases n - i,
    {
        if p.get_char(i) == '*' && p.get_char(i + 1) == '*' {
            return true;
        }
        i += 1;
    }
    false
}

/// Compiles a pattern string into a traversal job: the literal prefix
/// becomes the walk root, the remaining segments the pattern text, and the
/// pattern's segment count the depth bound (lifted by a recursive
/// wildcard).  A pattern the matcher rejects is the run's one fatal error.
pub fn compile(s: &str) -> (r: Result<Job, CompileError>)
    requires
        spec_is_glob(s@),
    ensures
        r is Ok <==> glob_accepts(spec_pattern_of(s@)),
        r matches Ok(j) ==> j@ == spec_compiled(s@),
        r matches Err(e) ==> e.pattern@ == spec_pattern_of(s@),
{
    let bounds = split_segments(s);
    let gi = find_glob_seg(s, &bounds);
    proof {
        assert(seg_views(s@, bounds@).subrange(gi as int, bounds@.len() as int)
            =~= spec_segments(s@).skip(spec_glob_index(spec_segments(s@))));
    }
    let pattern = join_range(s, &bounds, gi, bounds.len());
    proof {
        let w = choose|i: int| 0 <= i < s@.len() && is_glob_char(s@[i]);
        assert(s@.len() > 0);
    }
    let absolute = s.get_char(0) == '/';
    let root: String;
    if gi == 0 {
        root = if absolute {
            String::from_str("/")
        } else {
            String::from_str(".")
        };
    } else {
        proof {
            assert(seg_views(s@, bounds@).subrange(0, gi as int) =~= spec_segments(s@).take(
                spec_glob_index(spec_segments(s@)),
            ));
        }
        let joined = join_range(s, &bounds, 0, gi);
        if absolute {
            let mut x = String::from_str("/");
            x.append(joined.as_str());
            root = x;
        } else {
            root = joined;
        }
    }
    let depth_limit: Option<u64> = if has_recursive(pattern.as_str()) {
        None
    } else {
        Some((bounds.len() - gi) as u64)
    };
    match glob_check(pattern.as_str()) {
        Ok(()) => Ok(Job::Pattern { root, pattern, depth_limit }),
        Err(message) => Err(CompileError { pattern, message }),
    }
}

} // verus!
