//! One unit of traversal work, produced once per input string.

use vstd::prelude::*;
use vstd::string::*;

use crate::glob::{compile, is_glob, spec_compiled, spec_is_glob, spec_pattern_of};
use crate::matcher::glob_accepts;

verus! {

/// A unit of traversal work.
///
/// `Plain` names a literal filesystem path.  `Pattern` describes a bounded
/// walk: `root` is the literal prefix before the first wildcard segment,
/// `pattern` the remaining pattern text, and `depth_limit` the number of
/// path segments the pattern spans below `root` (`None` when the pattern
/// holds the recursive `**` token, which removes the bound).
#[derive(Debug, Clone)]
pub enum Job {
    Plain { path: String },
    Pattern { root: String, pattern: String, depth_limit: Option<u64> },
}

/// The mathematical shape of a [`Job`].
pub enum JobView {
    Plain { path: Seq<char> },
    Pattern { root: Seq<char>, pattern: Seq<char>, depth_limit: Option<u64> },
}

impl View for Job {
    type V = JobView;

    open spec fn view(&self) -> JobView {
        match self {
            Job::Plain { path } => JobView::Plain { path: path@ },
            Job::Pattern { root, pattern, depth_limit } => JobView::Pattern {
                root: root@,
                pattern: pattern@,
                depth_limit: *depth_limit,
            },
        }
    }
}

/// A malformed glob pattern: the one fatal error of a run, reported before
/// any traversal begins.
#[derive(Debug, Clone)]
pub struct CompileError {
    /// The pattern text that the matcher builder rejected.
    pub pattern: String,
    /// The matcher builder's description of the fault.
    pub message: String,
}

/// Holds when building a job from the input string `s` succeeds: a literal
/// path always does, a pattern only when the matcher accepts its text.
pub open spec fn spec_job_ok(s: Seq<char>) -> bool {
    !spec_is_glob(s) || glob_accepts(spec_pattern_of(s))
}

/// The job that the input string `s` describes.
pub open spec fn spec_job_of(s: Seq<char>) -> JobView {
    if spec_is_glob(s) {
        spec_compiled(s)
    } else {
        JobView::Plain { path: s }
    }
}

impl Job {
    /// Classifies the input string and builds its job: a literal path is
    /// wrapped as it stands, a pattern is compiled into root, pattern text
    /// and depth bound.
    pub fn new(s: &str) -> (r: Result<Job, CompileError>)
        ensures
            r is Ok <==> spec_job_ok(s@),
            r matches Ok(j) ==> j@ == spec_job_of(s@),
            r matches Err(e) ==> spec_is_glob(s@) && e.pattern@ == spec_pattern_of(s@),
    {
        if is_glob(s) {
            compile(s)
        } else {
            Ok(Job::Plain { path: s.to_owned() })
        }
    }
}

} // verus!
