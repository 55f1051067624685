//! The run as a whole: options, the jobs compiled from the input strings,
//! and the grand total over every job's traversal.

use vstd::prelude::*;
use vstd::string::*;

use crate::agg::{
    lemma_entries_total_append, lemma_walk_total, lemma_weight_sum_permutation, reduce,
    spec_child_total, spec_children_total, spec_clamp, spec_entries_total, spec_failures,
    spec_tree_total, spec_weight_sum, AccessError,
};
use crate::glob::spec_pattern_of;
use crate::job::{spec_job_of, spec_job_ok, CompileError, Job, JobView};
use crate::matcher::{glob_accepts, glob_check};
use crate::walk::{
    pattern_job_into, spec_hidden, spec_pattern_job, spec_walk, views_of, walk_into, EntryView,
    FsTree, WalkEntry,
};

verus! {

/// The options and inputs of one run.
#[derive(Debug)]
pub struct Cmd {
    /// Do not traverse hidden directories, do not count hidden files.
    pub ignore_hidden: bool,
    /// Read ignore files and apply them (a policy of the traversal layer,
    /// consumed there as a toggle).
    pub ignore: bool,
    /// Follow symbolic links (resolved when the snapshot is taken).
    pub follow_links: bool,
    /// Do not report failed accesses.
    pub quiet: bool,
    /// Print the plain byte total instead of a pretty-printed one.
    pub bytes: bool,
    /// The path and pattern strings to total.
    pub files: Vec<String>,
}

/// One job paired with the snapshot of the subtree under its walk root.
#[derive(Debug)]
pub struct JobRun {
    pub job: Job,
    pub tree: FsTree,
}

/// Whether a job can run: a pattern job needs a pattern the matcher
/// accepts; compiled jobs always satisfy this.
pub open spec fn spec_run_ok(j: JobView) -> bool {
    match j {
        JobView::Plain { .. } => true,
        JobView::Pattern { pattern, .. } => glob_accepts(pattern),
    }
}

/// The entries one job delivers from its snapshot.
pub open spec fn spec_run_entries(r: JobRun, skip_hidden: bool) -> Seq<EntryView> {
    match r.job@ {
        JobView::Plain { path } => spec_walk(r.tree, skip_hidden, path),
        JobView::Pattern { root, pattern, depth_limit } => spec_pattern_job(
            r.tree,
            pattern,
            skip_hidden,
            depth_limit,
            root,
        ),
    }
}

/// The entries of a whole run, job by job.
pub open spec fn spec_runs_entries(rs: Seq<JobRun>, skip_hidden: bool) -> Seq<EntryView>
    decreases rs.len(),
{
    if rs.len() == 0 {
        Seq::empty()
    } else {
        spec_run_entries(rs[0], skip_hidden) + spec_runs_entries(rs.drop_first(), skip_hidden)
    }
}

proof fn lemma_runs_entries_push(rs: Seq<JobRun>, x: JobRun, skip_hidden: bool)
    ensures
        spec_runs_entries(rs.push(x), skip_hidden) == spec_runs_entries(rs, skip_hidden)
            + spec_run_entries(x, skip_hidden),
    decreases rs.len(),
{
    if rs.len() == 0 {
        assert(rs.push(x).drop_first() =~= rs);
        assert(rs.push(x)[0] == x);
        assert(spec_runs_entries(rs.push(x), skip_hidden) =~= spec_runs_entries(rs, skip_hidden)
            + spec_run_entries(x, skip_hidden));
    } else {
        assert(rs.push(x)[0] == rs[0]);
        assert(rs.push(x).drop_first() =~= rs.drop_first().push(x));
        lemma_runs_entries_push(rs.drop_first(), x, skip_hidden);
        assert(spec_runs_entries(rs.push(x), skip_hidden) =~= spec_runs_entries(rs, skip_hidden)
            + spec_run_entries(x, skip_hidden));
    }
}

/// Some input string's job cannot be built and `e` reports it.
pub open spec fn spec_some_file_bad(files: Seq<String>, e: CompileError) -> bool {
    exists|i: int| spec_file_bad_at(files, i, e)
}

/// Some job's pattern is rejected by the matcher and `e` reports it.
pub open spec fn spec_some_run_bad(runs: Seq<JobRun>, e: CompileError) -> bool {
    exists|i: int| spec_run_bad_at(runs, i, e)
}

/// The input string at `i` is the first one whose job cannot be built, and
/// `e` reports its pattern.
pub open spec fn spec_file_bad_at(files: Seq<String>, i: int, e: CompileError) -> bool {
    &&& 0 <= i < files.len()
    &&& !spec_job_ok(files[i]@)
    &&& e.pattern@ == spec_pattern_of(files[i]@)
    &&& forall|j: int| 0 <= j < i ==> spec_job_ok(#[trigger] files[j]@)
}

/// The job at `i` is the first one whose pattern the matcher rejects, and
/// `e` reports that pattern.
pub open spec fn spec_run_bad_at(runs: Seq<JobRun>, i: int, e: CompileError) -> bool {
    &&& 0 <= i < runs.len()
    &&& runs[i].job@ matches JobView::Pattern { pattern, .. } && !glob_accepts(pattern)
        && e.pattern@ == pattern
    &&& forall|j: int| 0 <= j < i ==> spec_run_ok(#[trigger] runs[j].job@)
}

impl Cmd {
    /// Bundles the options and input strings of one run.
    pub fn new(
        ignore_hidden: bool,
        ignore: bool,
        follow_links: bool,
        quiet: bool,
        bytes: bool,
        files: Vec<String>,
    ) -> (r: Cmd)
        ensures
            r.ignore_hidden == ignore_hidden,
            r.ignore == ignore,
            r.follow_links == follow_links,
            r.quiet == quiet,
            r.bytes == bytes,
            r.files == files,
    {
        Cmd { ignore_hidden, ignore, follow_links, quiet, bytes, files }
    }

    /// Builds one job per input string, in order.  A malformed pattern
    /// aborts the whole run here, before any traversal: the first offender
    /// is reported and no job list is produced.
    pub fn jobs(&self) -> (r: Result<Vec<Job>, CompileError>)
        ensures
            r is Ok <==> (forall|i: int|
                0 <= i < self.files@.len() ==> spec_job_ok(#[trigger] self.files@[i]@)),
            r matches Ok(js) ==> {
                &&& js@.len() == self.files@.len()
                &&& forall|i: int|
                    0 <= i < js@.len() ==> #[trigger] js@[i]@ == spec_job_of(self.files@[i]@)
            },
            r matches Err(e) ==> spec_some_file_bad(self.files@, e),
    {
        let n = self.files.len();
        let mut out: Vec<Job> = Vec::new();
        let mut i: usize = 0;
        while i < n
            invariant
                n == self.files@.len(),
                i <= n,
                out@.len() == i,
                forall|j: int| 0 <= j < i ==> spec_job_ok(#[trigger] self.files@[j]@),
                forall|j: int| 0 <= j < i ==> #[trigger] out@[j]@ == spec_job_of(self.files@[j]@),
            decreases n - i,
        {
            let f = &self.files[i];
            match Job::new(f.as_str()) {
                Ok(j) => {
                    out.push(j);
                },
                Err(e) => {
                    proof {
                        assert(spec_file_bad_at(self.files@, i as int, e));
                        assert(spec_some_file_bad(self.files@, e));
                    }
                    return Err(e);
                },
            }
            i += 1;
        }
        Ok(out)
    }

    /// Totals a whole run: every pattern is checked first (a malformed one
    /// aborts before anything is walked), then every job's snapshot is
    /// walked and gated, and the delivered entries are reduced to the grand
    /// total and the diagnostics owed.
    pub fn calculate(&self, runs: &Vec<JobRun>) -> (r: Result<(u64, Vec<AccessError>), CompileError>)
        ensures
            r is Ok <==> (forall|i: int|
                0 <= i < runs@.len() ==> spec_run_ok(#[trigger] runs@[i].job@)),
            r matches Ok(out) ==> {
                &&& out.0 == spec_clamp(
                    spec_entries_total(spec_runs_entries(runs@, self.ignore_hidden)),
                )
                &&& self.quiet ==> out.1@.len() == 0
                &&& !self.quiet ==> out.1@.map_values(|a: AccessError| a@) == spec_failures(
                    spec_runs_entries(runs@, self.ignore_hidden),
                )
            },
            r matches Err(e) ==> spec_some_run_bad(runs@, e),
    {
        let n = runs.len();
        let mut i: usize = 0;
        while i < n
            invariant
                n == runs@.len(),
                i <= n,
                forall|j: int| 0 <= j < i ==> spec_run_ok(#[trigger] runs@[j].job@),
            decreases n - i,
        {
            let run = &runs[i];
            match &run.job {
                Job::Pattern { root, pattern, depth_limit } => {
                    match glob_check(pattern.as_str()) {
                        Ok(()) => {},
                        Err(message) => {
                            let e = CompileError { pattern: pattern.clone(), message };
                            proof {
                                assert(spec_run_bad_at(runs@, i as int, e));
                                assert(spec_some_run_bad(runs@, e));
                            }
                            return Err(e);
                        },
                    }
                },
                Job::Plain { .. } => {},
            }
            i += 1;
        }
        let mut entries: Vec<WalkEntry> = Vec::new();
        let mut k: usize = 0;
        while k < n
            invariant
                n == runs@.len(),
                k <= n,
                forall|j: int| 0 <= j < n ==> spec_run_ok(#[trigger] runs@[j].job@),
                views_of(entries@) == spec_runs_entries(runs@.take(k as int), self.ignore_hidden),
            decreases n - k,
        {
            let run = &runs[k];
            proof {
                assert(runs@.take(k + 1) =~= runs@.take(k as int).push(runs@[k as int]));
                lemma_runs_entries_push(
                    runs@.take(k as int),
                    runs@[k as int],
                    self.ignore_hidden,
                );
                assert(spec_run_ok(runs@[k as int].job@));
            }
            match &run.job {
                Job::Plain { path } => {
                    walk_into(&run.tree, self.ignore_hidden, path, &mut entries);
                },
                Job::Pattern { root, pattern, depth_limit } => {
                    pattern_job_into(
                        &run.tree,
                        pattern.as_str(),
                        *depth_limit,
                        self.ignore_hidden,
                        root,
                        &mut entries,
                    );
                },
            }
            k += 1;
        }
        proof {
            assert(runs@.take(n as int) =~= runs@);
        }
        Ok(reduce(&entries, self.quiet))
    }
}

/// The summed lengths of a list of runs that each name a regular file.
pub open spec fn spec_files_len_sum(rs: Seq<JobRun>) -> int
    decreases rs.len(),
{
    if rs.len() == 0 {
        0
    } else {
        (match rs[0].tree {
            FsTree::File { len, .. } => len as int,
            _ => 0,
        }) + spec_files_len_sum(rs.drop_first())
    }
}

/// A run whose one job names an existing regular file totals exactly that
/// file's length, and the clamped total delivered by `calculate` is that
/// length unchanged.
pub proof fn lemma_single_file_total(run: JobRun, p: Seq<char>, skip_hidden: bool)
    requires
        run.job@ == (JobView::Plain { path: p }),
        run.tree is File,
    ensures
        spec_entries_total(spec_runs_entries(seq![run], skip_hidden)) == run.tree->len,
        spec_clamp(spec_entries_total(spec_runs_entries(seq![run], skip_hidden))) == run.tree->len,
{
    assert(seq![run][0] == run);
    assert(seq![run].drop_first() =~= Seq::<JobRun>::empty());
    assert(spec_runs_entries(Seq::<JobRun>::empty(), skip_hidden) =~= Seq::<EntryView>::empty());
    lemma_entries_total_append(spec_run_entries(run, skip_hidden), Seq::<EntryView>::empty());
    assert(spec_runs_entries(seq![run], skip_hidden) == spec_run_entries(run, skip_hidden)
        + Seq::<EntryView>::empty());
    lemma_walk_total(run.tree, skip_hidden, p);
    assert(spec_tree_total(run.tree, skip_hidden) == run.tree->len);
    assert(spec_entries_total(Seq::<EntryView>::empty()) == 0);
}

/// Over jobs that each name a regular file the grand total is the sum of
/// the file lengths, whatever the order of the inputs.
pub proof fn lemma_files_sum(rs: Seq<JobRun>, skip_hidden: bool)
    requires
        forall|i: int|
            0 <= i < rs.len() ==> (#[trigger] rs[i].job@) is Plain && rs[i].tree is File,
    ensures
        spec_entries_total(spec_runs_entries(rs, skip_hidden)) == spec_files_len_sum(rs),
    decreases rs.len(),
{
    if rs.len() > 0 {
        let r0 = rs[0];
        lemma_entries_total_append(
            spec_run_entries(r0, skip_hidden),
            spec_runs_entries(rs.drop_first(), skip_hidden),
        );
        assert(r0.job@ is Plain && r0.tree is File);
        lemma_walk_total(r0.tree, skip_hidden, r0.job@->path);
        assert(spec_tree_total(r0.tree, skip_hidden) == r0.tree->len);
        assert forall|i: int| 0 <= i < rs.drop_first().len() implies (#[trigger] rs.drop_first()[
            i
        ].job@) is Plain && rs.drop_first()[i].tree is File by {
            assert(rs.drop_first()[i] == rs[i + 1]);
        }
        lemma_files_sum(rs.drop_first(), skip_hidden);
    }
}

proof fn lemma_files_len_sum_nonneg(rs: Seq<JobRun>)
    ensures
        spec_files_len_sum(rs) >= 0,
    decreases rs.len(),
{
    if rs.len() > 0 {
        lemma_files_len_sum_nonneg(rs.drop_first());
    }
}

/// Over jobs that each name a regular file, the total `calculate` delivers
/// is exactly the sum of the file lengths whenever that sum fits the
/// accumulator; past its range the delivered total saturates instead of
/// overflowing.
pub proof fn lemma_files_sum_clamped(rs: Seq<JobRun>, skip_hidden: bool)
    requires
        forall|i: int|
            0 <= i < rs.len() ==> (#[trigger] rs[i].job@) is Plain && rs[i].tree is File,
        spec_files_len_sum(rs) <= u64::MAX,
    ensures
        spec_clamp(spec_entries_total(spec_runs_entries(rs, skip_hidden))) == spec_files_len_sum(
            rs,
        ),
{
    lemma_files_sum(rs, skip_hidden);
    lemma_files_len_sum_nonneg(rs);
}

/// A run whose one job names a directory holding exactly one visible file
/// and one hidden file: with the hidden-entry filter on, the total is the
/// visible file's length alone; with it off, the hidden file's bytes are
/// included as well.
pub proof fn lemma_hidden_example(
    run: JobRun,
    p: Seq<char>,
    a: String,
    la: u64,
    b: String,
    lb: u64,
)
    requires
        run.job@ == (JobView::Plain { path: p }),
        run.tree is Dir,
        run.tree->children@ == seq![
            FsTree::File { name: a, len: la },
            FsTree::File { name: b, len: lb },
        ],
        !spec_hidden(a@),
        spec_hidden(b@),
    ensures
        spec_entries_total(spec_runs_entries(seq![run], true)) == la,
        spec_entries_total(spec_runs_entries(seq![run], false)) == la + lb,
        spec_clamp(spec_entries_total(spec_runs_entries(seq![run], true))) == la,
        spec_clamp(spec_entries_total(spec_runs_entries(seq![run], false))) == spec_clamp(
            la + lb,
        ),
{
    lemma_hidden_example_one(run, p, a, la, b, lb, true);
    lemma_hidden_example_one(run, p, a, la, b, lb, false);
}

proof fn lemma_hidden_example_one(
    run: JobRun,
    p: Seq<char>,
    a: String,
    la: u64,
    b: String,
    lb: u64,
    skip_hidden: bool,
)
    requires
        run.job@ == (JobView::Plain { path: p }),
        run.tree is Dir,
        run.tree->children@ == seq![
            FsTree::File { name: a, len: la },
            FsTree::File { name: b, len: lb },
        ],
        !spec_hidden(a@),
        spec_hidden(b@),
    ensures
        spec_entries_total(spec_runs_entries(seq![run], skip_hidden)) == la as int + (
        if skip_hidden {
            0int
        } else {
            lb as int
        }),
{
    assert(seq![run][0] == run);
    assert(seq![run].drop_first() =~= Seq::<JobRun>::empty());
    assert(spec_runs_entries(Seq::<JobRun>::empty(), skip_hidden) =~= Seq::<EntryView>::empty());
    lemma_entries_total_append(spec_run_entries(run, skip_hidden), Seq::<EntryView>::empty());
    assert(spec_runs_entries(seq![run], skip_hidden) == spec_run_entries(run, skip_hidden)
        + Seq::<EntryView>::empty());
    assert(spec_entries_total(Seq::<EntryView>::empty()) == 0);
    lemma_walk_total(run.tree, skip_hidden, p);
    let cs = run.tree->children@;
    let f1 = FsTree::File { name: a, len: la };
    let f2 = FsTree::File { name: b, len: lb };
    assert(cs[0] == f1);
    assert(cs.drop_first() =~= seq![f2]);
    assert(cs.drop_first()[0] == f2);
    assert(cs.drop_first().drop_first() =~= Seq::<FsTree>::empty());
    assert(spec_children_total(Seq::<FsTree>::empty(), skip_hidden) == 0);
    assert(spec_child_total(f1, skip_hidden) == la as int);
    assert(spec_child_total(f2, skip_hidden) == if skip_hidden {
        0int
    } else {
        lb as int
    });
    assert(spec_tree_total(run.tree, skip_hidden) == spec_children_total(cs, skip_hidden));
}

proof fn lemma_runs_total_is_weight_sum(rs: Seq<JobRun>, skip_hidden: bool)
    ensures
        spec_entries_total(spec_runs_entries(rs, skip_hidden)) == spec_weight_sum(
            rs,
            |r: JobRun| spec_entries_total(spec_run_entries(r, skip_hidden)),
        ),
    decreases rs.len(),
{
    if rs.len() > 0 {
        lemma_entries_total_append(
            spec_run_entries(rs[0], skip_hidden),
            spec_runs_entries(rs.drop_first(), skip_hidden),
        );
        lemma_runs_total_is_weight_sum(rs.drop_first(), skip_hidden);
    }
}

/// The grand total does not depend on the order in which the jobs were
/// given or their entries delivered: two runs over the same jobs and
/// snapshots, however arranged, total the same bytes.
pub proof fn lemma_total_order_irrelevant(a: Seq<JobRun>, b: Seq<JobRun>, skip_hidden: bool)
    requires
        a.to_multiset() == b.to_multiset(),
    ensures
        spec_entries_total(spec_runs_entries(a, skip_hidden)) == spec_entries_total(
            spec_runs_entries(b, skip_hidden),
        ),
{
    lemma_runs_total_is_weight_sum(a, skip_hidden);
    lemma_runs_total_is_weight_sum(b, skip_hidden);
    lemma_weight_sum_permutation(
        a,
        b,
        |r: JobRun| spec_entries_total(spec_run_entries(r, skip_hidden)),
    );
}

/// The grand total is a function of the jobs, the snapshots and the
/// options alone: repeating a run over an unmodified snapshot yields the
/// same total both times.
pub proof fn lemma_total_repeatable(a: Seq<JobRun>, b: Seq<JobRun>, skip_hidden: bool)
    requires
        a == b,
    ensures
        spec_entries_total(spec_runs_entries(a, skip_hidden)) == spec_entries_total(
            spec_runs_entries(b, skip_hidden),
        ),
{
}

} // verus!
