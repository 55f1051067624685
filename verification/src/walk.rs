//! The traversal model: a snapshot of a filesystem subtree, the filter-aware
//! walk over it, and the match gate for pattern jobs.
//!
//! The caller (an I/O layer or a test) captures the subtree under a walk
//! root as an [`FsTree`] value: every node carries its name, a regular file
//! its byte length, and a node that could not be read the error text of the
//! failed access.  Walking, filtering, matching and summing are then
//! ordinary functions over that value.
//!
//! Policy choices, stated once: the root of a walk is always delivered and
//! never tested against the hidden-entry filter (a path the user named, or a
//! match being expanded, is walked even when hidden); the filter applies to
//! every entry below the root and prunes whole subtrees; a directory node
//! contributes no bytes of its own; and the nested walk that expands a match
//! applies the same hidden-entry filter as the outer walk.

use vstd::prelude::*;
use vstd::string::*;

use crate::job::CompileError;
use crate::matcher::{glob_accepts, glob_check, glob_match, glob_matches};

verus! {

/// A snapshot of one filesystem node.
///
/// `Denied` stands for a node whose metadata or directory listing could not
/// be read; `message` carries the reported cause.
#[derive(Debug)]
pub enum FsTree {
    File { name: String, len: u64 },
    Dir { name: String, children: Vec<FsTree> },
    Denied { name: String, message: String },
}

/// One node delivered by a walk: a path that was reached with its length,
/// or a path whose access failed with the reported cause.
#[derive(Debug, Clone)]
pub enum WalkEntry {
    Found { path: String, len: u64 },
    Failed { path: String, message: String },
}

/// The mathematical shape of a [`WalkEntry`].
pub enum EntryView {
    Found { path: Seq<char>, len: u64 },
    Failed { path: Seq<char>, message: Seq<char> },
}

impl View for WalkEntry {
    type V = EntryView;

    open spec fn view(&self) -> EntryView {
        match self {
            WalkEntry::Found { path, len } => EntryView::Found { path: path@, len: *len },
            WalkEntry::Failed { path, message } => EntryView::Failed {
                path: path@,
                message: message@,
            },
        }
    }
}

/// The views of a list of walk entries.
pub open spec fn views_of(es: Seq<WalkEntry>) -> Seq<EntryView> {
    es.map_values(|e: WalkEntry| e@)
}

broadcast proof fn lemma_views_of_push(es: Seq<WalkEntry>, e: WalkEntry)
    ensures
        #[trigger] views_of(es.push(e)) == views_of(es).push(e@),
{
    assert(views_of(es.push(e)) =~= views_of(es).push(e@));
}

impl FsTree {
    /// The node's own name (the last path component).
    pub open spec fn spec_name(self) -> Seq<char> {
        match self {
            FsTree::File { name, .. } => name@,
            FsTree::Dir { name, .. } => name@,
            FsTree::Denied { name, .. } => name@,
        }
    }

    /// The node's own name, executable form.
    pub fn name(&self) -> (r: &String)
        ensures
            r@ == self.spec_name(),
    {
        match self {
            FsTree::File { name, .. } => name,
            FsTree::Dir { name, .. } => name,
            FsTree::Denied { name, .. } => name,
        }
    }
}

/// The hidden-entry convention of the host filesystem: a name starting
/// with a dot.
pub open spec fn spec_hidden(name: Seq<char>) -> bool {
    name.len() > 0 && name[0] == '.'
}

/// Whether an entry name counts as hidden.
pub fn is_hidden(name: &str) -> (r: bool)
    ensures
        r == spec_hidden(name@),
{
    if name.unicode_len() == 0 {
        false
    } else {
        name.get_char(0) == '.'
    }
}

/// The path of a child entry below the directory path `dir`.
pub open spec fn spec_child_path(dir: Seq<char>, name: Seq<char>) -> Seq<char> {
    dir + "/"@ + name
}

fn child_path(dir: &String, name: &String) -> (r: String)
    ensures
        r@ == spec_child_path(dir@, name@),
{
    let mut r = dir.clone();
    r.append("/");
    r.append(name.as_str());
    r
}

/// The entries a plain walk of `t` delivers, depth first, when the walk was
/// started with `path` as the root's path: the root itself, then every
/// subtree entry that survives the hidden-entry filter.
pub open spec fn spec_walk(t: FsTree, skip_hidden: bool, path: Seq<char>) -> Seq<EntryView>
    decreases t, 0int,
{
    match t {
        FsTree::File { name, len } => seq![EntryView::Found { path, len }],
        FsTree::Denied { name, message } => seq![
            EntryView::Failed { path, message: message@ },
        ],
        FsTree::Dir { name, children } => seq![EntryView::Found { path, len: 0 }]
            + spec_walk_children(children@, skip_hidden, path),
    }
}

/// The entries contributed below a directory: each child that survives the
/// filter is walked in turn.
pub open spec fn spec_walk_children(
    ts: Seq<FsTree>,
    skip_hidden: bool,
    dir: Seq<char>,
) -> Seq<EntryView>
    decreases ts, 2int,
{
    if ts.len() == 0 {
        Seq::empty()
    } else {
        spec_child_entries(ts[0], skip_hidden, dir) + spec_walk_children(
            ts.drop_first(),
            skip_hidden,
            dir,
        )
    }
}

/// What one child of a directory at `dir` contributes to the walk.
pub open spec fn spec_child_entries(t: FsTree, skip_hidden: bool, dir: Seq<char>) -> Seq<EntryView>
    decreases t, 1int,
{
    if skip_hidden && spec_hidden(t.spec_name()) {
        Seq::empty()
    } else {
        spec_walk(t, skip_hidden, spec_child_path(dir, t.spec_name()))
    }
}

/// Appending a child to a directory listing appends its contribution to the
/// walk.
proof fn lemma_walk_children_push(ts: Seq<FsTree>, x: FsTree, skip_hidden: bool, dir: Seq<char>)
    ensures
        spec_walk_children(ts.push(x), skip_hidden, dir) == spec_walk_children(
            ts,
            skip_hidden,
            dir,
        ) + spec_child_entries(x, skip_hidden, dir),
    decreases ts.len(),
{
    if ts.len() == 0 {
        assert(ts.push(x).drop_first() =~= ts);
        assert(ts.push(x)[0] == x);
        assert(spec_walk_children(ts.push(x), skip_hidden, dir) =~= spec_walk_children(
            ts,
            skip_hidden,
            dir,
        ) + spec_child_entries(x, skip_hidden, dir));
    } else {
        assert(ts.push(x)[0] == ts[0]);
        assert(ts.push(x).drop_first() =~= ts.drop_first().push(x));
        lemma_walk_children_push(ts.drop_first(), x, skip_hidden, dir);
        assert(spec_walk_children(ts.push(x), skip_hidden, dir) =~= spec_walk_children(
            ts,
            skip_hidden,
            dir,
        ) + spec_child_entries(x, skip_hidden, dir));
    }
}

/// Walks the snapshot `t`, appending its entries to `out`.
pub(crate) fn walk_into(t: &FsTree, skip_hidden: bool, path: &String, out: &mut Vec<WalkEntry>)
    ensures
        views_of(final (out)@) == views_of(old(out)@) + spec_walk(*t, skip_hidden, path@),
    decreases *t,
{
    broadcast use lemma_views_of_push;

    match t {
        FsTree::File { name, len } => {
            out.push(WalkEntry::Found { path: path.clone(), len: *len });
            assert(views_of(out@) =~= views_of(old(out)@) + spec_walk(*t, skip_hidden, path@));
        },
        FsTree::Denied { name, message } => {
            out.push(WalkEntry::Failed { path: path.clone(), message: message.clone() });
            assert(views_of(out@) =~= views_of(old(out)@) + spec_walk(*t, skip_hidden, path@));
        },
        FsTree::Dir { name, children } => {
            out.push(WalkEntry::Found { path: path.clone(), len: 0 });
            assert(views_of(out@) =~= views_of(old(out)@) + seq![
                EntryView::Found { path: path@, len: 0u64 },
            ]);
            let n = children.len();
            let mut i: usize = 0;
            while i < n
                invariant
                    *t is Dir,
                    (*t)->children == *children,
                    n == children@.len(),
                    i <= n,
                    views_of(out@) == views_of(old(out)@) + seq![
                        EntryView::Found { path: path@, len: 0u64 },
                    ] + spec_walk_children(children@.take(i as int), skip_hidden, path@),
                decreases n - i,
            {
                let c = &children[i];
                proof {
                    assert(children@.take(i + 1) =~= children@.take(i as int).push(children@[
                        i as int
                    ]));
                    lemma_walk_children_push(
                        children@.take(i as int),
                        children@[i as int],
                        skip_hidden,
                        path@,
                    );
                }
                if skip_hidden && is_hidden(c.name().as_str()) {
                    assert(spec_child_entries(children@[i as int], skip_hidden, path@)
                        =~= Seq::<EntryView>::empty());
                } else {
                    let p = child_path(path, c.name());
                    proof {
                        assert((*t)->children == *children);
                        assert(decreases_to!(*t => (*t)->children));
                        assert(decreases_to!(*children => children@));
                        assert(decreases_to!(children@ => children@[i as int]));
                    }
                    walk_into(c, skip_hidden, &p, out);
                }
                i += 1;
            }
            proof {
                assert(children@.take(n as int) =~= children@);
            }
        },
    }
}

/// Walks the snapshot `t` as a plain job rooted at `path` and delivers its
/// entries: the root itself and, depth first, every node below it that
/// survives the hidden-entry filter.
pub fn walk(t: &FsTree, skip_hidden: bool, path: &String) -> (r: Vec<WalkEntry>)
    ensures
        views_of(r@) == spec_walk(*t, skip_hidden, path@),
{
    let mut out: Vec<WalkEntry> = Vec::new();
    walk_into(t, skip_hidden, path, &mut out);
    out
}

/// One level used up of a depth bound (`None` stays unbounded).
pub open spec fn spec_dec(d: Option<u64>) -> Option<u64> {
    match d {
        Option::None => Option::None,
        Option::Some(k) => Option::Some(
            if k == 0 {
                0u64
            } else {
                (k - 1) as u64
            },
        ),
    }
}

fn dec_depth(d: Option<u64>) -> (r: Option<u64>)
    ensures
        r == spec_dec(d),
{
    match d {
        Option::None => Option::None,
        Option::Some(k) => if k == 0 {
            Option::Some(0)
        } else {
            Option::Some(k - 1)
        },
    }
}

/// The root-relative path of a child: the bare name directly below the
/// root, joined with the separator any deeper.
pub open spec fn spec_rel_child(rel_dir: Seq<char>, name: Seq<char>) -> Seq<char> {
    if rel_dir.len() == 0 {
        name
    } else {
        rel_dir + "/"@ + name
    }
}

fn rel_child(rel_dir: &String, name: &String) -> (r: String)
    ensures
        r@ == spec_rel_child(rel_dir@, name@),
{
    if rel_dir.as_str().unicode_len() == 0 {
        name.clone()
    } else {
        child_path(rel_dir, name)
    }
}

/// The entries one node of the outer, depth-bounded walk of a pattern job
/// contributes.  `rel` is its path relative to the walk root, `full` the
/// same path below the root as delivered to the caller.
///
/// A node whose relative path satisfies the pattern is expanded: it is
/// walked again in full, so that a match on a directory counts everything
/// below it.  A non-matching directory is descended into while the depth
/// bound allows; a non-matching file is dropped; a failed access is
/// reported.  The walk root itself is never tested (its relative path
/// would be the current-directory marker, which must not match itself):
/// gating starts at the root's children.
pub open spec fn spec_gate_node(
    t: FsTree,
    pat: Seq<char>,
    skip_hidden: bool,
    depth_left: Option<u64>,
    rel: Seq<char>,
    full: Seq<char>,
) -> Seq<EntryView>
    decreases t, 0int,
{
    if glob_matches(pat, rel) {
        spec_walk(t, skip_hidden, full)
    } else {
        match t {
            FsTree::File { .. } => Seq::empty(),
            FsTree::Denied { name, message } => seq![
                EntryView::Failed { path: full, message: message@ },
            ],
            FsTree::Dir { name, children } => if depth_left == Option::Some(0u64) {
                Seq::empty()
            } else {
                spec_gate_children(children@, pat, skip_hidden, spec_dec(depth_left), rel, full)
            },
        }
    }
}

/// What one child of an outer-walk directory contributes: nothing when the
/// hidden-entry filter prunes it, its gated entries otherwise.
pub open spec fn spec_gate_child(
    t: FsTree,
    pat: Seq<char>,
    skip_hidden: bool,
    depth_left: Option<u64>,
    rel_dir: Seq<char>,
    full_dir: Seq<char>,
) -> Seq<EntryView>
    decreases t, 1int,
{
    if skip_hidden && spec_hidden(t.spec_name()) {
        Seq::empty()
    } else {
        spec_gate_node(
            t,
            pat,
            skip_hidden,
            depth_left,
            spec_rel_child(rel_dir, t.spec_name()),
            spec_child_path(full_dir, t.spec_name()),
        )
    }
}

/// The gated entries of a directory's children, in listing order.
pub open spec fn spec_gate_children(
    ts: Seq<FsTree>,
    pat: Seq<char>,
    skip_hidden: bool,
    depth_left: Option<u64>,
    rel_dir: Seq<char>,
    full_dir: Seq<char>,
) -> Seq<EntryView>
    decreases ts, 2int,
{
    if ts.len() == 0 {
        Seq::empty()
    } else {
        spec_gate_child(ts[0], pat, skip_hidden, depth_left, rel_dir, full_dir)
            + spec_gate_children(
            ts.drop_first(),
            pat,
            skip_hidden,
            depth_left,
            rel_dir,
            full_dir,
        )
    }
}

/// The entries a whole pattern job delivers from the snapshot `t` of its
/// walk root: the root's children gated within the depth bound.  A root
/// that is a plain file delivers nothing (only the root, which is never
/// gated, was visited), and a root that could not be read reports that.
pub open spec fn spec_pattern_job(
    t: FsTree,
    pat: Seq<char>,
    skip_hidden: bool,
    depth_limit: Option<u64>,
    root_path: Seq<char>,
) -> Seq<EntryView> {
    match t {
        FsTree::File { .. } => Seq::empty(),
        FsTree::Denied { name, message } => seq![
            EntryView::Failed { path: root_path, message: message@ },
        ],
        FsTree::Dir { name, children } => if depth_limit == Option::Some(0u64) {
            Seq::empty()
        } else {
            spec_gate_children(
                children@,
                pat,
                skip_hidden,
                spec_dec(depth_limit),
                Seq::empty(),
                root_path,
            )
        },
    }
}

/// Appending a child to a directory listing appends its gated contribution.
proof fn lemma_gate_children_push(
    ts: Seq<FsTree>,
    x: FsTree,
    pat: Seq<char>,
    skip_hidden: bool,
    depth_left: Option<u64>,
    rel_dir: Seq<char>,
    full_dir: Seq<char>,
)
    ensures
        spec_gate_children(ts.push(x), pat, skip_hidden, depth_left, rel_dir, full_dir)
            == spec_gate_children(ts, pat, skip_hidden, depth_left, rel_dir, full_dir)
            + spec_gate_child(x, pat, skip_hidden, depth_left, rel_dir, full_dir),
    decreases ts.len(),
{
    if ts.len() == 0 {
        assert(ts.push(x).drop_first() =~= ts);
        assert(ts.push(x)[0] == x);
        assert(spec_gate_children(ts.push(x), pat, skip_hidden, depth_left, rel_dir, full_dir)
            =~= spec_gate_children(ts, pat, skip_hidden, depth_left, rel_dir, full_dir)
            + spec_gate_child(x, pat, skip_hidden, depth_left, rel_dir, full_dir));
    } else {
        assert(ts.push(x)[0] == ts[0]);
        assert(ts.push(x).drop_first() =~= ts.drop_first().push(x));
        lemma_gate_children_push(
            ts.drop_first(),
            x,
            pat,
            skip_hidden,
            depth_left,
            rel_dir,
            full_dir,
        );
        assert(spec_gate_children(ts.push(x), pat, skip_hidden, depth_left, rel_dir, full_dir)
            =~= spec_gate_children(ts, pat, skip_hidden, depth_left, rel_dir, full_dir)
            + spec_gate_child(x, pat, skip_hidden, depth_left, rel_dir, full_dir));
    }
}

/// Gates one node of the outer walk, appending its entries to `out`.
fn gate_node(
    t: &FsTree,
    pat: &str,
    skip_hidden: bool,
    depth_left: Option<u64>,
    rel: &String,
    full: &String,
    out: &mut Vec<WalkEntry>,
)
    requires
        glob_accepts(pat@),
    ensures
        views_of(final (out)@) == views_of(old(out)@) + spec_gate_node(
            *t,
            pat@,
            skip_hidden,
            depth_left,
            rel@,
            full@,
        ),
    decreases *t, 0int,
{
    broadcast use lemma_views_of_push;

    if glob_match(pat, rel.as_str()) {
        walk_into(t, skip_hidden, full, out);
    } else {
        match t {
            FsTree::File { .. } => {
                assert(views_of(out@) =~= views_of(old(out)@) + Seq::<EntryView>::empty());
            },
            FsTree::Denied { name, message } => {
                out.push(WalkEntry::Failed { path: full.clone(), message: message.clone() });
                assert(views_of(out@) =~= views_of(old(out)@) + seq![
                    EntryView::Failed { path: full@, message: message@ },
                ]);
            },
            FsTree::Dir { name, children } => {
                let stop = match depth_left {
                    Option::Some(k) => k == 0,
                    Option::None => false,
                };
                if stop {
                    assert(views_of(out@) =~= views_of(old(out)@) + Seq::<EntryView>::empty());
                } else {
                    let d2 = dec_depth(depth_left);
                    proof {
                        assert((*t)->children == *children);
                        assert(decreases_to!(*t => (*t)->children));
                        assert(decreases_to!(*children => children@));
                    }
                    gate_children_into(children, pat, skip_hidden, d2, rel, full, out);
                }
            },
        }
    }
}

/// Gates every child of an outer-walk directory, appending their entries.
fn gate_children_into(
    children: &Vec<FsTree>,
    pat: &str,
    skip_hidden: bool,
    depth_left: Option<u64>,
    rel_dir: &String,
    full_dir: &String,
    out: &mut Vec<WalkEntry>,
)
    requires
        glob_accepts(pat@),
    ensures
        views_of(final (out)@) == views_of(old(out)@) + spec_gate_children(
            children@,
            pat@,
            skip_hidden,
            depth_left,
            rel_dir@,
            full_dir@,
        ),
    decreases children@, 2int,
{
    let n = children.len();
    let mut i: usize = 0;
    while i < n
        invariant
            glob_accepts(pat@),
            n == children@.len(),
            i <= n,
            views_of(out@) == views_of(old(out)@) + spec_gate_children(
                children@.take(i as int),
                pat@,
                skip_hidden,
                depth_left,
                rel_dir@,
                full_dir@,
            ),
        decreases n - i,
    {
        let c = &children[i];
        proof {
            assert(children@.take(i + 1) =~= children@.take(i as int).push(children@[i as int]));
            lemma_gate_children_push(
                children@.take(i as int),
                children@[i as int],
                pat@,
                skip_hidden,
                depth_left,
                rel_dir@,
                full_dir@,
            );
        }
        if skip_hidden && is_hidden(c.name().as_str()) {
            assert(spec_gate_child(
                children@[i as int],
                pat@,
                skip_hidden,
                depth_left,
                rel_dir@,
                full_dir@,
            ) =~= Seq::<EntryView>::empty());
        } else {
            let r2 = rel_child(rel_dir, c.name());
            let f2 = child_path(full_dir, c.name());
            proof {
                assert(decreases_to!(children@ => children@[i as int]));
            }
            gate_node(c, pat, skip_hidden, depth_left, &r2, &f2, out);
        }
        i += 1;
    }
    proof {
        assert(children@.take(n as int) =~= children@);
    }
}

/// Runs a whole pattern job over the snapshot `t` of its walk root,
/// appending the gated entries to `out`.
pub(crate) fn pattern_job_into(
    t: &FsTree,
    pat: &str,
    depth_limit: Option<u64>,
    skip_hidden: bool,
    root_path: &String,
    out: &mut Vec<WalkEntry>,
)
    requires
        glob_accepts(pat@),
    ensures
        views_of(final (out)@) == views_of(old(out)@) + spec_pattern_job(
            *t,
            pat@,
            skip_hidden,
            depth_limit,
            root_path@,
        ),
{
    broadcast use lemma_views_of_push;

    match t {
        FsTree::File { .. } => {
            assert(views_of(out@) =~= views_of(old(out)@) + Seq::<EntryView>::empty());
        },
        FsTree::Denied { name, message } => {
            out.push(WalkEntry::Failed { path: root_path.clone(), message: message.clone() });
            assert(views_of(out@) =~= views_of(old(out)@) + seq![
                EntryView::Failed { path: root_path@, message: message@ },
            ]);
        },
        FsTree::Dir { name, children } => {
            let stop = match depth_limit {
                Option::Some(k) => k == 0,
                Option::None => false,
            };
            if stop {
                assert(views_of(out@) =~= views_of(old(out)@) + Seq::<EntryView>::empty());
            } else {
                let d2 = dec_depth(depth_limit);
                let rel0 = String::new();
                gate_children_into(children, pat, skip_hidden, d2, &rel0, root_path, out);
            }
        },
    }
}

/// Runs a pattern job: walks the snapshot `t` of the job's root within the
/// depth bound, expands every entry whose root-relative path satisfies the
/// pattern, and delivers the expanded entries.  A pattern the matcher
/// rejects is reported instead, before anything is walked.
pub fn run_pattern(
    t: &FsTree,
    pattern: &str,
    depth_limit: Option<u64>,
    skip_hidden: bool,
    root_path: &String,
) -> (r: Result<Vec<WalkEntry>, CompileError>)
    ensures
        r is Ok <==> glob_accepts(pattern@),
        r matches Ok(es) ==> views_of(es@) == spec_pattern_job(
            *t,
            pattern@,
            skip_hidden,
            depth_limit,
            root_path@,
        ),
        r matches Err(e) ==> e.pattern@ == pattern@,
{
    match glob_check(pattern) {
        Ok(()) => {
            let mut out: Vec<WalkEntry> = Vec::new();
            pattern_job_into(t, pattern, depth_limit, skip_hidden, root_path, &mut out);
            Ok(out)
        },
        Err(message) => Err(CompileError { pattern: pattern.to_owned(), message }),
    }
}

} // verus!
