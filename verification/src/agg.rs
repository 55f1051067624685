//! The aggregation stage: folds a stream of walk entries into one byte
//! total and a list of diagnostics.
//!
//! The fold is a commutative, associative sum, so the delivery order of the
//! entries — which a concurrent walk does not fix — cannot change the total;
//! that is proved here once and for all ([`lemma_total_order_independent`]).
//! A failed access contributes zero bytes and, unless the run is quiet, one
//! diagnostic naming its path and cause.  The accumulator saturates at the
//! largest representable total rather than wrapping.

use vstd::prelude::*;
use vstd::seq_lib::group_to_multiset_ensures;

use crate::walk::{views_of, EntryView, FsTree, WalkEntry};
use crate::walk::{spec_child_entries, spec_child_path, spec_hidden, spec_walk, spec_walk_children};

verus! {

/// A failed access to one path: recoverable, worth one diagnostic line.
#[derive(Debug, Clone)]
pub struct AccessError {
    /// The path whose metadata or listing could not be read.
    pub path: String,
    /// The reported cause.
    pub message: String,
}

impl View for AccessError {
    type V = (Seq<char>, Seq<char>);

    open spec fn view(&self) -> (Seq<char>, Seq<char>) {
        (self.path@, self.message@)
    }
}

/// The bytes one entry contributes: its length, or nothing for a failed
/// access.
pub open spec fn spec_entry_len(e: EntryView) -> int {
    match e {
        EntryView::Found { len, .. } => len as int,
        EntryView::Failed { .. } => 0,
    }
}

/// The exact byte total of a list of entries.
pub open spec fn spec_entries_total(es: Seq<EntryView>) -> int
    decreases es.len(),
{
    if es.len() == 0 {
        0
    } else {
        spec_entry_len(es[0]) + spec_entries_total(es.drop_first())
    }
}

/// The diagnostics a list of entries owes: one `(path, cause)` pair per
/// failed access, in delivery order.
pub open spec fn spec_failures(es: Seq<EntryView>) -> Seq<(Seq<char>, Seq<char>)>
    decreases es.len(),
{
    if es.len() == 0 {
        Seq::empty()
    } else {
        (match es[0] {
            EntryView::Failed { path, message } => seq![(path, message)],
            EntryView::Found { .. } => Seq::empty(),
        }) + spec_failures(es.drop_first())
    }
}

/// A mathematical total clamped into the accumulator's range.
pub open spec fn spec_clamp(n: int) -> u64 {
    if n <= u64::MAX {
        n as u64
    } else {
        u64::MAX
    }
}

proof fn lemma_entries_total_nonneg(es: Seq<EntryView>)
    ensures
        spec_entries_total(es) >= 0,
    decreases es.len(),
{
    if es.len() > 0 {
        lemma_entries_total_nonneg(es.drop_first());
    }
}

proof fn lemma_entries_total_push(es: Seq<EntryView>, e: EntryView)
    ensures
        spec_entries_total(es.push(e)) == spec_entries_total(es) + spec_entry_len(e),
    decreases es.len(),
{
    if es.len() == 0 {
        assert(es.push(e).drop_first() =~= es);
    } else {
        assert(es.push(e)[0] == es[0]);
        assert(es.push(e).drop_first() =~= es.drop_first().push(e));
        lemma_entries_total_push(es.drop_first(), e);
    }
}

pub proof fn lemma_entries_total_append(a: Seq<EntryView>, b: Seq<EntryView>)
    ensures
        spec_entries_total(a + b) == spec_entries_total(a) + spec_entries_total(b),
    decreases b.len(),
{
    if b.len() == 0 {
        assert(a + b =~= a);
    } else {
        assert(a + b =~= (a + b.drop_last()).push(b.last()));
        assert(b =~= b.drop_last().push(b.last()));
        lemma_entries_total_append(a, b.drop_last());
        lemma_entries_total_push(a + b.drop_last(), b.last());
        lemma_entries_total_push(b.drop_last(), b.last());
    }
}

proof fn lemma_failures_push(es: Seq<EntryView>, e: EntryView)
    ensures
        spec_failures(es.push(e)) == spec_failures(es) + (match e {
            EntryView::Failed { path, message } => seq![(path, message)],
            EntryView::Found { .. } => Seq::empty()
        }),
    decreases es.len(),
{
    let tail = (match e {
        EntryView::Failed { path, message } => seq![(path, message)],
        EntryView::Found { .. } => Seq::empty(),
    });
    if es.len() == 0 {
        assert(es.push(e).drop_first() =~= es);
        assert(spec_failures(es.push(e)) =~= spec_failures(es) + tail);
    } else {
        assert(es.push(e)[0] == es[0]);
        assert(es.push(e).drop_first() =~= es.drop_first().push(e));
        lemma_failures_push(es.drop_first(), e);
        assert(spec_failures(es.push(e)) =~= spec_failures(es) + tail);
    }
}

/// Folds the delivered entries into the final total and the diagnostics
/// owed: every reachable length is summed (saturating at the accumulator's
/// range); every failed access contributes zero and, unless `quiet`, exactly
/// one diagnostic with its path and cause.  No failure is ever fatal.
pub fn reduce(entries: &Vec<WalkEntry>, quiet: bool) -> (r: (u64, Vec<AccessError>))
    ensures
        r.0 == spec_clamp(spec_entries_total(views_of(entries@))),
        quiet ==> r.1@.len() == 0,
        !quiet ==> r.1@.map_values(|a: AccessError| a@) == spec_failures(views_of(entries@)),
{
    let ghost evs = views_of(entries@);
    let n = entries.len();
    let mut total: u64 = 0;
    let mut diags: Vec<AccessError> = Vec::new();
    let mut i: usize = 0;
    while i < n
        invariant
            n == entries@.len(),
            i <= n,
            evs == views_of(entries@),
            total == spec_clamp(spec_entries_total(evs.take(i as int))),
            quiet ==> diags@.len() == 0,
            !quiet ==> diags@.map_values(|a: AccessError| a@) == spec_failures(
                evs.take(i as int),
            ),
        decreases n - i,
    {
        let e = &entries[i];
        proof {
            assert(evs[i as int] == entries@[i as int]@);
            assert(evs.take(i + 1) =~= evs.take(i as int).push(evs[i as int]));
            lemma_entries_total_push(evs.take(i as int), evs[i as int]);
            lemma_entries_total_nonneg(evs.take(i as int));
            lemma_failures_push(evs.take(i as int), evs[i as int]);
        }
        match e {
            WalkEntry::Found { path, len } => {
                total = match total.checked_add(*len) {
                    Option::Some(s) => s,
                    Option::None => u64::MAX,
                };
            },
            WalkEntry::Failed { path, message } => {
                if !quiet {
                    diags.push(
                        AccessError { path: path.clone(), message: message.clone() },
                    );
                    assert(diags@.map_values(|a: AccessError| a@) =~= spec_failures(
                        evs.take(i + 1),
                    ));
                }
            },
        }
        i += 1;
    }
    proof {
        assert(evs.take(n as int) =~= evs);
    }
    (total, diags)
}

/// The sum of an arbitrary weight over a list.
pub open spec fn spec_weight_sum<T>(s: Seq<T>, w: spec_fn(T) -> int) -> int
    decreases s.len(),
{
    if s.len() == 0 {
        0
    } else {
        w(s[0]) + spec_weight_sum(s.drop_first(), w)
    }
}

proof fn lemma_weight_sum_remove<T>(s: Seq<T>, j: int, w: spec_fn(T) -> int)
    requires
        0 <= j < s.len(),
    ensures
        spec_weight_sum(s, w) == spec_weight_sum(s.remove(j), w) + w(s[j]),
    decreases j,
{
    if j == 0 {
        assert(s.remove(0) =~= s.drop_first());
    } else {
        assert(s.remove(j)[0] == s[0]);
        assert(s.remove(j).drop_first() =~= s.drop_first().remove(j - 1));
        assert(s.drop_first()[j - 1] == s[j]);
        lemma_weight_sum_remove(s.drop_first(), j - 1, w);
    }
}

/// A weighted sum over a list depends only on which items the list holds,
/// never on their order.
pub proof fn lemma_weight_sum_permutation<T>(a: Seq<T>, b: Seq<T>, w: spec_fn(T) -> int)
    requires
        a.to_multiset() == b.to_multiset(),
    ensures
        spec_weight_sum(a, w) == spec_weight_sum(b, w),
    decreases a.len(),
{
    broadcast use group_to_multiset_ensures;

    if a.len() == 0 {
        assert(b.to_multiset().len() == 0);
    } else {
        let x = a[0];
        assert(a.contains(x));
        assert(a.to_multiset().count(x) > 0);
        assert(b.to_multiset().count(x) > 0);
        assert(b.contains(x));
        let j = choose|j: int| 0 <= j < b.len() && b[j] == x;
        assert(a.drop_first() =~= a.remove(0));
        assert(a.remove(0).to_multiset() == a.to_multiset().remove(x));
        assert(b.remove(j).to_multiset() == b.to_multiset().remove(x));
        lemma_weight_sum_permutation(a.drop_first(), b.remove(j), w);
        lemma_weight_sum_remove(b, j, w);
    }
}

proof fn lemma_entries_total_is_weight_sum(es: Seq<EntryView>)
    ensures
        spec_entries_total(es) == spec_weight_sum(es, |e: EntryView| spec_entry_len(e)),
    decreases es.len(),
{
    if es.len() > 0 {
        lemma_entries_total_is_weight_sum(es.drop_first());
    }
}

/// The reduction is order-independent: two deliveries of the same entries,
/// however interleaved by concurrent walks, total the same bytes.
pub proof fn lemma_total_order_independent(a: Seq<EntryView>, b: Seq<EntryView>)
    requires
        a.to_multiset() == b.to_multiset(),
    ensures
        spec_entries_total(a) == spec_entries_total(b),
{
    lemma_entries_total_is_weight_sum(a);
    lemma_entries_total_is_weight_sum(b);
    lemma_weight_sum_permutation(a, b, |e: EntryView| spec_entry_len(e));
}

/// The bytes a subtree holds under the hidden-entry policy: regular files
/// count their length, unreadable nodes count zero, directories count their
/// surviving children.
pub open spec fn spec_tree_total(t: FsTree, skip_hidden: bool) -> int
    decreases t, 0int,
{
    match t {
        FsTree::File { len, .. } => len as int,
        FsTree::Denied { .. } => 0,
        FsTree::Dir { name, children } => spec_children_total(children@, skip_hidden),
    }
}

/// What one child contributes to its directory's bytes.
pub open spec fn spec_child_total(t: FsTree, skip_hidden: bool) -> int
    decreases t, 1int,
{
    if skip_hidden && spec_hidden(t.spec_name()) {
        0
    } else {
        spec_tree_total(t, skip_hidden)
    }
}

pub open spec fn spec_children_total(ts: Seq<FsTree>, skip_hidden: bool) -> int
    decreases ts, 2int,
{
    if ts.len() == 0 {
        0
    } else {
        spec_child_total(ts[0], skip_hidden) + spec_children_total(ts.drop_first(), skip_hidden)
    }
}

/// A plain walk delivers exactly the bytes its subtree holds, wherever the
/// walk was rooted.
pub proof fn lemma_walk_total(t: FsTree, skip_hidden: bool, path: Seq<char>)
    ensures
        spec_entries_total(spec_walk(t, skip_hidden, path)) == spec_tree_total(t, skip_hidden),
    decreases t, 0int,
{
    match t {
        FsTree::File { name, len } => {
            let es = spec_walk(t, skip_hidden, path);
            assert(es.drop_first() =~= Seq::<EntryView>::empty());
            assert(spec_entries_total(es.drop_first()) == 0);
        },
        FsTree::Denied { name, message } => {
            assert(spec_walk(t, skip_hidden, path).drop_first() =~= Seq::<EntryView>::empty());
            assert(spec_entries_total(spec_walk(t, skip_hidden, path).drop_first()) == 0);
        },
        FsTree::Dir { name, children } => {
            let head = seq![EntryView::Found { path, len: 0u64 }];
            lemma_entries_total_append(head, spec_walk_children(children@, skip_hidden, path));
            assert(head.drop_first() =~= Seq::<EntryView>::empty());
            assert(spec_entries_total(head.drop_first()) == 0);
            lemma_walk_children_total(children@, skip_hidden, path);
        },
    }
}

proof fn lemma_walk_child_total(t: FsTree, skip_hidden: bool, dir: Seq<char>)
    ensures
        spec_entries_total(spec_child_entries(t, skip_hidden, dir)) == spec_child_total(
            t,
            skip_hidden,
        ),
    decreases t, 1int,
{
    if skip_hidden && spec_hidden(t.spec_name()) {
    } else {
        lemma_walk_total(t, skip_hidden, spec_child_path(dir, t.spec_name()));
    }
}

proof fn lemma_walk_children_total(ts: Seq<FsTree>, skip_hidden: bool, dir: Seq<char>)
    ensures
        spec_entries_total(spec_walk_children(ts, skip_hidden, dir)) == spec_children_total(
            ts,
            skip_hidden,
        ),
    decreases ts, 2int,
{
    if ts.len() == 0 {
    } else {
        lemma_entries_total_append(
            spec_child_entries(ts[0], skip_hidden, dir),
            spec_walk_children(ts.drop_first(), skip_hidden, dir),
        );
        lemma_walk_child_total(ts[0], skip_hidden, dir);
        lemma_walk_children_total(ts.drop_first(), skip_hidden, dir);
    }
}

/// Skipping hidden entries can only remove bytes from a subtree's total,
/// never add any; with the filter off every byte is included.
pub proof fn lemma_hidden_filter_monotone(t: FsTree)
    ensures
        0 <= spec_tree_total(t, true) <= spec_tree_total(t, false),
    decreases t, 0int,
{
    match t {
        FsTree::File { .. } => {},
        FsTree::Denied { .. } => {},
        FsTree::Dir { name, children } => {
            lemma_hidden_children_monotone(children@);
        },
    }
}

proof fn lemma_hidden_child_monotone(t: FsTree)
    ensures
        0 <= spec_child_total(t, true) <= spec_child_total(t, false),
    decreases t, 1int,
{
    lemma_hidden_filter_monotone(t);
}

proof fn lemma_hidden_children_monotone(ts: Seq<FsTree>)
    ensures
        0 <= spec_children_total(ts, true) <= spec_children_total(ts, false),
    decreases ts, 2int,
{
    if ts.len() > 0 {
        lemma_hidden_child_monotone(ts[0]);
        lemma_hidden_children_monotone(ts.drop_first());
    }
}

} // verus!
