//! Flat, depth-ordered folder tree. The walk over the file system is a
//! state machine: its driver lists each directory it is asked for and
//! hands the listing back.
use vstd::prelude::*;
use std::path::PathBuf;
use crate::sorting::{is_index_perm, key_lt, stable_sort, stable_before, SortKey};
use crate::text::{str_chars, to_lowercase, unicode_lowercase};

verus! {

/// A file-system path (std).
#[verifier::external_type_specification]
#[verifier::external_body]
pub struct ExPathBuf(PathBuf);

/// One row of the folder tree.
#[derive(Debug)]
pub struct FolderNode {
    pub path: PathBuf,
    pub display_name: String,
    pub depth: i32,
    pub has_children: bool,
}

/// A directory entry is listed: it has a name that is valid Unicode and
/// does not start with a dot.
pub open spec fn is_listed(name: Option<Seq<char>>) -> bool {
    match name {
        Some(n) => !(n.len() > 0 && n[0] == '.'),
        None => false,
    }
}

/// The listed entries, in listing order.
pub open spec fn listed_entries<T>(entries: Seq<(Option<Seq<char>>, T)>) -> Seq<(Seq<char>, T)>
    decreases entries.len(),
{
    if entries.len() == 0 {
        Seq::empty()
    } else {
        let rest = listed_entries(entries.drop_last());
        let e = entries.last();
        if is_listed(e.0) {
            rest.push((e.0->0, e.1))
        } else {
            rest
        }
    }
}

/// Name and payload of an entry, the name taken by its view.
pub open spec fn entry_view<T>(e: (Option<String>, T)) -> (Option<Seq<char>>, T) {
    (
        match e.0 {
            Some(s) => Some(s@),
            None => None,
        },
        e.1,
    )
}

/// `out` holds the payloads of `kept`, ordered by the lower-case form of
/// their names, entries with equal keys in listing order.
pub open spec fn sorted_by_lower_name<T>(kept: Seq<(Seq<char>, T)>, out: Seq<T>) -> bool {
    exists|perm: Seq<int>|
        {
            &&& #[trigger] is_index_perm(perm, kept.len() as int)
            &&& out.len() == kept.len()
            &&& forall|k: int| 0 <= k < out.len() ==> out[k] == kept[perm[k]].1
            &&& forall|k: int, l: int|
                0 <= k < l < out.len() ==> stable_before(
                    (false, unicode_lowercase(kept[perm[k]].0)),
                    perm[k],
                    (false, unicode_lowercase(kept[perm[l]].0)),
                    perm[l],
                )
        }
}

/// Subdirectories in display order: entries without a Unicode name and
/// hidden entries (name starting with a dot) are dropped, the rest are
/// sorted by the lower-case form of their names, keeping the listing order
/// among equal names.
pub fn order_subdirs<T>(entries: Vec<(Option<String>, T)>) -> (r: Vec<T>)
    ensures
        sorted_by_lower_name(listed_entries(entries@.map_values(|e: (Option<String>, T)| entry_view(e))), r@),
{
    let ghost views = entries@.map_values(|e: (Option<String>, T)| entry_view(e));
    let ghost n = entries@.len();
    let total = entries.len();
    let mut entries = entries;
    let mut keyed: Vec<(SortKey, T)> = Vec::new();
    let mut i: usize = 0;
    let mut rest: Vec<(Option<String>, T)> = Vec::new();
    // Reverse once so that entries can be taken from the back in order.
    while entries.len() > 0
        invariant
            entries@.len() + rest@.len() == n,
            forall|k: int| 0 <= k < rest@.len() ==> entry_view(#[trigger] rest@[k]) == views[n - 1 - k],
            forall|k: int| 0 <= k < entries@.len() ==> entry_view(#[trigger] entries@[k]) == views[k],
        decreases entries.len(),
    {
        let e = entries.pop().unwrap();
        rest.push(e);
    }
    while i < total
        invariant
            total == n,
            views.len() == n,
            i <= n,
            rest@.len() == n - i,
            forall|k: int| 0 <= k < rest@.len() ==> entry_view(#[trigger] rest@[k]) == views[n - 1 - k],
            listed_entries(views.subrange(0, i as int)).len() == keyed@.len(),
            forall|k: int|
                0 <= k < keyed@.len() ==> (#[trigger] keyed@[k]).1 == listed_entries(
                    views.subrange(0, i as int),
                )[k].1 && keyed@[k].0.text@ == unicode_lowercase(
                    listed_entries(views.subrange(0, i as int))[k].0,
                ) && !keyed@[k].0.first,
        decreases n - i,
    {
        let (name, payload) = rest.pop().unwrap();
        proof {
            assert(views.subrange(0, i + 1).drop_last() =~= views.subrange(0, i as int));
        }
        match name {
            Some(s) => {
                let cs = str_chars(s.as_str());
                if cs.len() > 0 && cs[0] == '.' {
                } else {
                    let lower = to_lowercase(s.as_str());
                    let text = str_chars(lower.as_str());
                    keyed.push((SortKey { first: false, text }, payload));
                }
            },
            None => {},
        }
        i = i + 1;
    }
    proof {
        assert(views.subrange(0, n as int) =~= views);
    }
    let ghost kept = listed_entries(views);
    let ghost keyed_v = keyed@;
    let (sorted, perm) = stable_sort(keyed);
    let ghost keyed_in = sorted@;
    let mut out: Vec<T> = Vec::new();
    let mut sorted = sorted;
    let mut back: Vec<T> = Vec::new();
    while sorted.len() > 0
        invariant
            sorted@.len() + back@.len() == keyed_in.len(),
            forall|k: int| 0 <= k < sorted@.len() ==> sorted@[k] == keyed_in[k],
            forall|k: int| 0 <= k < back@.len() ==> back@[k] == keyed_in[keyed_in.len() - 1 - k].1,
        decreases sorted.len(),
    {
        let (_, p) = sorted.pop().unwrap();
        back.push(p);
    }
    while back.len() > 0
        invariant
            back@.len() + out@.len() == keyed_in.len(),
            forall|k: int| 0 <= k < back@.len() ==> back@[k] == keyed_in[keyed_in.len() - 1 - k].1,
            forall|k: int| 0 <= k < out@.len() ==> out@[k] == keyed_in[k].1,
        decreases back.len(),
    {
        let p = back.pop().unwrap();
        out.push(p);
    }
    proof {
        let pm = perm@;
        assert(is_index_perm(pm, kept.len() as int));
        assert forall|k: int, l: int| 0 <= k < l < out@.len() implies stable_before(
            (false, unicode_lowercase(kept[pm[k]].0)),
            pm[k],
            (false, unicode_lowercase(kept[pm[l]].0)),
            pm[l],
        ) by {
            assert(keyed_in[k] == keyed_v[pm[k]]);
            assert(keyed_in[l] == keyed_v[pm[l]]);
        }
        assert(sorted_by_lower_name(kept, out@));
    }
    out
}

/// Walk over the folder tree, depth first, children in the order given.
pub struct TreeWalk {
    pending: Vec<(PathBuf, i32)>,
    nodes: Vec<FolderNode>,
}

/// Directories waiting to be visited with their depths, pushed in reverse
/// so that the first child is visited first.
pub open spec fn pushed_children(children: Seq<PathBuf>, depth: int) -> Seq<(PathBuf, i32)> {
    Seq::new(children.len(), |k: int| (children[children.len() - 1 - k], depth as i32))
}

/// A folder as the file system shows it: its path, whether the user has
/// expanded it, and its subdirectories in display order.
pub enum FolderModel {
    Dir { path: PathBuf, expanded: bool, children: Seq<FolderModel> },
}

impl FolderModel {
    pub open spec fn path(self) -> PathBuf {
        match self {
            FolderModel::Dir { path, .. } => path,
        }
    }

    pub open spec fn expanded(self) -> bool {
        match self {
            FolderModel::Dir { expanded, .. } => expanded,
        }
    }

    pub open spec fn children(self) -> Seq<FolderModel> {
        match self {
            FolderModel::Dir { children, .. } => children,
        }
    }
}

/// Paths of the subdirectories of a folder.
pub open spec fn child_paths(t: FolderModel) -> Seq<PathBuf> {
    t.children().map_values(|c: FolderModel| c.path())
}

/// Path, depth and whether it has subdirectories, of a produced row.
pub open spec fn node_row(n: FolderNode) -> (PathBuf, int, bool) {
    (n.path, n.depth as int, n.has_children)
}

/// Rows of the tree below `t` (at depth `d`), depth first: the folder,
/// then, when it is expanded, the rows of each subdirectory in order.
pub open spec fn rows_of(t: FolderModel, d: int) -> Seq<(PathBuf, int, bool)>
    decreases t, 0int,
{
    match t {
        FolderModel::Dir { path, expanded, children } => seq![(path, d, children.len() > 0)] + (if expanded {
            rows_of_list(children, d + 1, 0)
        } else {
            Seq::empty()
        }),
    }
}

/// Rows of the folders `ts[i..]`, each at depth `d`, in order.
pub open spec fn rows_of_list(ts: Seq<FolderModel>, d: int, i: int) -> Seq<(PathBuf, int, bool)>
    decreases ts, ts.len() - i,
{
    if 0 <= i < ts.len() {
        rows_of(ts[i], d) + rows_of_list(ts, d, i + 1)
    } else {
        Seq::empty()
    }
}

/// Rows still owed by a stack of folders with their depths, the top (last)
/// first.
pub open spec fn stack_rows(ts: Seq<FolderModel>, ds: Seq<int>) -> Seq<(PathBuf, int, bool)>
    decreases ts.len(),
{
    if ts.len() == 0 || ds.len() != ts.len() {
        Seq::empty()
    } else {
        rows_of(ts.last(), ds.last()) + stack_rows(ts.drop_last(), ds.drop_last())
    }
}

/// The walk's state matches the tree `root`: its pending directories are
/// the folders `ts` at depths `ds`, and the rows produced so far followed by
/// those the stack still owes are exactly the depth-first rows of `root`.
pub open spec fn walk_matches(
    root: FolderModel,
    pending: Seq<(PathBuf, i32)>,
    rows: Seq<(PathBuf, int, bool)>,
    ts: Seq<FolderModel>,
    ds: Seq<int>,
) -> bool {
    &&& ts.len() == pending.len()
    &&& ds.len() == pending.len()
    &&& forall|k: int| 0 <= k < pending.len() ==> #[trigger] pending[k] == (ts[k].path(), ds[k] as i32)
    &&& forall|k: int| 0 <= k < ds.len() ==> i32::MIN <= #[trigger] ds[k] <= i32::MAX
    &&& rows + stack_rows(ts, ds) == rows_of(root, 0)
}

/// Folders `cs[i..]` in reverse order, as they stand on the stack once pushed.
pub open spec fn pushed_models(cs: Seq<FolderModel>, i: int) -> Seq<FolderModel> {
    Seq::new((cs.len() - i) as nat, |k: int| cs[cs.len() - 1 - k])
}

proof fn lemma_stack_rows_pushed(base: Seq<FolderModel>, bds: Seq<int>, cs: Seq<FolderModel>, d: int, i: int)
    requires
        base.len() == bds.len(),
        0 <= i <= cs.len(),
    ensures
        stack_rows(base + pushed_models(cs, i), bds + Seq::new((cs.len() - i) as nat, |k: int| d))
            == rows_of_list(cs, d, i) + stack_rows(base, bds),
    decreases cs.len() - i,
{
    let ts = base + pushed_models(cs, i);
    let ds = bds + Seq::new((cs.len() - i) as nat, |k: int| d);
    if i == cs.len() {
        assert(ts =~= base);
        assert(ds =~= bds);
        assert(rows_of_list(cs, d, i) =~= Seq::empty());
    } else {
        lemma_stack_rows_pushed(base, bds, cs, d, i + 1);
        assert(ts.drop_last() =~= base + pushed_models(cs, i + 1));
        assert(ds.drop_last() =~= bds + Seq::new((cs.len() - (i + 1)) as nat, |k: int| d));
        assert(ts.last() == cs[i]);
        assert(ds.last() == d);
        assert(stack_rows(ts, ds) == rows_of(cs[i], d) + stack_rows(ts.drop_last(), ds.drop_last()));
        assert(rows_of_list(cs, d, i) == rows_of(cs[i], d) + rows_of_list(cs, d, i + 1));
        assert(rows_of(cs[i], d) + (rows_of_list(cs, d, i + 1) + stack_rows(base, bds)) =~= (rows_of(
            cs[i],
            d,
        ) + rows_of_list(cs, d, i + 1)) + stack_rows(base, bds));
    }
}

/// A walk started at the root folder matches the tree.
pub proof fn lemma_walk_starts(root: FolderModel)
    ensures
        walk_matches(root, seq![(root.path(), 0i32)], Seq::empty(), seq![root], seq![0int]),
{
    let ts = seq![root];
    let ds = seq![0int];
    assert(ts.drop_last() =~= Seq::<FolderModel>::empty());
    assert(ds.drop_last() =~= Seq::<int>::empty());
    assert(stack_rows(ts, ds) =~= rows_of(root, 0) + stack_rows(ts.drop_last(), ds.drop_last()));
    assert(Seq::<(PathBuf, int, bool)>::empty() + stack_rows(ts, ds) =~= rows_of(root, 0));
}

/// Visiting the next directory with the listing and expansion state that
/// the tree gives it keeps the walk matching the tree: the row produced is
/// the next depth-first row, and the subdirectories pushed are owed next.
pub proof fn lemma_walk_step(
    root: FolderModel,
    pending: Seq<(PathBuf, i32)>,
    rows: Seq<(PathBuf, int, bool)>,
    ts: Seq<FolderModel>,
    ds: Seq<int>,
)
    requires
        walk_matches(root, pending, rows, ts, ds),
        pending.len() > 0,
        ts.last().expanded() && ts.last().children().len() > 0 ==> pending.last().1 < i32::MAX,
    ensures
        ({
            let t = ts.last();
            let (p, d) = pending.last();
            let subdirs = child_paths(t);
            let new_pending = pending.drop_last() + (if t.expanded() {
                pushed_children(subdirs, d + 1)
            } else {
                Seq::empty()
            });
            let new_rows = rows.push((p, d as int, subdirs.len() > 0));
            let new_ts = ts.drop_last() + (if t.expanded() {
                pushed_models(t.children(), 0)
            } else {
                Seq::empty()
            });
            let new_ds = ds.drop_last() + (if t.expanded() {
                Seq::new(t.children().len(), |k: int| d + 1)
            } else {
                Seq::empty()
            });
            walk_matches(root, new_pending, new_rows, new_ts, new_ds)
        }),
{
    let t = ts.last();
    let n = pending.len();
    let (p, d) = pending.last();
    assert(pending[n - 1] == (ts[n - 1].path(), ds[n - 1] as i32));
    let subdirs = child_paths(t);
    let base = ts.drop_last();
    let bds = ds.drop_last();
    let cs = t.children();
    let e = ds.last() + 1;
    assert(d as int == ds.last());
    let new_pending = pending.drop_last() + (if t.expanded() {
        pushed_children(subdirs, d + 1)
    } else {
        Seq::empty()
    });
    let new_rows = rows.push((p, d as int, subdirs.len() > 0));
    let new_ts = base + (if t.expanded() {
        pushed_models(cs, 0)
    } else {
        Seq::empty()
    });
    let new_ds = bds + (if t.expanded() {
        Seq::new(cs.len(), |k: int| d + 1)
    } else {
        Seq::empty()
    });
    assert(stack_rows(ts, ds) == rows_of(t, ds.last()) + stack_rows(base, bds));
    if t.expanded() {
        lemma_stack_rows_pushed(base, bds, cs, e, 0);
        assert(new_ds =~= bds + Seq::new((cs.len() - 0) as nat, |k: int| e));
        assert(new_ts =~= base + pushed_models(cs, 0));
        assert(rows_of(t, ds.last()) == seq![(t.path(), ds.last(), cs.len() > 0)] + rows_of_list(cs, e, 0));
        assert(new_rows + stack_rows(new_ts, new_ds) =~= rows + (seq![(t.path(), ds.last(), cs.len() > 0)]
            + rows_of_list(cs, e, 0) + stack_rows(base, bds)));
        assert forall|k: int| 0 <= k < new_pending.len() implies #[trigger] new_pending[k] == (
            new_ts[k].path(),
            new_ds[k] as i32,
        ) by {
            if k >= base.len() {
                let j = k - base.len();
                assert(new_pending[k] == pushed_children(subdirs, d + 1)[j]);
                assert(new_ts[k] == cs[cs.len() - 1 - j]);
            } else {
                assert(new_pending[k] == pending[k]);
            }
        }
    } else {
        assert(new_ds =~= bds);
        assert(new_ts =~= base);
        assert(rows_of(t, ds.last()) =~= seq![(t.path(), ds.last(), cs.len() > 0)]);
        assert(new_rows + stack_rows(new_ts, new_ds) =~= rows + (seq![(t.path(), ds.last(), cs.len() > 0)]
            + stack_rows(base, bds)));
        assert forall|k: int| 0 <= k < new_pending.len() implies #[trigger] new_pending[k] == (
            new_ts[k].path(),
            new_ds[k] as i32,
        ) by {
            assert(new_pending[k] == pending[k]);
        }
    }
}

/// Path, depth and child flag of each row produced.
pub open spec fn walk_rows(nodes: Seq<FolderNode>) -> Seq<(PathBuf, int, bool)> {
    nodes.map_values(|n: FolderNode| node_row(n))
}

/// The row a visit appends extends the produced rows by its path, depth
/// and child flag.
pub proof fn lemma_walk_rows_push(nodes: Seq<FolderNode>, n: FolderNode)
    ensures
        walk_rows(nodes.push(n)) == walk_rows(nodes).push(node_row(n)),
{
    assert(walk_rows(nodes.push(n)) =~= walk_rows(nodes).push(node_row(n)));
}

/// Once no directory is pending, the rows the walk has produced are the
/// depth-first rows of the whole tree.
pub proof fn lemma_walk_finishes(root: FolderModel, walk: TreeWalk, ts: Seq<FolderModel>, ds: Seq<int>)
    requires
        walk.pending().len() == 0,
        walk_matches(root, walk.pending(), walk_rows(walk.nodes()), ts, ds),
    ensures
        walk_rows(walk.nodes()) == rows_of(root, 0),
{
    let rows = walk_rows(walk.nodes());
    assert(rows + stack_rows(ts, ds) =~= rows);
}

impl TreeWalk {
    /// Directories still to visit; the last is visited next.
    pub closed spec fn pending(&self) -> Seq<(PathBuf, i32)> {
        self.pending@
    }

    /// Rows produced so far.
    pub closed spec fn nodes(&self) -> Seq<FolderNode> {
        self.nodes@
    }

    /// A walk that starts at `root`, at depth zero.
    pub fn start(root: PathBuf) -> (r: Self)
        ensures
            r.pending() == seq![(root, 0i32)],
            r.nodes().len() == 0,
    {
        let mut pending: Vec<(PathBuf, i32)> = Vec::new();
        pending.push((root, 0));
        TreeWalk { pending, nodes: Vec::new() }
    }

    /// The directory to list next, if any.
    pub fn next_dir(&self) -> (r: Option<&PathBuf>)
        ensures
            self.pending().len() == 0 ==> r is None,
            self.pending().len() > 0 ==> r == Some(&self.pending().last().0),
    {
        let n = self.pending.len();
        if n == 0 {
            None
        } else {
            Some(&self.pending[n - 1].0)
        }
    }

    /// Depth of the directory to list next, if any.
    pub fn next_depth(&self) -> (r: Option<i32>)
        ensures
            self.pending().len() == 0 ==> r is None,
            self.pending().len() > 0 ==> r == Some(self.pending().last().1),
    {
        let n = self.pending.len();
        if n == 0 {
            None
        } else {
            Some(self.pending[n - 1].1)
        }
    }

    /// Records the directory returned by `next_dir`: its row, with the
    /// given display name and whether it has subdirectories; when it is
    /// expanded, its subdirectories are visited next, in the given order,
    /// one level deeper.
    pub fn visit(&mut self, display_name: String, subdirs: Vec<PathBuf>, expanded: bool)
        requires
            old(self).pending().len() > 0,
            expanded && subdirs@.len() > 0 ==> old(self).pending().last().1 < i32::MAX,
        ensures
            ({
                let (p, d) = old(self).pending().last();
                &&& final(self).nodes() == old(self).nodes().push(
                    FolderNode {
                        path: p,
                        display_name,
                        depth: d,
                        has_children: subdirs@.len() > 0,
                    },
                )
                &&& final(self).pending() == old(self).pending().drop_last() + (if expanded {
                    pushed_children(subdirs@, d + 1)
                } else {
                    Seq::empty()
                })
            }),
    {
        let (path, depth) = self.pending.pop().unwrap();
        let has_children = subdirs.len() > 0;
        self.nodes.push(FolderNode { path, display_name, depth, has_children });
        if expanded {
            let ghost base = self.pending@;
            let ghost rows = self.nodes@;
            let mut subs = subdirs;
            let ghost s = subs@;
            while subs.len() > 0
                invariant
                    s.len() > 0 ==> depth < i32::MAX,
                    subs@.len() <= s.len(),
                    subs@ == s.subrange(0, subs@.len() as int),
                    self.nodes@ == rows,
                    self.pending@ == base + pushed_children(s, depth + 1).subrange(
                        0,
                        s.len() - subs@.len(),
                    ),
                decreases subs.len(),
            {
                let ghost before = self.pending@;
                let ghost old_subs = subs@;
                let c = subs.pop().unwrap();
                self.pending.push((c, depth + 1));
                proof {
                    let m = s.len() - subs@.len();
                    assert(c == old_subs[old_subs.len() - 1]);
                    assert(c == s[s.len() - m]);
                    assert(pushed_children(s, depth + 1).subrange(0, m) =~= pushed_children(
                        s,
                        depth + 1,
                    ).subrange(0, m - 1).push((c, (depth + 1) as i32)));
                }
            }
            proof {
                assert(pushed_children(s, depth + 1).subrange(0, s.len() as int) =~= pushed_children(
                    s,
                    depth + 1,
                ));
            }
        } else {
            proof {
                assert(self.pending@ =~= self.pending@ + Seq::<(PathBuf, i32)>::empty());
            }
        }
    }

    /// The rows produced, once the walk is over.
    pub fn finish(self) -> (r: Vec<FolderNode>)
        ensures
            r@ == self.nodes(),
    {
        self.nodes
    }
}

} // verus!
