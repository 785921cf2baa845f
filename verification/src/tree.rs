//! Recursive, filtered, deterministically-ordered directory-tree
//! construction.
//!
//! The walk itself (reading directories) is the caller's I/O; it hands the
//! raw listing in as a `RawEntry` forest. This module turns that forest into
//! the navigable `Node` tree: hidden entries (leading `.`) are dropped,
//! relative paths are computed against the walked root with forward slashes,
//! recursion is bounded by a maximum depth, and each directory's children are
//! ordered folders-before-files, each group case-insensitively alphabetical
//! and stable.

use vstd::prelude::*;

use vstd::multiset::Multiset;

use crate::error::HibiscusError;
use crate::path_guard::is_sep_char;
use crate::path_guard::path_error_message;
use crate::path_guard::path_ok;
use crate::path_guard::validate_path;
use crate::text::lemma_lex_le_total;
use crate::text::lemma_lex_le_trans;
use crate::text::lex_le;
use crate::text::lower_of;
use crate::text::str_lex_le;
use crate::text::to_lowercase;
use crate::workspace::deep_views;
use crate::workspace::lemma_deep_views_add;
use crate::workspace::lemma_deep_views_pointwise;
use crate::workspace::lemma_deep_views_singleton;
use crate::workspace::lemma_deep_views_subrange;
use crate::workspace::Node;
use crate::workspace::NodeType;
use crate::workspace::NodeView;

verus! {

/// Maximum recursion depth of a tree walk.
pub const MAX_TREE_DEPTH: usize = 20;

/// An entry name is hidden when it begins with the hidden-file marker.
pub open spec fn is_hidden_name(n: Seq<char>) -> bool {
    n.len() > 0 && n[0] == '.'
}

/// The path of an entry relative to the walked root: the parent's relative
/// path extended with a forward slash, or the bare name at the top level.
pub open spec fn rel_path_of(prefix: Seq<char>, name: Seq<char>) -> Seq<char> {
    if prefix.len() == 0 {
        name
    } else {
        prefix + seq!['/'] + name
    }
}

/// Nodes are ordered by their lowercased name.
pub open spec fn sort_key(v: NodeView) -> Seq<char> {
    lower_of(v.name)
}

/// Places `v` after every element of `s` whose key comes no later than
/// `v`'s, keeping the order of everything else: the single step of a stable
/// insertion sort.
pub open spec fn insert_sorted(s: Seq<NodeView>, v: NodeView) -> Seq<NodeView>
    decreases s.len(),
{
    if s.len() == 0 {
        seq![v]
    } else if lex_le(sort_key(s.last()), sort_key(v)) {
        s.push(v)
    } else {
        insert_sorted(s.drop_last(), v).push(s.last())
    }
}

/// Stable insertion sort of nodes by `sort_key`.
pub open spec fn sort_by_name(s: Seq<NodeView>) -> Seq<NodeView>
    decreases s.len(),
{
    if s.len() == 0 {
        Seq::empty()
    } else {
        insert_sorted(sort_by_name(s.drop_last()), s.last())
    }
}

/// A run of nodes is sorted when every earlier key comes no later than
/// every later one.
pub open spec fn sorted_by_key(s: Seq<NodeView>) -> bool {
    forall|i: int, j: int|
        0 <= i < j < s.len() ==> lex_le(sort_key(#[trigger] s[i]), sort_key(#[trigger] s[j]))
}

/// Every key of `s` and the key of `v` staying within a bound, the keys of
/// the insertion stay within it too.
proof fn lemma_insert_sorted_bounded(s: Seq<NodeView>, v: NodeView, bound: Seq<char>)
    requires
        forall|i: int| 0 <= i < s.len() ==> lex_le(sort_key(#[trigger] s[i]), bound),
        lex_le(sort_key(v), bound),
    ensures
        forall|i: int|
            0 <= i < insert_sorted(s, v).len() ==> lex_le(
                sort_key(#[trigger] insert_sorted(s, v)[i]),
                bound,
            ),
    decreases s.len(),
{
    let res = insert_sorted(s, v);
    if s.len() == 0 {
        assert forall|i: int| 0 <= i < res.len() implies lex_le(sort_key(res[i]), bound) by {
            assert(res[i] == v);
        }
    } else if lex_le(sort_key(s.last()), sort_key(v)) {
        assert forall|i: int| 0 <= i < res.len() implies lex_le(sort_key(res[i]), bound) by {
            if i < s.len() {
                assert(res[i] == s[i]);
            } else {
                assert(res[i] == v);
            }
        }
    } else {
        let front = s.drop_last();
        assert forall|i: int| 0 <= i < front.len() implies lex_le(
            sort_key(#[trigger] front[i]),
            bound,
        ) by {
            assert(front[i] == s[i]);
        }
        lemma_insert_sorted_bounded(front, v, bound);
        let inner = insert_sorted(front, v);
        assert forall|i: int| 0 <= i < res.len() implies lex_le(sort_key(res[i]), bound) by {
            if i < inner.len() {
                assert(res[i] == inner[i]);
            } else {
                assert(res[i] == s.last());
                assert(s.last() == s[s.len() - 1]);
            }
        }
    }
}

/// Inserting into a sorted run keeps it sorted and adds exactly the new
/// node.
proof fn lemma_insert_sorted_props(s: Seq<NodeView>, v: NodeView)
    requires
        sorted_by_key(s),
    ensures
        sorted_by_key(insert_sorted(s, v)),
        insert_sorted(s, v).to_multiset() == s.to_multiset().insert(v),
        insert_sorted(s, v).len() == s.len() + 1,
    decreases s.len(),
{
    broadcast use vstd::seq_lib::group_to_multiset_ensures;

    if s.len() == 0 {
        assert(seq![v] =~= Seq::<NodeView>::empty().push(v));
        assert(Seq::<NodeView>::empty().to_multiset() =~= Multiset::<NodeView>::empty());
    } else if lex_le(sort_key(s.last()), sort_key(v)) {
        let res = s.push(v);
        assert forall|i: int, j: int| 0 <= i < j < res.len() implies lex_le(
            sort_key(res[i]),
            sort_key(res[j]),
        ) by {
            if j == s.len() {
                if i < s.len() - 1 {
                    lemma_lex_le_trans(
                        sort_key(s[i]),
                        sort_key(s.last()),
                        sort_key(v),
                    );
                }
            }
        }
    } else {
        let front = s.drop_last();
        let last = s.last();
        lemma_insert_sorted_props(front, v);
        lemma_lex_le_total(sort_key(last), sort_key(v));
        lemma_insert_sorted_bounded(front, v, sort_key(last));
        let inner = insert_sorted(front, v);
        let res = inner.push(last);
        assert forall|i: int, j: int| 0 <= i < j < res.len() implies lex_le(
            sort_key(res[i]),
            sort_key(res[j]),
        ) by {
            if j == inner.len() {
                assert(lex_le(sort_key(inner[i]), sort_key(last)));
            }
        }
        assert(s =~= front.push(last));
        assert(res.to_multiset() =~= s.to_multiset().insert(v));
    }
}

/// The stable sort really sorts: its result is ordered by key and holds
/// exactly the nodes it was given.
pub proof fn lemma_sort_by_name_sorts(s: Seq<NodeView>)
    ensures
        sorted_by_key(sort_by_name(s)),
        sort_by_name(s).to_multiset() == s.to_multiset(),
        sort_by_name(s).len() == s.len(),
    decreases s.len(),
{
    broadcast use vstd::seq_lib::group_to_multiset_ensures;

    if s.len() == 0 {
        assert(Seq::<NodeView>::empty().to_multiset() =~= Multiset::<NodeView>::empty());
    } else {
        lemma_sort_by_name_sorts(s.drop_last());
        lemma_insert_sorted_props(sort_by_name(s.drop_last()), s.last());
        assert(s =~= s.drop_last().push(s.last()));
        assert(sort_by_name(s).to_multiset() =~= s.to_multiset());
    }
}

/// The raw material of a tree walk: one readable, name-decodable directory
/// entry, with its own readable entries when it is a directory. A directory
/// that could not be read is handed in with no entries, so it becomes a
/// folder with an empty children list rather than an error.
pub struct RawEntry {
    pub name: String,
    pub is_dir: bool,
    pub entries: Vec<RawEntry>,
}

/// The node a single raw entry becomes, before ordering.
pub open spec fn entry_node(e: RawEntry, prefix: Seq<char>, depth: nat) -> NodeView
    decreases depth, 0int, 0int,
{
    let rel = rel_path_of(prefix, e.name@);
    NodeView {
        id: rel,
        name: e.name@,
        folder: e.is_dir,
        path: if e.is_dir {
            None
        } else {
            Some(rel)
        },
        children: if e.is_dir {
            Some(
                if depth == 0 {
                    Seq::empty()
                } else {
                    build_nodes(e.entries@, rel, (depth - 1) as nat)
                },
            )
        } else {
            None
        },
        meta_unset: true,
    }
}

/// The nodes of one directory level in entry order, hidden entries dropped,
/// before ordering.
pub open spec fn raw_nodes(entries: Seq<RawEntry>, prefix: Seq<char>, depth: nat) -> Seq<
    NodeView,
>
    decreases depth, entries.len(), 1int,
{
    if entries.len() == 0 {
        Seq::empty()
    } else {
        let rest = raw_nodes(entries.skip(1), prefix, depth);
        if is_hidden_name(entries[0].name@) {
            rest
        } else {
            seq![entry_node(entries[0], prefix, depth)] + rest
        }
    }
}

/// The finished nodes of one directory level: empty at depth zero, else the
/// level's raw nodes partitioned folders-before-files, each partition sorted
/// by `sort_key`.
pub open spec fn build_nodes(entries: Seq<RawEntry>, prefix: Seq<char>, depth: nat) -> Seq<
    NodeView,
>
    decreases depth, entries.len(), 2int,
{
    if depth == 0 {
        Seq::empty()
    } else {
        let raw = raw_nodes(entries, prefix, depth);
        sort_by_name(raw.filter(|v: NodeView| v.folder)) + sort_by_name(
            raw.filter(|v: NodeView| !v.folder),
        )
    }
}

/// Each built level is the level's folders before its files, each group
/// sorted by lowercased name and holding exactly the raw nodes of its kind.
pub proof fn lemma_build_level_ordered(entries: Seq<RawEntry>, prefix: Seq<char>, depth: nat)
    requires
        depth > 0,
    ensures
        build_nodes(entries, prefix, depth) == sort_by_name(
            raw_nodes(entries, prefix, depth).filter(|v: NodeView| v.folder),
        ) + sort_by_name(raw_nodes(entries, prefix, depth).filter(|v: NodeView| !v.folder)),
        sorted_by_key(
            sort_by_name(raw_nodes(entries, prefix, depth).filter(|v: NodeView| v.folder)),
        ),
        sorted_by_key(
            sort_by_name(raw_nodes(entries, prefix, depth).filter(|v: NodeView| !v.folder)),
        ),
        sort_by_name(raw_nodes(entries, prefix, depth).filter(|v: NodeView| v.folder))
            .to_multiset() == raw_nodes(entries, prefix, depth).filter(
            |v: NodeView| v.folder,
        ).to_multiset(),
        sort_by_name(raw_nodes(entries, prefix, depth).filter(|v: NodeView| !v.folder))
            .to_multiset() == raw_nodes(entries, prefix, depth).filter(
            |v: NodeView| !v.folder,
        ).to_multiset(),
{
    let raw = raw_nodes(entries, prefix, depth);
    lemma_sort_by_name_sorts(raw.filter(|v: NodeView| v.folder));
    lemma_sort_by_name_sorts(raw.filter(|v: NodeView| !v.folder));
}

/// Appending an entry to a level extends its raw nodes by that entry's node,
/// or by nothing when the entry is hidden.
pub proof fn lemma_raw_nodes_push(
    entries: Seq<RawEntry>,
    e: RawEntry,
    prefix: Seq<char>,
    depth: nat,
)
    ensures
        raw_nodes(entries.push(e), prefix, depth) == raw_nodes(entries, prefix, depth) + (
        if is_hidden_name(e.name@) {
            Seq::<NodeView>::empty()
        } else {
            seq![entry_node(e, prefix, depth)]
        }),
    decreases entries.len(),
{
    let whole = entries.push(e);
    let delta = if is_hidden_name(e.name@) {
        Seq::<NodeView>::empty()
    } else {
        seq![entry_node(e, prefix, depth)]
    };
    if entries.len() == 0 {
        assert(whole[0] == e);
        assert(whole.skip(1) =~= entries);
        assert(raw_nodes(entries, prefix, depth) == Seq::<NodeView>::empty());
        assert(raw_nodes(whole, prefix, depth) =~= raw_nodes(entries, prefix, depth) + delta);
    } else {
        assert(whole[0] == entries[0]);
        assert(whole.skip(1) =~= entries.skip(1).push(e));
        lemma_raw_nodes_push(entries.skip(1), e, prefix, depth);
        assert(raw_nodes(whole, prefix, depth) =~= raw_nodes(entries, prefix, depth) + delta);
    }
}

/// When every element from position `j` on has a key strictly after `v`'s,
/// and the element just before `j` (if any) has a key no later, the stable
/// insertion of `v` lands exactly at position `j`.
pub proof fn lemma_insert_sorted_at(s: Seq<NodeView>, v: NodeView, j: int)
    requires
        0 <= j <= s.len(),
        forall|t: int| j <= t < s.len() ==> !lex_le(sort_key(#[trigger] s[t]), sort_key(v)),
        j > 0 ==> lex_le(sort_key(s[j - 1]), sort_key(v)),
    ensures
        insert_sorted(s, v) == s.subrange(0, j) + seq![v] + s.subrange(j, s.len() as int),
    decreases s.len() - j,
{
    if j == s.len() {
        if s.len() == 0 {
            assert(s.subrange(0, 0) + seq![v] + s.subrange(0, 0) =~= seq![v]);
        } else {
            assert(lex_le(sort_key(s[j - 1]), sort_key(v)));
            assert(s[j - 1] == s.last());
            assert(insert_sorted(s, v) == s.push(v));
            assert(s.subrange(0, j) + seq![v] + s.subrange(j, s.len() as int) =~= s.push(v));
        }
    } else {
        assert(!lex_le(sort_key(s[s.len() - 1]), sort_key(v)));
        let front = s.drop_last();
        assert(insert_sorted(s, v) == insert_sorted(front, v).push(s.last()));
        assert(forall|t: int|
            j <= t < front.len() ==> !lex_le(sort_key(#[trigger] front[t]), sort_key(v)));
        if j > 0 {
            assert(front[j - 1] == s[j - 1]);
        }
        lemma_insert_sorted_at(front, v, j);
        assert(front.subrange(0, j) =~= s.subrange(0, j));
        assert(front.subrange(j, front.len() as int) =~= s.subrange(j, s.len() - 1));
        assert(insert_sorted(s, v) =~= s.subrange(0, j) + seq![v] + s.subrange(
            j,
            s.len() as int,
        ));
    }
}

/// Sorts nodes stably by their lowercased name.
fn sort_nodes(v: Vec<Node>) -> (r: Vec<Node>)
    ensures
        deep_views(r@) == sort_by_name(deep_views(v@)),
{
    let ghost orig = v@;
    let mut v = v;
    let mut out: Vec<Node> = Vec::new();
    proof {
        assert(orig.subrange(0, 0) =~= Seq::<Node>::empty());
        assert(deep_views(out@) == sort_by_name(deep_views(orig.subrange(0, 0))));
    }
    while v.len() > 0
        invariant
            v@.len() <= orig.len(),
            v@ == orig.subrange(orig.len() - v@.len(), orig.len() as int),
            deep_views(out@) == sort_by_name(
                deep_views(orig.subrange(0, orig.len() - v@.len())),
            ),
        decreases v@.len(),
    {
        let ghost k = orig.len() - v@.len();
        let ghost done = orig.subrange(0, k as int);
        let x = v.remove(0);
        proof {
            assert(x == orig[k as int]);
            assert(v@ =~= orig.subrange(k + 1, orig.len() as int));
        }
        let key_x = to_lowercase(x.name.as_str());
        proof {
            assert(x.deep_view().name == x.name@);
        }
        let mut j = out.len();
        let mut scanning = true;
        proof {
            lemma_deep_views_pointwise(out@);
        }
        while j > 0 && scanning
            invariant
                j <= out@.len(),
                key_x@ == lower_of(x.deep_view().name),
                deep_views(out@).len() == out@.len(),
                forall|t: int|
                    j <= t < out@.len() ==> !lex_le(
                        sort_key(#[trigger] deep_views(out@)[t]),
                        sort_key(x.deep_view()),
                    ),
                !scanning ==> j > 0 && lex_le(
                    sort_key(deep_views(out@)[j - 1]),
                    sort_key(x.deep_view()),
                ),
            decreases 2 * j + (if scanning {
                1int
            } else {
                0int
            }),
        {
            let prev_key = to_lowercase(out[j - 1].name.as_str());
            proof {
                lemma_deep_views_pointwise(out@);
                assert(deep_views(out@)[j - 1].name == out@[j - 1].name@);
            }
            if str_lex_le(prev_key.as_str(), key_x.as_str()) {
                scanning = false;
            } else {
                j = j - 1;
            }
        }
        let ghost out_old = out@;
        proof {
            lemma_deep_views_pointwise(out_old);
            lemma_insert_sorted_at(deep_views(out_old), x.deep_view(), j as int);
        }
        out.insert(j, x);
        proof {
            assert(out@ =~= out_old.subrange(0, j as int) + (seq![x] + out_old.subrange(
                j as int,
                out_old.len() as int,
            )));
            lemma_deep_views_add(
                out_old.subrange(0, j as int),
                seq![x] + out_old.subrange(j as int, out_old.len() as int),
            );
            lemma_deep_views_add(
                seq![x],
                out_old.subrange(j as int, out_old.len() as int),
            );
            lemma_deep_views_singleton(x);
            lemma_deep_views_subrange(out_old, 0, j as int);
            lemma_deep_views_subrange(out_old, j as int, out_old.len() as int);
            assert(deep_views(out@) =~= insert_sorted(deep_views(out_old), x.deep_view()));
            // one more processed element extends the sorted prefix by one
            assert(orig.subrange(0, k + 1) =~= done.push(orig[k as int]));
            lemma_deep_views_add(done, seq![orig[k as int]]);
            lemma_deep_views_singleton(orig[k as int]);
            assert(done.push(orig[k as int]) =~= done + seq![orig[k as int]]);
            let q = deep_views(done);
            assert(deep_views(orig.subrange(0, k + 1)) =~= q.push(orig[k as int].deep_view()));
            assert(q.push(x.deep_view()).drop_last() =~= q);
            assert(sort_by_name(q.push(x.deep_view())) == insert_sorted(
                sort_by_name(q),
                x.deep_view(),
            ));
        }
    }
    proof {
        assert(orig.subrange(0, orig.len() as int) =~= orig);
    }
    out
}

/// How many levels a node spans: itself, plus its deepest child.
pub open spec fn node_depth(v: NodeView) -> nat
    decreases v,
{
    match v.children {
        None => 1,
        Some(cs) => 1 + forest_depth(cs),
    }
}

/// How many levels a forest spans: the deepest of its nodes.
pub open spec fn forest_depth(s: Seq<NodeView>) -> nat
    decreases s,
{
    if s.len() == 0 {
        0
    } else if node_depth(s[0]) >= forest_depth(s.skip(1)) {
        node_depth(s[0])
    } else {
        forest_depth(s.skip(1))
    }
}

/// A forest stays within a bound exactly when each of its nodes does.
proof fn lemma_forest_depth_bound(s: Seq<NodeView>, d: nat)
    ensures
        forest_depth(s) <= d <==> (forall|i: int|
            0 <= i < s.len() ==> node_depth(#[trigger] s[i]) <= d),
    decreases s.len(),
{
    if s.len() > 0 {
        lemma_forest_depth_bound(s.skip(1), d);
        if forall|i: int| 0 <= i < s.len() ==> node_depth(#[trigger] s[i]) <= d {
            assert forall|i: int|
                0 <= i < s.skip(1).len() implies node_depth(#[trigger] s.skip(1)[i]) <= d by {
                assert(s.skip(1)[i] == s[i + 1]);
            }
        }
        if forest_depth(s) <= d {
            assert forall|i: int| 0 <= i < s.len() implies node_depth(#[trigger] s[i]) <= d by {
                if i > 0 {
                    assert(s[i] == s.skip(1)[i - 1]);
                }
            }
        }
    }
}

/// Sorting never changes how deep a forest spans beyond its bound: every
/// node of the sorted run is a node of the original.
proof fn lemma_sort_depth_bound(s: Seq<NodeView>, d: nat)
    requires
        forest_depth(s) <= d,
    ensures
        forest_depth(sort_by_name(s)) <= d,
{
    broadcast use vstd::seq_lib::group_to_multiset_ensures;

    lemma_sort_by_name_sorts(s);
    lemma_forest_depth_bound(s, d);
    lemma_forest_depth_bound(sort_by_name(s), d);
    assert forall|i: int|
        0 <= i < sort_by_name(s).len() implies node_depth(#[trigger] sort_by_name(s)[i])
        <= d by {
        let v = sort_by_name(s)[i];
        assert(sort_by_name(s).contains(v));
        assert(sort_by_name(s).to_multiset().count(v) > 0);
        assert(s.to_multiset().count(v) > 0);
        assert(s.contains(v));
        let k = choose|k: int| 0 <= k < s.len() && s[k] == v;
        assert(node_depth(s[k]) <= d);
    }
}

/// A forest stays bounded under concatenation of bounded parts.
proof fn lemma_forest_depth_add(a: Seq<NodeView>, b: Seq<NodeView>, d: nat)
    requires
        forest_depth(a) <= d,
        forest_depth(b) <= d,
    ensures
        forest_depth(a + b) <= d,
{
    lemma_forest_depth_bound(a, d);
    lemma_forest_depth_bound(b, d);
    lemma_forest_depth_bound(a + b, d);
    assert forall|i: int| 0 <= i < (a + b).len() implies node_depth(#[trigger] (a + b)[i]) <= d by {
        if i < a.len() {
            assert((a + b)[i] == a[i]);
        } else {
            assert((a + b)[i] == b[i - a.len()]);
        }
    }
}

/// Everything a filter keeps was already there.
proof fn lemma_filter_subset(s: Seq<NodeView>, pred: spec_fn(NodeView) -> bool)
    ensures
        forall|i: int|
            0 <= i < s.filter(pred).len() ==> s.contains(#[trigger] s.filter(pred)[i]),
    decreases s.len(),
{
    reveal(Seq::filter);
    if s.len() > 0 {
        let front = s.drop_last();
        lemma_filter_subset(front, pred);
        assert forall|i: int|
            0 <= i < s.filter(pred).len() implies s.contains(#[trigger] s.filter(pred)[i]) by {
            let f = s.filter(pred);
            if pred(s.last()) && i == f.len() - 1 {
                assert(s[s.len() - 1] == f[i]);
            } else {
                assert(f[i] == front.filter(pred)[i]);
                assert(front.contains(f[i]));
                let k = choose|k: int| 0 <= k < front.len() && front[k] == f[i];
                assert(s[k] == f[i]);
            }
        }
    }
}

/// A built tree never spans more levels than the depth it was built with:
/// the recursion floor caps the whole walk.
pub proof fn lemma_build_depth_bounded(entries: Seq<RawEntry>, prefix: Seq<char>, depth: nat)
    ensures
        forest_depth(build_nodes(entries, prefix, depth)) <= depth,
    decreases depth, entries.len(), 2int,
{
    if depth > 0 {
        let raw = raw_nodes(entries, prefix, depth);
        lemma_raw_depth_bounded(entries, prefix, depth);
        lemma_forest_depth_bound(raw, depth);
        let folders = raw.filter(|v: NodeView| v.folder);
        let files = raw.filter(|v: NodeView| !v.folder);
        lemma_forest_depth_bound(folders, depth);
        lemma_forest_depth_bound(files, depth);
        lemma_filter_subset(raw, |v: NodeView| v.folder);
        lemma_filter_subset(raw, |v: NodeView| !v.folder);
        assert forall|i: int|
            0 <= i < folders.len() implies node_depth(#[trigger] folders[i]) <= depth by {
            let v = folders[i];
            assert(raw.contains(v));
            let k = choose|k: int| 0 <= k < raw.len() && raw[k] == v;
            assert(node_depth(raw[k]) <= depth);
        }
        assert forall|i: int|
            0 <= i < files.len() implies node_depth(#[trigger] files[i]) <= depth by {
            let v = files[i];
            assert(raw.contains(v));
            let k = choose|k: int| 0 <= k < raw.len() && raw[k] == v;
            assert(node_depth(raw[k]) <= depth);
        }
        lemma_sort_depth_bound(folders, depth);
        lemma_sort_depth_bound(files, depth);
        lemma_forest_depth_add(sort_by_name(folders), sort_by_name(files), depth);
    }
}

/// Each raw node of a level spans at most the level's depth.
proof fn lemma_raw_depth_bounded(entries: Seq<RawEntry>, prefix: Seq<char>, depth: nat)
    requires
        depth > 0,
    ensures
        forest_depth(raw_nodes(entries, prefix, depth)) <= depth,
    decreases depth, entries.len(), 1int,
{
    let raw = raw_nodes(entries, prefix, depth);
    if entries.len() > 0 {
        lemma_raw_depth_bounded(entries.skip(1), prefix, depth);
        let rest = raw_nodes(entries.skip(1), prefix, depth);
        lemma_forest_depth_bound(rest, depth);
        if !is_hidden_name(entries[0].name@) {
            let nv = entry_node(entries[0], prefix, depth);
            if entries[0].is_dir {
                lemma_build_depth_bounded(
                    entries[0].entries@,
                    rel_path_of(prefix, entries[0].name@),
                    (depth - 1) as nat,
                );
            }
            assert(node_depth(nv) <= depth);
            lemma_forest_depth_bound(raw, depth);
            assert forall|i: int|
                0 <= i < raw.len() implies node_depth(#[trigger] raw[i]) <= depth by {
                if i == 0 {
                    assert(raw[0] == nv);
                } else {
                    assert(raw[i] == rest[i - 1]);
                }
            }
        }
    }
}

/// A level's entries carry pairwise distinct names, as a directory
/// listing's do.
pub open spec fn distinct_entry_names(entries: Seq<RawEntry>) -> bool {
    forall|i: int, j: int|
        0 <= i < j < entries.len() ==> (#[trigger] entries[i]).name@ != (
        #[trigger] entries[j]).name@
}

/// A run of nodes carries pairwise distinct names.
pub open spec fn distinct_node_names(s: Seq<NodeView>) -> bool {
    forall|i: int, j: int|
        0 <= i < j < s.len() ==> (#[trigger] s[i]).name != (#[trigger] s[j]).name
}

/// Some node of the run carries this name.
pub open spec fn has_name(s: Seq<NodeView>, n: Seq<char>) -> bool {
    exists|k: int| 0 <= k < s.len() && (#[trigger] s[k]).name == n
}

/// Distinct names give distinct relative paths under one prefix.
proof fn lemma_rel_path_injective(prefix: Seq<char>, a: Seq<char>, b: Seq<char>)
    requires
        rel_path_of(prefix, a) == rel_path_of(prefix, b),
    ensures
        a == b,
{
    if prefix.len() > 0 {
        let ra = rel_path_of(prefix, a);
        let rb = rel_path_of(prefix, b);
        assert(ra.len() == prefix.len() + 1 + a.len());
        assert(rb.len() == prefix.len() + 1 + b.len());
        assert forall|k: int| 0 <= k < a.len() implies a[k] == b[k] by {
            assert(ra[prefix.len() + 1 + k] == a[k]);
            assert(rb[prefix.len() + 1 + k] == b[k]);
        }
        assert(a =~= b);
    }
}

/// Insertion neither loses, gains nor doubles a name.
proof fn lemma_insert_sorted_names(s: Seq<NodeView>, v: NodeView)
    requires
        distinct_node_names(s),
        !has_name(s, v.name),
    ensures
        distinct_node_names(insert_sorted(s, v)),
        forall|n: Seq<char>|
            #[trigger] has_name(insert_sorted(s, v), n) <==> (has_name(s, n) || n == v.name),
    decreases s.len(),
{
    let res = insert_sorted(s, v);
    if s.len() == 0 {
        assert forall|n: Seq<char>| #[trigger]
            has_name(res, n) <==> (has_name(s, n) || n == v.name) by {
            assert(res[0] == v);
            if has_name(s, n) {
                let k = choose|k: int| 0 <= k < s.len() && s[k].name == n;
            }
        }
    } else if lex_le(sort_key(s.last()), sort_key(v)) {
        assert forall|i: int, j: int|
            0 <= i < j < res.len() implies (#[trigger] res[i]).name != (
        #[trigger] res[j]).name by {
            if j == s.len() {
                assert(res[i] == s[i]);
                assert(res[j] == v);
                assert(s[i].name != v.name) by {
                    if s[i].name == v.name {
                        assert(has_name(s, v.name));
                    }
                }
            } else {
                assert(res[i] == s[i]);
                assert(res[j] == s[j]);
            }
        }
        assert forall|n: Seq<char>| #[trigger]
            has_name(res, n) <==> (has_name(s, n) || n == v.name) by {
            if has_name(res, n) {
                let k = choose|k: int| 0 <= k < res.len() && res[k].name == n;
                if k < s.len() {
                    assert(res[k] == s[k]);
                } else {
                    assert(res[k] == v);
                }
            }
            if has_name(s, n) {
                let k = choose|k: int| 0 <= k < s.len() && s[k].name == n;
                assert(res[k] == s[k]);
            }
            if n == v.name {
                assert(res[s.len() as int] == v);
            }
        }
    } else {
        let front = s.drop_last();
        let last = s.last();
        assert forall|i: int, j: int|
            0 <= i < j < front.len() implies (#[trigger] front[i]).name != (
        #[trigger] front[j]).name by {
            assert(front[i] == s[i]);
            assert(front[j] == s[j]);
        }
        assert(!has_name(front, v.name)) by {
            if has_name(front, v.name) {
                let k = choose|k: int| 0 <= k < front.len() && front[k].name == v.name;
                assert(s[k].name == v.name);
                assert(has_name(s, v.name));
            }
        }
        lemma_insert_sorted_names(front, v);
        let inner = insert_sorted(front, v);
        assert forall|i: int, j: int|
            0 <= i < j < res.len() implies (#[trigger] res[i]).name != (
        #[trigger] res[j]).name by {
            if j < inner.len() {
                assert(res[i] == inner[i]);
                assert(res[j] == inner[j]);
            } else {
                assert(res[i] == inner[i]);
                assert(res[j] == last);
                assert(has_name(inner, inner[i].name));
                if inner[i].name == last.name {
                    if has_name(front, last.name) {
                        let k = choose|k: int|
                            0 <= k < front.len() && front[k].name == last.name;
                        assert(s[k].name == s[s.len() - 1].name);
                    } else {
                        assert(inner[i].name == v.name);
                        assert(has_name(s, v.name)) by {
                            assert(s[s.len() - 1].name == v.name);
                        }
                    }
                }
            }
        }
        assert forall|n: Seq<char>| #[trigger]
            has_name(res, n) <==> (has_name(s, n) || n == v.name) by {
            if has_name(res, n) {
                let k = choose|k: int| 0 <= k < res.len() && res[k].name == n;
                if k < inner.len() {
                    assert(has_name(inner, n));
                    if has_name(front, n) {
                        let t = choose|t: int| 0 <= t < front.len() && front[t].name == n;
                        assert(s[t].name == n);
                    }
                } else {
                    assert(res[k] == last);
                    assert(s[s.len() - 1].name == n);
                }
            }
            if has_name(s, n) {
                let k = choose|k: int| 0 <= k < s.len() && s[k].name == n;
                if k < s.len() - 1 {
                    assert(front[k].name == n);
                    assert(has_name(front, n));
                    assert(has_name(inner, n));
                    let t = choose|t: int| 0 <= t < inner.len() && inner[t].name == n;
                    assert(res[t] == inner[t]);
                } else {
                    assert(res[res.len() - 1] == last);
                }
            }
            if n == v.name {
                assert(has_name(inner, n));
                let t = choose|t: int| 0 <= t < inner.len() && inner[t].name == n;
                assert(res[t] == inner[t]);
            }
        }
    }
}

/// Sorting neither loses, gains nor doubles a name.
proof fn lemma_sort_by_name_names(s: Seq<NodeView>)
    requires
        distinct_node_names(s),
    ensures
        distinct_node_names(sort_by_name(s)),
        forall|n: Seq<char>| #[trigger] has_name(sort_by_name(s), n) <==> has_name(s, n),
    decreases s.len(),
{
    if s.len() == 0 {
        assert forall|n: Seq<char>| #[trigger]
            has_name(sort_by_name(s), n) <==> has_name(s, n) by {
            if has_name(s, n) {
                let k = choose|k: int| 0 <= k < s.len() && s[k].name == n;
            }
            if has_name(sort_by_name(s), n) {
                let k = choose|k: int|
                    0 <= k < sort_by_name(s).len() && sort_by_name(s)[k].name == n;
            }
        }
    } else {
        let front = s.drop_last();
        let last = s.last();
        assert forall|i: int, j: int|
            0 <= i < j < front.len() implies (#[trigger] front[i]).name != (
        #[trigger] front[j]).name by {
            assert(front[i] == s[i]);
            assert(front[j] == s[j]);
        }
        lemma_sort_by_name_names(front);
        assert(!has_name(sort_by_name(front), last.name)) by {
            if has_name(sort_by_name(front), last.name) {
                assert(has_name(front, last.name));
                let k = choose|k: int| 0 <= k < front.len() && front[k].name == last.name;
                assert(s[k].name == s[s.len() - 1].name);
            }
        }
        lemma_insert_sorted_names(sort_by_name(front), last);
        assert forall|n: Seq<char>| #[trigger]
            has_name(sort_by_name(s), n) <==> has_name(s, n) by {
            assert(has_name(sort_by_name(s), n) <==> (has_name(sort_by_name(front), n) || n
                == last.name));
            if has_name(front, n) {
                let k = choose|k: int| 0 <= k < front.len() && front[k].name == n;
                assert(s[k].name == n);
                assert(has_name(s, n));
            }
            if n == last.name {
                assert(s[s.len() - 1].name == n);
                assert(has_name(s, n));
            }
            if has_name(s, n) {
                let k = choose|k: int| 0 <= k < s.len() && s[k].name == n;
                if k < s.len() - 1 {
                    assert(front[k].name == n);
                    assert(has_name(front, n));
                }
            }
        }
    }
}

/// Filtering neither gains nor doubles a name, and keeps only nodes that
/// pass.
proof fn lemma_filter_names(s: Seq<NodeView>, pred: spec_fn(NodeView) -> bool)
    requires
        distinct_node_names(s),
    ensures
        distinct_node_names(s.filter(pred)),
        forall|n: Seq<char>|
            #[trigger] has_name(s.filter(pred), n) ==> exists|k: int|
                0 <= k < s.len() && (#[trigger] s[k]).name == n && pred(s[k]),
{
    lemma_filter_subset(s, pred);
    let f = s.filter(pred);
    assert forall|i: int, j: int|
        0 <= i < j < f.len() implies (#[trigger] f[i]).name != (#[trigger] f[j]).name by {
        lemma_filter_distinct_pair(s, pred, i, j);
    }
    assert forall|n: Seq<char>| #[trigger]
        has_name(f, n) implies exists|k: int|
        0 <= k < s.len() && (#[trigger] s[k]).name == n && pred(s[k]) by {
        let t = choose|t: int| 0 <= t < f.len() && f[t].name == n;
        s.lemma_filter_pred(pred, t);
        assert(s.contains(f[t]));
        let k = choose|k: int| 0 <= k < s.len() && s[k] == f[t];
        assert(s[k].name == n && pred(s[k]));
    }
}

/// Two distinct positions of a filtered run come from two distinct
/// positions of the original, so their names differ when the original's do.
proof fn lemma_filter_distinct_pair(s: Seq<NodeView>, pred: spec_fn(NodeView) -> bool, i: int, j: int)
    requires
        distinct_node_names(s),
        0 <= i < j < s.filter(pred).len(),
    ensures
        s.filter(pred)[i].name != s.filter(pred)[j].name,
    decreases s.len(),
{
    reveal(Seq::filter);
    let f = s.filter(pred);
    let front = s.drop_last();
    assert(s.len() > 0);
    assert forall|a: int, b: int|
        0 <= a < b < front.len() implies (#[trigger] front[a]).name != (
    #[trigger] front[b]).name by {
        assert(front[a] == s[a]);
        assert(front[b] == s[b]);
    }
    if pred(s.last()) && j == f.len() - 1 {
        assert(f[j] == s.last());
        assert(f[i] == front.filter(pred)[i]);
        lemma_filter_subset(front, pred);
        assert(front.contains(f[i]));
        let k = choose|k: int| 0 <= k < front.len() && front[k] == f[i];
        assert(s[k] == f[i]);
        assert(s[k].name != s[s.len() - 1].name);
    } else {
        assert(f[i] == front.filter(pred)[i]);
        assert(f[j] == front.filter(pred)[j]);
        lemma_filter_distinct_pair(front, pred, i, j);
    }
}

/// Every raw node's id is its name made relative, its name is one of the
/// level's entry names, and distinct entry names give distinct raw names.
proof fn lemma_raw_nodes_names(entries: Seq<RawEntry>, prefix: Seq<char>, depth: nat)
    ensures
        forall|k: int|
            0 <= k < raw_nodes(entries, prefix, depth).len() ==> (#[trigger] raw_nodes(
                entries,
                prefix,
                depth,
            )[k]).id == rel_path_of(prefix, raw_nodes(entries, prefix, depth)[k].name),
        forall|n: Seq<char>|
            #[trigger] has_name(raw_nodes(entries, prefix, depth), n) ==> exists|j: int|
                0 <= j < entries.len() && (#[trigger] entries[j]).name@ == n,
        distinct_entry_names(entries) ==> distinct_node_names(
            raw_nodes(entries, prefix, depth),
        ),
    decreases entries.len(),
{
    let raw = raw_nodes(entries, prefix, depth);
    if entries.len() > 0 {
        let rest_entries = entries.skip(1);
        lemma_raw_nodes_names(rest_entries, prefix, depth);
        let rest = raw_nodes(rest_entries, prefix, depth);
        let hidden = is_hidden_name(entries[0].name@);
        let nv = entry_node(entries[0], prefix, depth);
        let off: int = if hidden { 0 } else { 1 };
        assert(nv.name == entries[0].name@);
        assert(nv.id == rel_path_of(prefix, nv.name));
        if hidden {
            assert(raw == rest);
        } else {
            assert(raw == seq![nv] + rest);
            assert(raw[0] == nv);
        }
        assert forall|k: int| 0 <= k < raw.len() && (!hidden ==> k > 0) implies #[trigger] raw[k]
            == rest[k - off] by {}
        assert forall|n: Seq<char>| #[trigger]
            has_name(raw, n) implies exists|j: int|
            0 <= j < entries.len() && (#[trigger] entries[j]).name@ == n by {
            let k = choose|k: int| 0 <= k < raw.len() && raw[k].name == n;
            if !hidden && k == 0 {
                assert(entries[0].name@ == n);
            } else {
                assert(raw[k] == rest[k - off]);
                assert(has_name(rest, n));
                let j = choose|j: int|
                    0 <= j < rest_entries.len() && (#[trigger] rest_entries[j]).name@ == n;
                assert(entries[j + 1].name@ == n);
            }
        }
        if distinct_entry_names(entries) {
            assert forall|i: int, j: int|
                0 <= i < j < rest_entries.len() implies (#[trigger] rest_entries[i]).name@ != (
            #[trigger] rest_entries[j]).name@ by {
                assert(rest_entries[i] == entries[i + 1]);
                assert(rest_entries[j] == entries[j + 1]);
            }
            assert forall|i: int, j: int|
                0 <= i < j < raw.len() implies (#[trigger] raw[i]).name != (
            #[trigger] raw[j]).name by {
                if !hidden && i == 0 {
                    assert(raw[0].name == entries[0].name@);
                    assert(raw[j] == rest[j - 1]);
                    assert(has_name(rest, raw[j].name));
                    if raw[j].name == entries[0].name@ {
                        let t = choose|t: int|
                            0 <= t < rest_entries.len() && (#[trigger] rest_entries[t]).name@
                                == raw[j].name;
                        assert(entries[t + 1].name@ == entries[0].name@);
                    }
                } else {
                    assert(raw[i] == rest[i - off]);
                    assert(raw[j] == rest[j - off]);
                }
            }
        }
    }
}

/// Within one built level the node ids are pairwise distinct, provided the
/// level's entry names are, as a directory listing's always are.
pub proof fn lemma_level_ids_distinct(entries: Seq<RawEntry>, prefix: Seq<char>, depth: nat)
    requires
        distinct_entry_names(entries),
        depth > 0,
    ensures
        forall|i: int, j: int|
            0 <= i < j < build_nodes(entries, prefix, depth).len() ==> (#[trigger] build_nodes(
                entries,
                prefix,
                depth,
            )[i]).id != (#[trigger] build_nodes(entries, prefix, depth)[j]).id,
{
    let raw = raw_nodes(entries, prefix, depth);
    let b = build_nodes(entries, prefix, depth);
    let pf = |v: NodeView| v.folder;
    let pg = |v: NodeView| !v.folder;
    let folders = sort_by_name(raw.filter(pf));
    let files = sort_by_name(raw.filter(pg));
    lemma_raw_nodes_names(entries, prefix, depth);
    lemma_filter_names(raw, pf);
    lemma_filter_names(raw, pg);
    lemma_sort_by_name_names(raw.filter(pf));
    lemma_sort_by_name_names(raw.filter(pg));
    // every node of the level keeps its id equal to its name made relative
    lemma_filter_subset(raw, pf);
    lemma_filter_subset(raw, pg);
    broadcast use vstd::seq_lib::group_to_multiset_ensures;

    lemma_sort_by_name_sorts(raw.filter(pf));
    lemma_sort_by_name_sorts(raw.filter(pg));
    assert forall|k: int|
        0 <= k < folders.len() implies (#[trigger] folders[k]).id == rel_path_of(
        prefix,
        folders[k].name,
    ) && folders[k].folder by {
        lemma_level_node_origin(raw, pf, folders, k);
        let t = choose|t: int| 0 <= t < raw.len() && raw[t] == folders[k] && pf(raw[t]);
    }
    assert forall|k: int|
        0 <= k < files.len() implies (#[trigger] files[k]).id == rel_path_of(
        prefix,
        files[k].name,
    ) && !files[k].folder by {
        lemma_level_node_origin(raw, pg, files, k);
        let t = choose|t: int| 0 <= t < raw.len() && raw[t] == files[k] && pg(raw[t]);
    }
    assert forall|i: int, j: int|
        0 <= i < j < b.len() implies (#[trigger] b[i]).id != (#[trigger] b[j]).id by {
        if j < folders.len() {
            assert(b[i] == folders[i] && b[j] == folders[j]);
            assert(folders[i].name != folders[j].name);
            lemma_rel_path_injective_contra(prefix, folders[i].name, folders[j].name);
        } else if i >= folders.len() {
            assert(b[i] == files[i - folders.len()] && b[j] == files[j - folders.len()]);
            assert(files[i - folders.len()].name != files[j - folders.len()].name);
            lemma_rel_path_injective_contra(
                prefix,
                files[i - folders.len()].name,
                files[j - folders.len()].name,
            );
        } else {
            assert(b[i] == folders[i] && b[j] == files[j - folders.len()]);
            let u = folders[i];
            let w = files[j - folders.len()];
            assert(u.name != w.name) by {
                if u.name == w.name {
                    assert(has_name(folders, u.name));
                    assert(has_name(files, u.name));
                    assert(has_name(raw.filter(pf), u.name));
                    assert(has_name(raw.filter(pg), u.name));
                    let k1 = choose|k1: int|
                        0 <= k1 < raw.len() && (#[trigger] raw[k1]).name == u.name && pf(raw[k1]);
                    let k2 = choose|k2: int|
                        0 <= k2 < raw.len() && (#[trigger] raw[k2]).name == u.name && pg(raw[k2]);
                    assert(k1 != k2);
                }
            }
            lemma_rel_path_injective_contra(prefix, u.name, w.name);
        }
    }
}

/// A name is free of separators, as every directory-entry name is.
pub open spec fn sep_free(n: Seq<char>) -> bool {
    forall|k: int| 0 <= k < n.len() ==> !is_sep_char(#[trigger] n[k])
}

/// A walk's raw listing is well formed, as a real directory listing is:
/// within each directory the entry names are distinct, nonempty and free of
/// separators, recursively.
pub open spec fn wf_entries(entries: Seq<RawEntry>) -> bool
    decreases entries,
{
    &&& distinct_entry_names(entries)
    &&& forall|i: int|
        0 <= i < entries.len() ==> (#[trigger] entries[i]).name@.len() > 0 && sep_free(
            entries[i].name@,
        )
    &&& forall|i: int| 0 <= i < entries.len() ==> wf_entries((#[trigger] entries[i]).entries@)
}

/// Every id of a forest: each node's id followed by all ids of its subtree,
/// in order.
pub open spec fn all_ids(s: Seq<NodeView>) -> Seq<Seq<char>>
    decreases s,
{
    if s.len() == 0 {
        Seq::empty()
    } else {
        seq![s[0].id] + (match s[0].children {
            Some(cs) => all_ids(cs),
            None => Seq::<Seq<char>>::empty(),
        }) + all_ids(s.skip(1))
    }
}

/// A run of ids holds no duplicates.
pub open spec fn distinct_seqs(ids: Seq<Seq<char>>) -> bool {
    forall|i: int, j: int| 0 <= i < j < ids.len() ==> ids[i] != ids[j]
}

/// `id` is `base` itself or continues it past a slash boundary.
pub open spec fn extends_at_boundary(id: Seq<char>, base: Seq<char>) -> bool {
    ||| id == base
    ||| (id.len() > base.len() && id.subrange(0, base.len() as int) == base && id[base.len() as int]
        == '/')
}

/// An id that extends a base agrees with it character for character.
proof fn lemma_ext_pointwise(id: Seq<char>, base: Seq<char>)
    requires
        extends_at_boundary(id, base),
    ensures
        id.len() >= base.len(),
        forall|k: int| 0 <= k < base.len() ==> id[k] == base[k],
{
    if id != base {
        assert forall|k: int| 0 <= k < base.len() implies id[k] == base[k] by {
            assert(id.subrange(0, base.len() as int)[k] == id[k]);
        }
    }
}

/// The asymmetric half of the rooted-ids argument, with the shorter name
/// first.
proof fn lemma_rooted_ids_differ_core(
    prefix: Seq<char>,
    n1: Seq<char>,
    n2: Seq<char>,
    id1: Seq<char>,
    id2: Seq<char>,
)
    requires
        sep_free(n2),
        n1 != n2,
        n1.len() <= n2.len(),
        extends_at_boundary(id1, rel_path_of(prefix, n1)),
        extends_at_boundary(id2, rel_path_of(prefix, n2)),
    ensures
        id1 != id2,
{
    if id1 == id2 {
        let b1 = rel_path_of(prefix, n1);
        let b2 = rel_path_of(prefix, n2);
        let q: int = if prefix.len() == 0 {
            0
        } else {
            prefix.len() as int + 1
        };
        assert(b1.len() == q + n1.len());
        assert(b2.len() == q + n2.len());
        lemma_ext_pointwise(id1, b1);
        lemma_ext_pointwise(id2, b2);
        assert forall|k: int| 0 <= k < n1.len() implies n1[k] == n2[k] by {
            assert(b1[q + k] == n1[k]);
            assert(b2[q + k] == n2[k]);
            assert(id1[q + k] == b1[q + k]);
            assert(id2[q + k] == b2[q + k]);
        }
        if n1.len() == n2.len() {
            assert(n1 =~= n2);
        } else {
            let p = q + n1.len();
            assert(id1.len() >= b2.len() > b1.len());
            assert(id1 != b1);
            assert(id1[p] == '/');
            assert(b2[p] == n2[n1.len() as int]);
            assert(id2[p] == b2[p]);
            assert(!is_sep_char(n2[n1.len() as int]));
        }
    }
}

/// Two ids rooted at different separator-free names under one prefix never
/// coincide, however deep under their names they lie.
proof fn lemma_rooted_ids_differ(
    prefix: Seq<char>,
    n1: Seq<char>,
    n2: Seq<char>,
    id1: Seq<char>,
    id2: Seq<char>,
)
    requires
        sep_free(n1),
        sep_free(n2),
        n1 != n2,
        extends_at_boundary(id1, rel_path_of(prefix, n1)),
        extends_at_boundary(id2, rel_path_of(prefix, n2)),
    ensures
        id1 != id2,
{
    if n1.len() <= n2.len() {
        lemma_rooted_ids_differ_core(prefix, n1, n2, id1, id2);
    } else {
        lemma_rooted_ids_differ_core(prefix, n2, n1, id2, id1);
    }
}

/// An id rooted under a child of `base` strictly extends `base` past a
/// slash boundary.
proof fn lemma_ext_through_child(id: Seq<char>, base: Seq<char>, n: Seq<char>)
    requires
        base.len() > 0,
        extends_at_boundary(id, rel_path_of(base, n)),
    ensures
        id.len() > base.len(),
        id.subrange(0, base.len() as int) == base,
        id[base.len() as int] == '/',
        extends_at_boundary(id, base),
{
    let b = rel_path_of(base, n);
    assert(b.len() == base.len() + 1 + n.len());
    lemma_ext_pointwise(id, b);
    assert forall|k: int| 0 <= k < base.len() implies id[k] == base[k] by {
        assert(b[k] == base[k]);
    }
    assert(id.subrange(0, base.len() as int) =~= base);
    assert(b[base.len() as int] == '/');
    assert(id[base.len() as int] == '/');
}

/// A forest is well rooted under a prefix: each node's id is its name made
/// relative, the names at the level are nonempty, separator-free and
/// distinct, and each folder's children are well rooted under its id.
pub open spec fn forest_ids_wf(s: Seq<NodeView>, prefix: Seq<char>) -> bool
    decreases s,
{
    &&& forall|i: int|
        0 <= i < s.len() ==> (#[trigger] s[i]).id == rel_path_of(prefix, s[i].name)
            && s[i].name.len() > 0 && sep_free(s[i].name)
    &&& forall|i: int, j: int|
        0 <= i < j < s.len() ==> (#[trigger] s[i]).name != (#[trigger] s[j]).name
    &&& forall|i: int|
        0 <= i < s.len() ==> match (#[trigger] s[i]).children {
            Some(cs) => forest_ids_wf(cs, s[i].id),
            None => true,
        }
}

/// Of a well-rooted forest, all ids are pairwise distinct, and every id
/// extends some level node's id at a slash boundary.
proof fn lemma_forest_ids_distinct(s: Seq<NodeView>, prefix: Seq<char>)
    requires
        forest_ids_wf(s, prefix),
    ensures
        distinct_seqs(all_ids(s)),
        forall|t: int|
            0 <= t < all_ids(s).len() ==> exists|i: int|
                0 <= i < s.len() && extends_at_boundary(#[trigger] all_ids(s)[t], s[i].id),
    decreases s,
{
    if s.len() == 0 {
        return ;
    }
    let head = s[0];
    let cids = match head.children {
        Some(cs) => all_ids(cs),
        None => Seq::<Seq<char>>::empty(),
    };
    let rest = s.skip(1);
    let rids = all_ids(rest);
    let ids = all_ids(s);
    assert(ids == seq![head.id] + cids + rids);
    assert(head.id == rel_path_of(prefix, head.name) && head.name.len() > 0 && sep_free(
        head.name,
    ));
    assert(head.id.len() > 0);
    // every subtree id strictly extends the head's id
    assert forall|t: int|
        0 <= t < cids.len() implies extends_at_boundary(#[trigger] cids[t], head.id)
            && cids[t].len() > head.id.len() by {
        let cs = head.children->Some_0;
        assert(forest_ids_wf(cs, head.id));
        lemma_forest_ids_distinct(cs, head.id);
        let i = choose|i: int|
            0 <= i < cs.len() && extends_at_boundary(#[trigger] cids[t], cs[i].id);
        assert(cs[i].id == rel_path_of(head.id, cs[i].name));
        lemma_ext_through_child(cids[t], head.id, cs[i].name);
    }
    if head.children is Some {
        let cs = head.children->Some_0;
        assert(forest_ids_wf(cs, head.id));
        lemma_forest_ids_distinct(cs, head.id);
    }
    // the remaining nodes form a well-rooted forest again
    assert(forest_ids_wf(rest, prefix)) by {
        assert forall|i: int|
            0 <= i < rest.len() implies (#[trigger] rest[i]).id == rel_path_of(
            prefix,
            rest[i].name,
        ) && rest[i].name.len() > 0 && sep_free(rest[i].name) by {
            assert(rest[i] == s[i + 1]);
        }
        assert forall|i: int, j: int|
            0 <= i < j < rest.len() implies (#[trigger] rest[i]).name != (
        #[trigger] rest[j]).name by {
            assert(rest[i] == s[i + 1]);
            assert(rest[j] == s[j + 1]);
        }
        assert forall|i: int|
            0 <= i < rest.len() implies match (#[trigger] rest[i]).children {
            Some(cs) => forest_ids_wf(cs, rest[i].id),
            None => true,
        } by {
            assert(rest[i] == s[i + 1]);
            assert(match s[i + 1].children {
                Some(cs) => forest_ids_wf(cs, s[i + 1].id),
                None => true,
            });
        }
    }
    lemma_forest_ids_distinct(rest, prefix);
    let block = seq![head.id] + cids;
    assert(ids =~= block + rids);
    // pairwise distinctness across the three parts
    assert forall|a: int, b: int| 0 <= a < b < ids.len() implies ids[a] != ids[b] by {
        if b < block.len() {
            if a == 0 {
                assert(ids[a] == head.id);
                assert(ids[b] == cids[b - 1]);
                assert(cids[b - 1].len() > head.id.len());
            } else {
                assert(ids[a] == cids[a - 1]);
                assert(ids[b] == cids[b - 1]);
            }
        } else if a < block.len() {
            assert(ids[b] == rids[b - block.len()]);
            let i = choose|i: int|
                0 <= i < rest.len() && extends_at_boundary(
                    #[trigger] rids[b - block.len()],
                    rest[i].id,
                );
            assert(rest[i] == s[i + 1]);
            assert(s[i + 1].id == rel_path_of(prefix, s[i + 1].name));
            assert(head.name != s[i + 1].name);
            if a == 0 {
                assert(ids[a] == head.id);
                assert(extends_at_boundary(head.id, rel_path_of(prefix, head.name)));
            } else {
                assert(ids[a] == cids[a - 1]);
                assert(extends_at_boundary(cids[a - 1], head.id));
            }
            lemma_rooted_ids_differ(
                prefix,
                head.name,
                s[i + 1].name,
                ids[a],
                ids[b],
            );
        } else {
            assert(ids[a] == rids[a - block.len()]);
            assert(ids[b] == rids[b - block.len()]);
        }
    }
    // every id extends some level node's id
    assert forall|t: int|
        0 <= t < ids.len() implies exists|i: int|
        0 <= i < s.len() && extends_at_boundary(#[trigger] ids[t], s[i].id) by {
        if t == 0 {
            assert(extends_at_boundary(ids[0], s[0].id));
        } else if t < block.len() {
            assert(ids[t] == cids[t - 1]);
            assert(extends_at_boundary(ids[t], s[0].id));
        } else {
            assert(ids[t] == rids[t - block.len()]);
            let i = choose|i: int|
                0 <= i < rest.len() && extends_at_boundary(
                    #[trigger] rids[t - block.len()],
                    rest[i].id,
                );
            assert(rest[i] == s[i + 1]);
            assert(extends_at_boundary(ids[t], s[i + 1].id));
        }
    }
}

/// Every raw node of a level is the node of one of its non-hidden entries.
proof fn lemma_raw_nodes_origin(entries: Seq<RawEntry>, prefix: Seq<char>, depth: nat)
    ensures
        forall|k: int|
            0 <= k < raw_nodes(entries, prefix, depth).len() ==> exists|j: int|
                0 <= j < entries.len() && #[trigger] raw_nodes(entries, prefix, depth)[k]
                    == entry_node(#[trigger] entries[j], prefix, depth),
    decreases entries.len(),
{
    let raw = raw_nodes(entries, prefix, depth);
    if entries.len() > 0 {
        let rest_entries = entries.skip(1);
        lemma_raw_nodes_origin(rest_entries, prefix, depth);
        let rest = raw_nodes(rest_entries, prefix, depth);
        let hidden = is_hidden_name(entries[0].name@);
        let nv = entry_node(entries[0], prefix, depth);
        let off: int = if hidden {
            0
        } else {
            1
        };
        if hidden {
            assert(raw == rest);
        } else {
            assert(raw == seq![nv] + rest);
            assert(raw[0] == nv);
        }
        assert forall|k: int| 0 <= k < raw.len() implies exists|j: int|
            0 <= j < entries.len() && #[trigger] raw[k] == entry_node(
                #[trigger] entries[j],
                prefix,
                depth,
            ) by {
            if !hidden && k == 0 {
                assert(raw[0] == entry_node(entries[0], prefix, depth));
            } else {
                assert(raw[k] == rest[k - off]);
                let j = choose|j: int|
                    0 <= j < rest_entries.len() && rest[k - off] == entry_node(
                        #[trigger] rest_entries[j],
                        prefix,
                        depth,
                    );
                assert(rest_entries[j] == entries[j + 1]);
                assert(raw[k] == entry_node(entries[j + 1], prefix, depth));
            }
        }
    }
}

/// A well-formed listing builds a well-rooted forest.
pub proof fn lemma_build_forest_rooted(entries: Seq<RawEntry>, prefix: Seq<char>, depth: nat)
    requires
        wf_entries(entries),
    ensures
        forest_ids_wf(build_nodes(entries, prefix, depth), prefix),
    decreases depth,
{
    let built = build_nodes(entries, prefix, depth);
    if depth == 0 {
        return ;
    }
    let raw = raw_nodes(entries, prefix, depth);
    let pf = |v: NodeView| v.folder;
    let pg = |v: NodeView| !v.folder;
    let folders = sort_by_name(raw.filter(pf));
    let files = sort_by_name(raw.filter(pg));
    assert(built == folders + files);
    lemma_raw_nodes_names(entries, prefix, depth);
    lemma_raw_nodes_origin(entries, prefix, depth);
    lemma_level_ids_distinct(entries, prefix, depth);
    // every built node is a raw node, hence some entry's node
    assert forall|i: int| 0 <= i < built.len() implies exists|t: int|
        0 <= t < raw.len() && #[trigger] built[i] == #[trigger] raw[t] by {
        if i < folders.len() {
            lemma_level_node_origin(raw, pf, folders, i);
            let t = choose|t: int| 0 <= t < raw.len() && #[trigger] raw[t] == folders[i] && pf(
                raw[t],
            );
            assert(built[i] == raw[t]);
        } else {
            lemma_level_node_origin(raw, pg, files, i - folders.len());
            let t = choose|t: int|
                0 <= t < raw.len() && #[trigger] raw[t] == files[i - folders.len()] && pg(raw[t]);
            assert(built[i] == raw[t]);
        }
    }
    assert forall|i: int|
        0 <= i < built.len() implies (#[trigger] built[i]).id == rel_path_of(
        prefix,
        built[i].name,
    ) && built[i].name.len() > 0 && sep_free(built[i].name) by {
        let t = choose|t: int| 0 <= t < raw.len() && built[i] == raw[t];
        assert(raw[t].id == rel_path_of(prefix, raw[t].name));
        assert(has_name(raw, raw[t].name));
        let j = choose|j: int|
            0 <= j < entries.len() && (#[trigger] entries[j]).name@ == raw[t].name;
        assert(entries[j].name@.len() > 0 && sep_free(entries[j].name@));
    }
    assert forall|i: int, j: int|
        0 <= i < j < built.len() implies (#[trigger] built[i]).name != (
    #[trigger] built[j]).name by {
        if built[i].name == built[j].name {
            assert(built[i].id == rel_path_of(prefix, built[i].name));
            assert(built[j].id == rel_path_of(prefix, built[j].name));
            assert(built[i].id != built[j].id);
        }
    }
    assert forall|i: int|
        0 <= i < built.len() implies match (#[trigger] built[i]).children {
        Some(cs) => forest_ids_wf(cs, built[i].id),
        None => true,
    } by {
        let t = choose|t: int| 0 <= t < raw.len() && built[i] == raw[t];
        let j = choose|j: int|
            0 <= j < entries.len() && raw[t] == entry_node(#[trigger] entries[j], prefix, depth);
        let e = entries[j];
        assert(wf_entries(e.entries@));
        if e.is_dir {
            let rel = rel_path_of(prefix, e.name@);
            assert(built[i].children == Some(
                build_nodes(e.entries@, rel, (depth - 1) as nat),
            ));
            assert(built[i].id == rel);
            lemma_build_forest_rooted(e.entries@, rel, (depth - 1) as nat);
        } else {
            assert(built[i].children is None);
        }
    }
    assert(forest_ids_wf(built, prefix));
}

/// Within one whole built snapshot every node id is unique — no id repeats
/// at any level or across levels — provided the listing is well formed, as
/// a real directory listing is.
pub proof fn lemma_snapshot_ids_distinct(entries: Seq<RawEntry>, prefix: Seq<char>, depth: nat)
    requires
        wf_entries(entries),
    ensures
        distinct_seqs(all_ids(build_nodes(entries, prefix, depth))),
{
    lemma_build_forest_rooted(entries, prefix, depth);
    lemma_forest_ids_distinct(build_nodes(entries, prefix, depth), prefix);
}

/// Every node of a sorted filtered run comes from the level's raw nodes and
/// passes the filter.
proof fn lemma_level_node_origin(
    raw: Seq<NodeView>,
    pred: spec_fn(NodeView) -> bool,
    sorted: Seq<NodeView>,
    k: int,
)
    requires
        sorted == sort_by_name(raw.filter(pred)),
        0 <= k < sorted.len(),
    ensures
        exists|t: int| 0 <= t < raw.len() && #[trigger] raw[t] == sorted[k] && pred(raw[t]),
{
    broadcast use vstd::seq_lib::group_to_multiset_ensures;

    lemma_sort_by_name_sorts(raw.filter(pred));
    let v = sorted[k];
    assert(sorted.contains(v));
    assert(sorted.to_multiset().count(v) > 0);
    assert(raw.filter(pred).to_multiset().count(v) > 0);
    assert(raw.filter(pred).contains(v));
    let s = choose|s: int| 0 <= s < raw.filter(pred).len() && raw.filter(pred)[s] == v;
    raw.lemma_filter_pred(pred, s);
    lemma_filter_subset(raw, pred);
    assert(raw.contains(v));
    let t = choose|t: int| 0 <= t < raw.len() && raw[t] == v;
    assert(pred(raw[t]));
}

/// Distinct names give distinct relative paths.
proof fn lemma_rel_path_injective_contra(prefix: Seq<char>, a: Seq<char>, b: Seq<char>)
    requires
        a != b,
    ensures
        rel_path_of(prefix, a) != rel_path_of(prefix, b),
{
    if rel_path_of(prefix, a) == rel_path_of(prefix, b) {
        lemma_rel_path_injective(prefix, a, b);
    }
}

/// Builds the node tree for one directory level and, recursively, for its
/// subdirectories: hidden entries are dropped, each entry's id is its path
/// relative to the walked root (`prefix` is the parent's relative path,
/// empty at the root), recursion stops after `max_depth` levels, and the
/// result is ordered folders-before-files, each group case-insensitively
/// alphabetical, stably.
#[verifier::rlimit(30)]
pub fn read_dir_recursive(entries: &Vec<RawEntry>, prefix: &str, max_depth: usize) -> (r: Vec<
    Node,
>)
    ensures
        deep_views(r@) == build_nodes(entries@, prefix@, max_depth as nat),
        max_depth == 0 ==> r@.len() == 0,
    decreases max_depth,
{
    if max_depth == 0 {
        let r: Vec<Node> = Vec::new();
        proof {
            assert(deep_views(r@) =~= build_nodes(entries@, prefix@, 0));
        }
        return r;
    }
    let ghost depth = max_depth as nat;
    let ghost pred_folder = |v: NodeView| v.folder;
    let ghost pred_file = |v: NodeView| !v.folder;
    let mut folders: Vec<Node> = Vec::new();
    let mut files: Vec<Node> = Vec::new();
    proof {
        assert(entries@.subrange(0, 0) =~= Seq::<RawEntry>::empty());
        assert(raw_nodes(entries@.subrange(0, 0), prefix@, depth) == Seq::<NodeView>::empty());
        assert(deep_views(folders@) =~= Seq::<NodeView>::empty().filter(pred_folder));
        assert(deep_views(files@) =~= Seq::<NodeView>::empty().filter(pred_file));
    }
    let mut i: usize = 0;
    while i < entries.len()
        invariant
            max_depth >= 1,
            depth == max_depth as nat,
            pred_folder == (|v: NodeView| v.folder),
            pred_file == (|v: NodeView| !v.folder),
            i <= entries@.len(),
            deep_views(folders@) == raw_nodes(entries@.subrange(0, i as int), prefix@, depth)
                .filter(pred_folder),
            deep_views(files@) == raw_nodes(entries@.subrange(0, i as int), prefix@, depth)
                .filter(pred_file),
        decreases entries@.len() - i,
    {
        let ghost seen = entries@.subrange(0, i as int);
        let ghost raw_old = raw_nodes(seen, prefix@, depth);
        let e = &entries[i];
        proof {
            assert(entries@.subrange(0, i + 1) =~= seen.push(entries@[i as int]));
            lemma_raw_nodes_push(seen, entries@[i as int], prefix@, depth);
        }
        let hidden = e.name.unicode_len() > 0 && e.name.as_str().get_char(0) == '.';
        if hidden {
            proof {
                assert(raw_old + Seq::<NodeView>::empty() =~= raw_old);
            }
        } else {
            let ghost nv = entry_node(entries@[i as int], prefix@, depth);
            let ghost delta = seq![nv];
            proof {
                reveal_with_fuel(Seq::<_>::filter, 2);
                Seq::filter_distributes_over_add(raw_old, delta, pred_folder);
                Seq::filter_distributes_over_add(raw_old, delta, pred_file);
                assert(delta.drop_last() =~= Seq::<NodeView>::empty());
                assert(delta.last() == nv);
                assert(delta.filter(pred_folder) == if nv.folder {
                    Seq::<NodeView>::empty().push(nv)
                } else {
                    Seq::<NodeView>::empty()
                });
                assert(delta.filter(pred_file) == if !nv.folder {
                    Seq::<NodeView>::empty().push(nv)
                } else {
                    Seq::<NodeView>::empty()
                });
                assert(Seq::<NodeView>::empty().push(nv) =~= seq![nv]);
            }
            let rel: String = if prefix.unicode_len() == 0 {
                String::from_str(e.name.as_str())
            } else {
                let mut t = String::from_str(prefix);
                t.append("/");
                t.append(e.name.as_str());
                proof {
                    reveal_strlit("/");
                    assert("/"@ =~= seq!['/']);
                }
                t
            };
            proof {
                assert(rel@ == rel_path_of(prefix@, e.name@));
            }
            let name = String::from_str(e.name.as_str());
            if e.is_dir {
                let children = read_dir_recursive(&e.entries, rel.as_str(), max_depth - 1);
                let node = Node {
                    id: rel,
                    name,
                    node_type: NodeType::Folder,
                    path: None,
                    children: Some(children),
                    meta: None,
                };
                proof {
                    assert(node.deep_view() == nv);
                    assert(folders@.push(node) =~= folders@ + seq![node]);
                    lemma_deep_views_add(folders@, seq![node]);
                    lemma_deep_views_singleton(node);
                    assert(raw_old.filter(pred_folder) + seq![nv] =~= (raw_old + delta).filter(
                        pred_folder,
                    ));
                    assert(raw_old.filter(pred_file) =~= (raw_old + delta).filter(pred_file));
                }
                folders.push(node);
            } else {
                let rel_copy = String::from_str(rel.as_str());
                let node = Node {
                    id: rel,
                    name,
                    node_type: NodeType::File,
                    path: Some(rel_copy),
                    children: None,
                    meta: None,
                };
                proof {
                    assert(node.deep_view() == nv);
                    assert(files@.push(node) =~= files@ + seq![node]);
                    lemma_deep_views_add(files@, seq![node]);
                    lemma_deep_views_singleton(node);
                    assert(raw_old.filter(pred_file) + seq![nv] =~= (raw_old + delta).filter(
                        pred_file,
                    ));
                    assert(raw_old.filter(pred_folder) =~= (raw_old + delta).filter(pred_folder));
                }
                files.push(node);
            }
        }
        i = i + 1;
    }
    proof {
        assert(entries@.subrange(0, entries@.len() as int) =~= entries@);
    }
    let mut result = sort_nodes(folders);
    let mut sorted_files = sort_nodes(files);
    let ghost result_before = result@;
    let ghost files_before = sorted_files@;
    result.append(&mut sorted_files);
    proof {
        lemma_deep_views_add(result_before, files_before);
    }
    result
}

/// What the caller found at the tree root: it may be absent, present but
/// not a directory, or a directory.
pub enum RootProbe {
    Missing,
    NotADirectory,
    Directory,
}

/// Builds the file tree for a workspace directory: the root path must
/// validate and (as probed by the caller) exist as a directory — a missing
/// root and a wrong-type root are distinct errors; the tree is then built
/// from the raw listing with relative ids and the fixed maximum depth.
pub fn build_tree(root: &str, probe: RootProbe, entries: &Vec<RawEntry>) -> (r: Result<
    Vec<Node>,
    HibiscusError,
>)
    ensures
        !path_ok(root@) ==> r is Err && r->Err_0 is PathValidation
            && r->Err_0->PathValidation_0@ == path_error_message(root@),
        path_ok(root@) ==> match probe {
            RootProbe::Missing => r is Err && r->Err_0 is FileNotFound
                && r->Err_0->FileNotFound_0@ == root@,
            RootProbe::NotADirectory => r is Err && (r->Err_0 matches
                HibiscusError::InvalidPathType { path, expected, actual } && path@ == root@
                && expected@ == "directory"@ && actual@ == "file"@),
            RootProbe::Directory => r is Ok && deep_views(r->Ok_0@) == build_nodes(
                entries@,
                Seq::<char>::empty(),
                MAX_TREE_DEPTH as nat,
            ),
        },
{
    if let Err(e) = validate_path(root) {
        return Err(e);
    }
    match probe {
        RootProbe::Missing => Err(HibiscusError::FileNotFound(String::from_str(root))),
        RootProbe::NotADirectory => Err(
            HibiscusError::InvalidPathType {
                path: String::from_str(root),
                expected: String::from_str("directory"),
                actual: String::from_str("file"),
            },
        ),
        RootProbe::Directory => {
            let r = read_dir_recursive(entries, "", MAX_TREE_DEPTH);
            proof {
                reveal_strlit("");
                assert(""@ =~= Seq::<char>::empty());
            }
            Ok(r)
        },
    }
}

} // verus!
