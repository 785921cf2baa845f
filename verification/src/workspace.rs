//! Workspace data structures: the navigable tree nodes and the persisted
//! workspace record.

use vstd::prelude::*;

verus! {

/// The kind of a filesystem entry exposed to consumers.
#[derive(Debug, PartialEq, Eq, Structural, Clone, Copy)]
pub enum NodeType {
    File,
    Folder,
}

/// One filesystem entry of a tree snapshot.
///
/// `id` is the path relative to the walked root (forward-slash normalized),
/// unique within a snapshot. `path` is present iff the node is a file;
/// `children` is present iff it is a folder. `meta` is a reserved opaque
/// extension slot, never set by this library.
#[derive(Debug)]
pub struct Node {
    pub id: String,
    pub name: String,
    pub node_type: NodeType,
    pub path: Option<String>,
    pub children: Option<Vec<Node>>,
    pub meta: Option<serde_json::Value>,
}

/// The mathematical shape of a `Node`: every string as a character
/// sequence, children as a sequence of shapes, and of the opaque `meta`
/// slot only whether it is unset (this library never sets it).
pub struct NodeView {
    pub id: Seq<char>,
    pub name: Seq<char>,
    pub folder: bool,
    pub path: Option<Seq<char>>,
    pub children: Option<Seq<NodeView>>,
    pub meta_unset: bool,
}

impl Node {
    /// The shape of this node.
    pub open spec fn deep_view(self) -> NodeView
        decreases self,
    {
        NodeView {
            id: self.id@,
            name: self.name@,
            folder: self.node_type is Folder,
            path: match self.path {
                Some(p) => Some(p@),
                None => None,
            },
            children: match self.children {
                Some(cs) => Some(deep_views(cs@)),
                None => None,
            },
            meta_unset: self.meta is None,
        }
    }
}

/// The shapes of a sequence of nodes, in order.
pub open spec fn deep_views(s: Seq<Node>) -> Seq<NodeView>
    decreases s,
{
    if s.len() == 0 {
        Seq::empty()
    } else {
        seq![s[0].deep_view()] + deep_views(s.skip(1))
    }
}

/// A sequence's shapes line up with its nodes, one for one.
pub proof fn lemma_deep_views_pointwise(s: Seq<Node>)
    ensures
        deep_views(s).len() == s.len(),
        forall|i: int| 0 <= i < s.len() ==> deep_views(s)[i] == s[i].deep_view(),
    decreases s.len(),
{
    if s.len() > 0 {
        lemma_deep_views_pointwise(s.skip(1));
        assert forall|i: int| 0 <= i < s.len() implies deep_views(s)[i] == s[i].deep_view() by {
            if i > 0 {
                assert(deep_views(s)[i] == deep_views(s.skip(1))[i - 1]);
                assert(s.skip(1)[i - 1] == s[i]);
            }
        }
    }
}

/// The shapes of a concatenation are the concatenated shapes.
pub proof fn lemma_deep_views_add(a: Seq<Node>, b: Seq<Node>)
    ensures
        deep_views(a + b) == deep_views(a) + deep_views(b),
    decreases a.len(),
{
    if a.len() == 0 {
        assert(a + b =~= b);
        assert(deep_views(a) + deep_views(b) =~= deep_views(b));
    } else {
        assert((a + b).skip(1) =~= a.skip(1) + b);
        lemma_deep_views_add(a.skip(1), b);
        assert(deep_views(a + b) =~= deep_views(a) + deep_views(b));
    }
}

/// The shapes of a contiguous part are the same part of the shapes.
pub proof fn lemma_deep_views_subrange(s: Seq<Node>, a: int, b: int)
    requires
        0 <= a <= b <= s.len(),
    ensures
        deep_views(s.subrange(a, b)) == deep_views(s).subrange(a, b),
{
    lemma_deep_views_pointwise(s);
    lemma_deep_views_pointwise(s.subrange(a, b));
    assert(deep_views(s.subrange(a, b)) =~= deep_views(s).subrange(a, b));
}

/// The shape of a single node stands alone.
pub proof fn lemma_deep_views_singleton(n: Node)
    ensures
        deep_views(seq![n]) == seq![n.deep_view()],
{
    lemma_deep_views_pointwise(seq![n]);
    assert(deep_views(seq![n]) =~= seq![n.deep_view()]);
}

/// Identity of a workspace.
#[derive(Debug)]
pub struct WorkspaceInfo {
    pub id: String,
    pub name: String,
    pub root: String,
    pub created_at: Option<String>,
    pub updated_at: Option<String>,
}

/// Cursor position within an open document.
#[derive(Debug, PartialEq, Eq, Structural, Clone, Copy)]
pub struct CursorPosition {
    pub line: u32,
    pub column: u32,
}

/// A remembered editing session: which nodes are open and where the cursor
/// stood in each, keyed by node id.
#[derive(Debug)]
pub struct SessionState {
    pub open_nodes: Option<Vec<String>>,
    pub active_node: Option<String>,
    pub cursor: Option<Vec<(String, CursorPosition)>>,
}

impl SessionState {
    /// The cursor entries stand for a map keyed by node id: their keys are
    /// pairwise distinct. Callers that build a session keep this; this
    /// library only carries the value through.
    pub open spec fn wf(self) -> bool {
        match self.cursor {
            Some(cs) => forall|i: int, j: int|
                0 <= i < j < cs.len() ==> (#[trigger] cs[i]).0@ != (#[trigger] cs[j]).0@,
            None => true,
        }
    }
}

/// The persisted workspace record.
#[derive(Debug)]
pub struct WorkspaceFile {
    pub schema_version: String,
    pub workspace: WorkspaceInfo,
    pub settings: Option<serde_json::Value>,
    pub tree: Vec<Node>,
    pub session: Option<SessionState>,
}

} // verus!
