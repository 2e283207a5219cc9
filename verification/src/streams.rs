//! A radix tree of stream entry ids: each node holds a fragment of an id
//! (`prefix`), the fields of the entry whose id ends there (`data`), and the
//! nodes below it. Ids are ASCII.

use vstd::prelude::*;
use vstd::utf8::is_ascii_chars;
use std::collections::HashMap;
use crate::parser::texts;

verus! {

broadcast use vstd::std_specs::vec::group_vec_axioms;

/// A node of the tree. The children are kept in a `Vec`, in the order they
/// were made, where a map from fragment to child would do: an insert changes
/// a child in place, and of the maps with a specification, std's `HashMap`
/// states its effects only for keys that vstd knows to obey its key model
/// (not `String`), while vstd's `StringHashMap` can neither hand a value out
/// nor change one in place. The search for a child looks at first
/// characters, which are distinct among siblings in a well-formed tree, so
/// the order of the children decides nothing.
pub struct StreamNode {
    pub prefix: String,
    pub data: HashMap<String, String>,
    pub children: Vec<StreamNode>,
}

/// A node as mathematical values.
pub struct NodeView {
    pub prefix: Seq<char>,
    pub data: Map<String, String>,
    pub children: Seq<NodeView>,
}

impl View for StreamNode {
    type V = NodeView;

    open spec fn view(&self) -> NodeView {
        node_view(*self)
    }
}

/// The view of a node and of its children.
pub open spec fn node_view(n: StreamNode) -> NodeView
    decreases n, 1nat,
{
    NodeView { prefix: n.prefix@, data: n.data@, children: children_view(n.children@) }
}

pub open spec fn children_view(v: Seq<StreamNode>) -> Seq<NodeView>
    decreases v, 0nat,
{
    Seq::new(
        v.len(),
        |i: int|
            if 0 <= i < v.len() {
                node_view(v[i])
            } else {
                arbitrary()
            },
    )
}

/// A tree is well formed: its texts are ASCII, and below each node the
/// fragments are non-empty and start with distinct characters.
pub open spec fn node_wf(n: NodeView) -> bool
    decreases n,
{
    &&& is_ascii_chars(n.prefix)
    &&& children_distinct(n.children)
    &&& forall|j: int| 0 <= j < n.children.len() ==> node_wf(#[trigger] n.children[j])
}

pub open spec fn children_distinct(c: Seq<NodeView>) -> bool {
    &&& forall|j: int| 0 <= j < c.len() ==> (#[trigger] c[j]).prefix.len() > 0
    &&& forall|j1: int, j2: int|
        0 <= j1 < c.len() && 0 <= j2 < c.len() && j1 != j2 ==> (#[trigger] c[j1]).prefix[0]
            != (#[trigger] c[j2]).prefix[0]
}

/// The child whose fragment starts with `c`, if any.
pub open spec fn child_index(children: Seq<NodeView>, c: char) -> Option<int> {
    if exists|j: int| 0 <= j < children.len() && children[j].prefix.len() > 0 && children[j].prefix[0] == c {
        Some(
            choose|j: int|
                0 <= j < children.len() && children[j].prefix.len() > 0 && children[j].prefix[0] == c,
        )
    } else {
        None
    }
}

/// The length of the longest common prefix of `a` and `b` that extends the
/// first `i` characters.
pub open spec fn common_prefix_len(a: Seq<char>, b: Seq<char>, i: nat) -> nat
    decreases a.len() - i,
{
    if i < a.len() && i < b.len() && a[i as int] == b[i as int] {
        common_prefix_len(a, b, i + 1)
    } else {
        i
    }
}

pub proof fn lemma_common_prefix_len(a: Seq<char>, b: Seq<char>, i: nat)
    requires
        i <= a.len(),
        i <= b.len(),
    ensures
        i <= common_prefix_len(a, b, i) <= a.len(),
        common_prefix_len(a, b, i) <= b.len(),
        forall|k: int| i <= k < common_prefix_len(a, b, i) ==> a[k] == b[k],
        common_prefix_len(a, b, i) < a.len() && common_prefix_len(a, b, i) < b.len() ==> a[common_prefix_len(
            a,
            b,
            i,
        ) as int] != b[common_prefix_len(a, b, i) as int],
    decreases a.len() - i,
{
    if i < a.len() && i < b.len() && a[i as int] == b[i as int] {
        lemma_common_prefix_len(a, b, i + 1);
    }
}

pub open spec fn leaf(prefix: Seq<char>, data: Map<String, String>) -> NodeView {
    NodeView { prefix, data, children: Seq::empty() }
}

/// Inserting the id fragment `f` with entry `d` among `children`: a child
/// that shares the first character is followed; when its fragment is used
/// up, the rest goes below it (or, if nothing is left, the child takes `d`);
/// otherwise the child is split at the shared part, which becomes a node
/// without data over the child's remainder and a new node for the rest of
/// `f`. With no such child, `f` becomes a new child.
pub open spec fn insert_children(children: Seq<NodeView>, f: Seq<char>, d: Map<String, String>) -> Seq<
    NodeView,
>
    decreases f.len(),
{
    if f.len() == 0 {
        children.push(leaf(f, d))
    } else {
        match child_index(children, f[0]) {
            None => children.push(leaf(f, d)),
            Some(j) => {
                let c = children[j];
                let k = common_prefix_len(c.prefix, f, 0);
                if k >= c.prefix.len() {
                    if k >= f.len() {
                        children.update(j, NodeView { data: d, ..c })
                    } else {
                        proof {
                            lemma_common_prefix_len(c.prefix, f, 0);
                        }
                        children.update(
                            j,
                            NodeView { children: insert_children(c.children, f.skip(k as int), d), ..c },
                        )
                    }
                } else {
                    children.update(
                        j,
                        NodeView {
                            prefix: c.prefix.take(k as int),
                            data: Map::empty(),
                            children: seq![
                                NodeView { prefix: c.prefix.skip(k as int), ..c },
                                leaf(f.skip(k as int), d),
                            ],
                        },
                    )
                }
            },
        }
    }
}

/// The fields of an entry, as given (none stands for no fields).
pub open spec fn data_or_empty(d: Option<HashMap<String, String>>) -> Map<String, String> {
    match d {
        Some(m) => m@,
        None => Map::empty(),
    }
}

impl StreamNode {
    /// A node with no children.
    pub fn new(prefix: String, kv_pairs: Option<HashMap<String, String>>) -> (r: Self)
        ensures
            r@ == leaf(prefix@, data_or_empty(kv_pairs)),
            r.children@ == Seq::<StreamNode>::empty(),
    {
        let data = match kv_pairs {
            None => HashMap::new(),
            Some(kv) => kv,
        };
        let children: Vec<StreamNode> = Vec::new();
        let r = StreamNode { prefix, data, children };
        assert(r.children@ =~= Seq::<StreamNode>::empty());
        assert(r@.children =~= Seq::<NodeView>::empty());
        r
    }
}

/// The tree of ids and the last id inserted.
pub struct Stream {
    pub root: StreamNode,
    pub last_id: String,
}

/// The children of a well-formed node: non-empty fragments with distinct
/// first characters, each a well-formed tree.
pub open spec fn children_wf(c: Seq<NodeView>) -> bool {
    &&& children_distinct(c)
    &&& forall|j: int| 0 <= j < c.len() ==> node_wf(#[trigger] c[j])
}


/// The first child whose fragment starts with the first character of
/// `insert_node_frag`, if any (every fragment and `insert_node_frag` must be
/// non-empty: their first characters are read). Among siblings with distinct
/// first characters it is the child `child_index` names.
fn child_with_shared_prefix(node_children: &Vec<StreamNode>, insert_node_frag: &String) -> (r: Option<usize>)
    requires
        forall|j: int| 0 <= j < node_children@.len() ==> (#[trigger] node_children@[j]).prefix@.len() > 0,
        insert_node_frag@.len() > 0,
    ensures
        match r {
            Some(j) => {
                &&& j < node_children@.len()
                &&& children_view(node_children@)[j as int].prefix[0] == insert_node_frag@[0]
                &&& forall|k: int| 0 <= k < j ==> children_view(node_children@)[k].prefix[0]
                    != insert_node_frag@[0]
                &&& children_distinct(children_view(node_children@)) ==> child_index(
                    children_view(node_children@),
                    insert_node_frag@[0],
                ) == Some(j as int)
            },
            None => child_index(children_view(node_children@), insert_node_frag@[0]) is None,
        },
{
    let ghost cv = children_view(node_children@);
    let first = insert_node_frag.as_str().get_char(0);
    let mut i: usize = 0;
    while i < node_children.len()
        invariant
            i <= node_children@.len(),
            cv == children_view(node_children@),
            forall|j: int| 0 <= j < node_children@.len() ==> (#[trigger] node_children@[j]).prefix@.len() > 0,
            first == insert_node_frag@[0],
            forall|j: int| 0 <= j < i ==> cv[j].prefix[0] != first,
        decreases node_children@.len() - i,
    {
        assert(cv[i as int] == node_children@[i as int]@);
        let c = node_children[i].prefix.as_str().get_char(0);
        if c == first {
            assert(cv[i as int].prefix.len() > 0 && cv[i as int].prefix[0] == first);
            proof {
                if children_distinct(cv) {
                    let j = choose|j: int|
                        0 <= j < cv.len() && cv[j].prefix.len() > 0 && cv[j].prefix[0] == first;
                    assert(j == i);
                }
            }
            return Some(i);
        }
        i = i + 1;
    }
    proof {
        assert forall|j: int| 0 <= j < cv.len() && cv[j].prefix.len() > 0 implies cv[j].prefix[0] != first by {
            assert(j < i);
        }
    }
    None
}

/// The longest common prefix of the two texts and its length.
fn find_shared_prefix(curr_in_tree_node: String, insert_node_frag: String) -> (r: (String, usize))
    ensures
        r.1 == common_prefix_len(curr_in_tree_node@, insert_node_frag@, 0),
        r.0@ == curr_in_tree_node@.take(r.1 as int),
{
    let a_len = curr_in_tree_node.as_str().unicode_len();
    let b_len = insert_node_frag.as_str().unicode_len();
    let mut i: usize = 0;
    while i < b_len && i < a_len
        invariant
            i <= a_len,
            i <= b_len,
            a_len == curr_in_tree_node@.len(),
            b_len == insert_node_frag@.len(),
            common_prefix_len(curr_in_tree_node@, insert_node_frag@, 0) == common_prefix_len(
                curr_in_tree_node@,
                insert_node_frag@,
                i as nat,
            ),
        ensures
            common_prefix_len(curr_in_tree_node@, insert_node_frag@, 0) == i,
            i <= a_len,
            a_len == curr_in_tree_node@.len(),
        decreases a_len - i,
    {
        let ith_curr_tree = curr_in_tree_node.as_str().get_char(i);
        let ith_insert_frag = insert_node_frag.as_str().get_char(i);
        if ith_curr_tree == ith_insert_frag {
            i = i + 1;
        } else {
            assert(common_prefix_len(curr_in_tree_node@, insert_node_frag@, i as nat) == i);
            break;
        }
    }
    let shared = curr_in_tree_node.as_str().substring_char(0, i);
    (shared.to_string(), i)
}

/// The search for where the id fragment `f` goes, among `children` and
/// below, stays within what the search can do: `f` is not empty, at each
/// level it looks at the fragments are non-empty with distinct first
/// characters (it reads each one's first character, and which of two alike
/// it follows would be left open), and the characters it shares with a
/// fragment it follows are ASCII (they are counted in characters and then
/// used as byte positions, which is right only for ASCII).
pub open spec fn path_ok(children: Seq<NodeView>, f: Seq<char>) -> bool
    decreases f.len(),
{
    &&& f.len() > 0
    &&& children_distinct(children)
    &&& match child_index(children, f[0]) {
        None => true,
        Some(j) => {
            let c = children[j];
            let k = common_prefix_len(c.prefix, f, 0);
            &&& is_ascii_chars(f.take(k as int))
            &&& (0 < k && k >= c.prefix.len() && k < f.len() ==> path_ok(c.children, f.skip(k as int)))
        },
    }
}

/// Inserts the id fragment `f` with entry `d` among `children`.
fn insert_into(children: &mut Vec<StreamNode>, f: String, d: HashMap<String, String>)
    requires
        path_ok(children_view(old(children)@), f@),
    ensures
        children_view(final(children)@) == insert_children(children_view(old(children)@), f@, d@),
    decreases f@.len(),
{
    let ghost cv = children_view(children@);
    assert forall|i: int| 0 <= i < children@.len() implies (#[trigger] children@[i]).prefix@.len() > 0 by {
        assert(cv[i] == children@[i]@);
    }
    let j = match child_with_shared_prefix(children, &f) {
        None => {
            let node = StreamNode::new(f, Some(d));
            children.push(node);
            assert(children_view(children@) =~= cv.push(leaf(f@, d@)));
            return;
        },
        Some(j) => j,
    };
    let ghost c = cv[j as int];
    assert(c == children@[j as int]@);
    let child_prefix = children[j].prefix.clone();
    assert(child_prefix@ == c.prefix);
    let (shared, k) = find_shared_prefix(child_prefix.clone(), f.clone());
    assert(child_index(cv, f@[0]) == Some(j as int));
    assert(k == common_prefix_len(c.prefix, f@, 0));
    proof {
        lemma_common_prefix_len(c.prefix, f@, 0);
    }
    let prefix_len = child_prefix.as_str().unicode_len();
    let f_len = f.as_str().unicode_len();
    if k >= prefix_len {
        if k >= f_len {
            let mut child = children.remove(j);
            child.data = d;
            children.insert(j, child);
            assert(children_view(children@) =~= cv.update(j as int, NodeView { data: d@, ..c }));
        } else {
            let rest = f.as_str().substring_char(k, f_len).to_string();
            let mut child = children.remove(j);
            assert(children_view(child.children@) == c.children);
            insert_into(&mut child.children, rest, d);
            children.insert(j, child);
            assert(f@.skip(k as int) =~= f@.subrange(k as int, f_len as int));
            assert(children_view(children@) =~= cv.update(
                j as int,
                NodeView { children: insert_children(c.children, f@.skip(k as int), d@), ..c },
            ));
        }
    } else {
        let old_child = children.remove(j);
        assert(old_child@ == c);
        let suffix_prefix = child_prefix.as_str().substring_char(k, prefix_len).to_string();
        assert(c.prefix.skip(k as int) =~= c.prefix.subrange(k as int, prefix_len as int));
        let not_shared_suffix_node = StreamNode {
            prefix: suffix_prefix,
            data: old_child.data,
            children: old_child.children,
        };
        assert(not_shared_suffix_node@ == NodeView { prefix: c.prefix.skip(k as int), ..c });
        let insert_node = StreamNode::new(
            f.as_str().substring_char(k, f_len).to_string(),
            Some(d),
        );
        assert(f@.skip(k as int) =~= f@.subrange(k as int, f_len as int));
        assert(insert_node@ == leaf(f@.skip(k as int), d@));
        let ghost gs = not_shared_suffix_node;
        let ghost gi = insert_node;
        let mut intermediate_node = StreamNode::new(shared, None);
        assert(intermediate_node.children@ =~= Seq::<StreamNode>::empty());
        intermediate_node.children.push(not_shared_suffix_node);
        intermediate_node.children.push(insert_node);
        assert(intermediate_node.children@ =~= seq![gs, gi]);
        children.insert(j, intermediate_node);
        assert(c.prefix.skip(k as int) =~= c.prefix.subrange(k as int, prefix_len as int));
        assert(f@.skip(k as int) =~= f@.subrange(k as int, f_len as int));
        assert(children_view(intermediate_node.children@) =~= seq![
            NodeView { prefix: c.prefix.skip(k as int), ..c },
            leaf(f@.skip(k as int), d@),
        ]);
        assert(children_view(children@) =~= cv.update(
            j as int,
            NodeView {
                prefix: c.prefix.take(k as int),
                data: Map::empty(),
                children: seq![
                    NodeView { prefix: c.prefix.skip(k as int), ..c },
                    leaf(f@.skip(k as int), d@),
                ],
            },
        ));
    }
}

/// Inserting an id is in this function's domain: an empty id goes only into
/// a tree whose root has no children (the search for a child reads the
/// first character of the id), and the search for any other id stays within
/// `path_ok` (only the nodes it looks at count).
pub open spec fn insert_ok(root: NodeView, id: Seq<char>) -> bool {
    &&& id.len() == 0 ==> root.children.len() == 0
    &&& id.len() > 0 ==> path_ok(root.children, id)
}

impl Stream {
    /// An empty tree whose last id is "0-0".
    pub fn new() -> (r: Self)
        ensures
            r.root@ == leaf(Seq::empty(), Map::empty()),
            r.last_id@ == "0-0"@,
    {
        let root = StreamNode::new(String::new(), None);
        Stream { root, last_id: String::from_str("0-0") }
    }

    /// Inserts the entry `insert_data` under the id `insert_idx` and records
    /// it as the last id.
    pub fn insert(&mut self, insert_idx: String, insert_data: Option<HashMap<String, String>>)
        requires
            insert_ok(old(self).root@, insert_idx@),
        ensures
            final(self).root@ == (NodeView {
                children: insert_children(
                    old(self).root@.children,
                    insert_idx@,
                    data_or_empty(insert_data),
                ),
                ..old(self).root@
            }),
            final(self).last_id@ == insert_idx@,
            node_wf(old(self).root@) && insert_idx@.len() > 0 && is_ascii_chars(insert_idx@)
                && !ends_inside_fragment(old(self).root@.children, insert_idx@) ==> node_wf(
                final(self).root@,
            ),
    {
        let data = match insert_data {
            Some(m) => m,
            None => HashMap::new(),
        };
        let ghost d = data@;
        let ghost before = old(self).root@;
        if insert_idx.as_str().unicode_len() == 0 {
            let ghost old_children = self.root.children@;
            let node = StreamNode::new(insert_idx.clone(), Some(data));
            self.root.children.push(node);
            assert(children_view(self.root.children@) =~= children_view(old_children).push(
                leaf(insert_idx@, d),
            ));
        } else {
            insert_into(&mut self.root.children, insert_idx.clone(), data);
            proof {
                if node_wf(before) && is_ascii_chars(insert_idx@) && !ends_inside_fragment(
                    before.children,
                    insert_idx@,
                ) {
                    crate::laws::law_stream_insert_keeps_wf(before.children, insert_idx@, d);
                }
            }
        }
        self.last_id = insert_idx;
    }
}

/// The lines that show a tree: the node's fragment after `indent` and a
/// branch mark, then the lines of each child, indented five spaces more.
pub open spec fn tree_lines_spec(n: NodeView, indent: Seq<char>) -> Seq<Seq<char>>
    decreases n, 0int,
{
    seq![indent + " └── "@ + n.prefix] + children_lines(n.children, 0, indent + "     "@)
}

/// The lines of the children from the `i`-th on, one after another.
pub open spec fn children_lines(c: Seq<NodeView>, i: int, indent: Seq<char>) -> Seq<Seq<char>>
    decreases c, c.len() - i,
{
    if i < 0 || i >= c.len() {
        Seq::empty()
    } else {
        tree_lines_spec(c[i], indent) + children_lines(c, i + 1, indent)
    }
}

/// Appends the lines that show the tree below `node` to `out`.
fn push_tree_lines(node: &StreamNode, indent: &String, out: &mut Vec<String>)
    ensures
        texts(final(out)@) == texts(old(out)@) + tree_lines_spec(node@, indent@),
    decreases node,
{
    let ghost o = texts(out@);
    let mut line = indent.clone();
    line.append(" └── ");
    line.append(node.prefix.as_str());
    out.push(line);
    let mut deeper = indent.clone();
    deeper.append("     ");
    let ghost cv = node@.children;
    assert(texts(out@) =~= o + seq![line@]);
    let mut i: usize = 0;
    while i < node.children.len()
        invariant
            i <= node.children@.len(),
            cv == children_view(node.children@),
            cv.len() == node.children@.len(),
            deeper@ == indent@ + "     "@,
            line@ == indent@ + " └── "@ + node@.prefix,
            texts(out@) + children_lines(cv, i as int, deeper@) == o + tree_lines_spec(node@, indent@),
        decreases node.children@.len() - i,
    {
        let ghost before = texts(out@);
        assert(cv[i as int] == node.children@[i as int]@);
        push_tree_lines(&node.children[i], &deeper, out);
        assert(children_lines(cv, i as int, deeper@) == tree_lines_spec(cv[i as int], deeper@)
            + children_lines(cv, i + 1, deeper@));
        assert(texts(out@) + children_lines(cv, i + 1, deeper@) =~= before + children_lines(
            cv,
            i as int,
            deeper@,
        ));
        i = i + 1;
    }
    assert(children_lines(cv, i as int, deeper@) =~= Seq::<Seq<char>>::empty());
    assert(texts(out@) =~= texts(out@) + children_lines(cv, i as int, deeper@));
}

/// The lines that show the tree below `node`, each node's fragment on a line
/// of its own under its parent's, `indent` before the first.
pub fn tree_lines(node: &StreamNode, indent: String) -> (r: Vec<String>)
    ensures
        texts(r@) == tree_lines_spec(node@, indent@),
{
    let mut out: Vec<String> = Vec::new();
    assert(texts(out@) =~= Seq::<Seq<char>>::empty());
    push_tree_lines(node, &indent, &mut out);
    assert(texts(out@) =~= tree_lines_spec(node@, indent@));
    out
}

/// The entry stored under the id fragment `f` among `children`: follow the
/// child whose fragment starts `f`, until `f` is used up exactly at a node.
pub open spec fn lookup_children(children: Seq<NodeView>, f: Seq<char>) -> Option<Map<String, String>>
    decreases f.len(),
{
    if f.len() == 0 {
        None
    } else {
        match child_index(children, f[0]) {
            None => None,
            Some(j) => {
                let c = children[j];
                let n = c.prefix.len();
                if 0 < n <= f.len() && f.take(n as int) == c.prefix {
                    if n == f.len() {
                        Some(c.data)
                    } else {
                        lookup_children(c.children, f.skip(n as int))
                    }
                } else {
                    None
                }
            },
        }
    }
}

/// The id fragment `f` ends inside a fragment of the tree (it is a proper
/// prefix of a fragment it reaches); inserting it then puts its entry on a
/// node with an empty fragment.
pub open spec fn ends_inside_fragment(children: Seq<NodeView>, f: Seq<char>) -> bool
    decreases f.len(),
{
    if f.len() == 0 {
        false
    } else {
        match child_index(children, f[0]) {
            None => false,
            Some(j) => {
                let c = children[j];
                let k = common_prefix_len(c.prefix, f, 0);
                if k >= c.prefix.len() {
                    if k >= f.len() || k == 0 {
                        false
                    } else {
                        ends_inside_fragment(c.children, f.skip(k as int))
                    }
                } else {
                    k == f.len()
                }
            },
        }
    }
}

pub proof fn lemma_child_index_at(cs: Seq<NodeView>, j: int, c: char)
    requires
        0 <= j < cs.len(),
        cs[j].prefix.len() > 0,
        cs[j].prefix[0] == c,
        forall|i: int| 0 <= i < cs.len() && i != j ==> !(cs[i].prefix.len() > 0 && cs[i].prefix[0] == c),
    ensures
        child_index(cs, c) == Some(j),
{
}

} // verus!
