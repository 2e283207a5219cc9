//! What inserting an id into a stream's tree does to the other ids.

use vstd::prelude::*;
use crate::streams::{
    NodeView, insert_children, lookup_children, ends_inside_fragment, children_wf, node_wf,
    children_distinct, child_index, common_prefix_len, lemma_common_prefix_len, lemma_child_index_at,
    leaf, insert_ok,
};

verus! {

/// Replacing a child by one whose fragment starts with the same character
/// leaves every search for a child as it was.
proof fn lemma_child_index_update(cs: Seq<NodeView>, j: int, x: NodeView, c: char)
    requires
        children_distinct(cs),
        0 <= j < cs.len(),
        x.prefix.len() > 0,
        x.prefix[0] == cs[j].prefix[0],
    ensures
        child_index(cs.update(j, x), c) == child_index(cs, c),
{
    let r = cs.update(j, x);
    match child_index(cs, c) {
        Some(i) => {
            assert forall|i2: int| 0 <= i2 < r.len() && i2 != i implies !(r[i2].prefix.len() > 0
                && r[i2].prefix[0] == c) by {
                assert(cs[i2].prefix[0] != cs[i].prefix[0]);
            }
            assert(r[i].prefix.len() > 0 && r[i].prefix[0] == c);
            lemma_child_index_at(r, i, c);
        },
        None => {
            assert forall|i2: int| 0 <= i2 < r.len() implies !(r[i2].prefix.len() > 0 && r[i2].prefix[0]
                == c) by {
                assert(!(cs[i2].prefix.len() > 0 && cs[i2].prefix[0] == c));
            }
        },
    }
}

/// Adding a child whose first character no child has leaves every other
/// search as it was.
proof fn lemma_child_index_push(cs: Seq<NodeView>, x: NodeView, c: char)
    requires
        children_distinct(cs),
        x.prefix.len() > 0,
        child_index(cs, x.prefix[0]) is None,
        c != x.prefix[0],
    ensures
        child_index(cs.push(x), c) == child_index(cs, c),
{
    let r = cs.push(x);
    match child_index(cs, c) {
        Some(i) => {
            assert forall|i2: int| 0 <= i2 < r.len() && i2 != i implies !(r[i2].prefix.len() > 0
                && r[i2].prefix[0] == c) by {
                if i2 < cs.len() {
                    assert(cs[i2].prefix[0] != cs[i].prefix[0]);
                }
            }
            lemma_child_index_at(r, i, c);
        },
        None => {
            assert forall|i2: int| 0 <= i2 < r.len() implies !(r[i2].prefix.len() > 0 && r[i2].prefix[0]
                == c) by {
                if i2 < cs.len() {
                    assert(!(cs[i2].prefix.len() > 0 && cs[i2].prefix[0] == c));
                }
            }
        },
    }
}

/// A fragment that fully matches the start of `b` is their common prefix.
proof fn lemma_prefix_match(a: Seq<char>, b: Seq<char>)
    requires
        a.len() <= b.len(),
        b.take(a.len() as int) == a,
    ensures
        common_prefix_len(a, b, 0) == a.len(),
{
    lemma_common_prefix_len(a, b, 0);
    let k = common_prefix_len(a, b, 0);
    if k < a.len() {
        assert(b.take(a.len() as int)[k as int] == b[k as int]);
    }
}

/// Inserting an id leaves the entry of every other id as it was: for
/// well-formed children and ids `f != g`, neither ending inside a fragment,
/// looking `g` up after inserting `f` gives what it gave before.
pub proof fn law_stream_insert_keeps_others(
    children: Seq<NodeView>,
    f: Seq<char>,
    g: Seq<char>,
    d: Map<String, String>,
)
    requires
        children_wf(children),
        f.len() > 0,
        g.len() > 0,
        f != g,
        !ends_inside_fragment(children, f),
        !ends_inside_fragment(children, g),
    ensures
        lookup_children(insert_children(children, f, d), g) == lookup_children(children, g),
    decreases f.len(),
{
    let r = insert_children(children, f, d);
    match child_index(children, f[0]) {
        None => {
            let x = leaf(f, d);
            assert(r == children.push(x));
            if g[0] == f[0] {
                assert forall|i2: int| 0 <= i2 < r.len() && i2 != children.len() implies !(
                r[i2].prefix.len() > 0 && r[i2].prefix[0] == g[0]) by {
                    assert(r[i2] == children[i2]);
                }
                lemma_child_index_at(r, children.len() as int, g[0]);
                assert(child_index(r, g[0]) == Some(children.len() as int));
                assert(r[children.len() as int] == x);
                assert(lookup_children(children, g) is None);
                if f.len() <= g.len() && g.take(f.len() as int) == f {
                    if f.len() == g.len() {
                        assert(g =~= g.take(f.len() as int));
                    } else {
                        let g2 = g.skip(f.len() as int);
                        assert(child_index(Seq::<NodeView>::empty(), g2[0]) is None);
                        assert(lookup_children(x.children, g2) is None);
                        assert(lookup_children(r, g) == lookup_children(x.children, g2));
                    }
                } else {
                    assert(lookup_children(r, g) is None);
                }
                assert(lookup_children(r, g) == lookup_children(children, g));
            } else {
                lemma_child_index_push(children, x, g[0]);
                if let Some(i) = child_index(children, g[0]) {
                    assert(r[i] == children[i]);
                }
                assert(lookup_children(r, g) == lookup_children(children, g));
            }
        },
        Some(j) => {
            let c = children[j];
            assert(c.prefix.len() > 0 && c.prefix[0] == f[0]);
            assert(node_wf(c));
            let k = common_prefix_len(c.prefix, f, 0);
            lemma_common_prefix_len(c.prefix, f, 0);
            assert(k >= 1);
            let plen = c.prefix.len();
            let x = r[j];
            assert(r == children.update(j, x));
            assert(x.prefix.len() > 0 && x.prefix[0] == c.prefix[0]);
            lemma_child_index_update(children, j, x, g[0]);
            if g[0] != f[0] {
                if let Some(i) = child_index(children, g[0]) {
                    assert(i != j);
                    assert(r[i] == children[i]);
                }
                assert(lookup_children(r, g) == lookup_children(children, g));
            } else {
                lemma_child_index_at(children, j, g[0]);
                let cond_a = plen <= g.len() && g.take(plen as int) == c.prefix;
                if k >= plen {
                    assert(k == plen);
                    if k >= f.len() {
                        assert(f =~= c.prefix);
                        assert(x == NodeView { data: d, ..c });
                        if cond_a && plen == g.len() {
                            assert(g =~= g.take(plen as int));
                        }
                        assert(lookup_children(r, g) == lookup_children(children, g));
                    } else {
                        assert(f.take(plen as int) =~= c.prefix);
                        if cond_a && plen < g.len() {
                            let f2 = f.skip(plen as int);
                            let g2 = g.skip(plen as int);
                            assert(f2 != g2) by {
                                if f2 == g2 {
                                    assert(f =~= c.prefix + f2);
                                    assert(g =~= c.prefix + g2);
                                }
                            }
                            lemma_prefix_match(c.prefix, g);
                            assert(!ends_inside_fragment(c.children, g2));
                            assert(!ends_inside_fragment(c.children, f2));
                            law_stream_insert_keeps_others(c.children, f2, g2, d);
                        }
                        assert(lookup_children(r, g) == lookup_children(children, g));
                    }
                } else {
                    assert(k < f.len());
                    let p = c.prefix.take(k as int);
                    let sfx = NodeView { prefix: c.prefix.skip(k as int), ..c };
                    let lf = leaf(f.skip(k as int), d);
                    let kids = seq![sfx, lf];
                    assert(x == NodeView { prefix: p, data: Map::empty(), children: kids });
                    assert(c.prefix[k as int] != f[k as int]);
                    assert(sfx.prefix[0] == c.prefix[k as int]);
                    assert(lf.prefix[0] == f[k as int]);
                    let cond_b = k <= g.len() && g.take(k as int) == p;
                    if cond_a {
                        assert(g.take(k as int) =~= p);
                        let g1 = g.skip(k as int);
                        assert(g1[0] == c.prefix[k as int]) by {
                            assert(g.take(plen as int)[k as int] == g[k as int]);
                        }
                        lemma_child_index_at(kids, 0, g1[0]);
                        assert(g1.take((plen - k) as int) =~= sfx.prefix) by {
                            assert forall|i: int| 0 <= i < plen - k implies g1.take((plen - k) as int)[i]
                                == sfx.prefix[i] by {
                                assert(g.take(plen as int)[i + k] == g[i + k]);
                            }
                        }
                        assert(child_index(r, g[0]) == Some(j));
                        assert(k < g.len());
                        assert(lookup_children(r, g) == lookup_children(kids, g1));
                        assert(kids[0] == sfx);
                        if plen == g.len() {
                            assert(g =~= g.take(plen as int));
                            assert(lookup_children(kids, g1) == Some(c.data));
                        } else {
                            assert(g1.skip((plen - k) as int) =~= g.skip(plen as int));
                            assert(lookup_children(kids, g1) == lookup_children(c.children, g.skip(plen as int)));
                        }
                        assert(lookup_children(r, g) == lookup_children(children, g));
                    } else if cond_b {
                        assert(lookup_children(children, g) is None);
                        if k == g.len() {
                            assert(g =~= p);
                            lemma_common_prefix_len(c.prefix, g, 0);
                            let kg = common_prefix_len(c.prefix, g, 0);
                            if kg < g.len() {
                                assert(g[kg as int] == c.prefix[kg as int]);
                            }
                            assert(ends_inside_fragment(children, g));
                        } else {
                            let g1 = g.skip(k as int);
                            assert(child_index(r, g[0]) == Some(j));
                            assert(lookup_children(r, g) == lookup_children(kids, g1));
                            if g1[0] == sfx.prefix[0] {
                                lemma_child_index_at(kids, 0, g1[0]);
                                assert(kids[0] == sfx);
                                if plen - k <= g1.len() && g1.take((plen - k) as int) == sfx.prefix {
                                    assert(g.take(plen as int) =~= c.prefix) by {
                                        assert forall|i: int| 0 <= i < plen implies g.take(plen as int)[i]
                                            == c.prefix[i] by {
                                            if i < k {
                                                assert(g.take(k as int)[i] == g[i]);
                                                assert(p[i] == c.prefix[i]);
                                            } else {
                                                assert(g1.take((plen - k) as int)[i - k] == g[i]);
                                            }
                                        }
                                    }
                                }
                                assert(lookup_children(kids, g1) is None);
                            } else if g1[0] == lf.prefix[0] {
                                lemma_child_index_at(kids, 1, g1[0]);
                                assert(kids[1] == lf);
                                let m = lf.prefix.len();
                                if m <= g1.len() && g1.take(m as int) == lf.prefix {
                                    if m == g1.len() {
                                        assert(g =~= f) by {
                                            assert forall|i: int| 0 <= i < g.len() implies g[i] == f[i] by {
                                                if i < k {
                                                    assert(g.take(k as int)[i] == g[i]);
                                                    assert(p[i] == c.prefix[i]);
                                                } else {
                                                    assert(g1.take(m as int)[i - k] == g[i]);
                                                }
                                            }
                                        }
                                    } else {
                                        let g3 = g1.skip(m as int);
                                        assert(child_index(Seq::<NodeView>::empty(), g3[0]) is None);
                                        assert(lookup_children(lf.children, g3) is None);
                                    }
                                }
                                assert(lookup_children(kids, g1) is None);
                            } else {
                                assert(child_index(kids, g1[0]) is None);
                                assert(lookup_children(kids, g1) is None);
                            }
                        }
                    } else {
                        assert(lookup_children(children, g) is None);
                        assert(child_index(r, g[0]) == Some(j));
                        assert(lookup_children(r, g) is None);
                    }
                }
            }
        },
    }
}

/// At the root of a stream: inserting an id leaves the entry of every other
/// id as it was.
pub proof fn law_stream_insert_keeps_other_ids(root: NodeView, f: Seq<char>, g: Seq<char>, d: Map<String, String>)
    requires
        node_wf(root),
        insert_ok(root, f),
        f.len() > 0,
        g.len() > 0,
        f != g,
        !ends_inside_fragment(root.children, f),
        !ends_inside_fragment(root.children, g),
    ensures
        lookup_children(insert_children(root.children, f, d), g) == lookup_children(root.children, g),
{
    law_stream_insert_keeps_others(root.children, f, g, d);
}

} // verus!
