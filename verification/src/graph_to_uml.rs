use vstd::prelude::*;
use vstd::string::StrSliceExecFns;
use vstd::string::StringExecFns;

use crate::graph::{Graph, GraphError, NodeKey};
use crate::module::PythonModule;
use crate::text::views_of;
use crate::tree::{has_path, insert, insert_shape, is_max_chain, is_seq_prefix, leaf_names,
    lemma_leaf_characterization, tree_wf, TreeNode};

verus! {

// ---------------------------------------------------------------------------
// Grouping graph nodes into the package tree.
// ---------------------------------------------------------------------------

/// The first `i` package segments of a module that are nonempty.
pub open spec fn nonempty_segs(ps: Seq<Seq<char>>, i: int) -> Seq<Seq<char>>
    decreases i,
{
    if i <= 0 || i > ps.len() {
        Seq::empty()
    } else {
        nonempty_segs(ps, i - 1) + if ps[i - 1].len() > 0 {
            seq![ps[i - 1]]
        } else {
            Seq::empty()
        }
    }
}

/// The tree path of a module: its nonempty package segments, then its name.
pub open spec fn node_tree_path(n: PythonModule) -> Seq<Seq<char>> {
    nonempty_segs(views_of(n.packages@), n.packages@.len() as int) + seq![n.name@]
}

/// `post` is the tree grown from `pre` by inserting, in order, the tree
/// path of every node of `nodes` from position `i` on.
pub open spec fn built_from(
    nodes: Seq<PythonModule>,
    i: int,
    pre: TreeNode,
    post: TreeNode,
) -> bool
    decreases nodes.len() - i,
{
    if i < 0 || i >= nodes.len() {
        post == pre
    } else {
        exists|mid: TreeNode| #[trigger] insert_shape(pre, mid, node_tree_path(nodes[i]), 0)
            && built_from(nodes, i + 1, mid, post)
    }
}

/// `t` is the tree the grouping builds: every node's tree path inserted in
/// node order below a childless synthetic root.
pub open spec fn built_from_root(nodes: Seq<PythonModule>, t: TreeNode) -> bool {
    exists|root0: TreeNode| root0.value@ == "pygrader"@ && root0.children@.len() == 0
        && #[trigger] built_from(nodes, 0, root0, t)
}

/// The built tree holds exactly the chains that are prefixes of some graph
/// node's tree path./// The built tree holds exactly the chains that are prefixes of some graph
/// node's tree path.
pub open spec fn tree_matches_graph(t: TreeNode, g: Graph<PythonModule>) -> bool {
    forall|p: Seq<Seq<char>>| #[trigger] has_path(t, p) <==> p.len() == 0 || exists|i: int|
        0 <= i < g.nodes_seq().len() && is_seq_prefix(p, node_tree_path(#[trigger] g.nodes_seq()[i]))
}

/// Group every node of the dependency graph under a synthetic root: insert
/// each node's nonempty package segments followed by its name, in node
/// order.
#[verifier::loop_isolation(false)]
pub fn build_tree_from_dependency_graph(graph: &Graph<PythonModule>) -> (t: TreeNode)
    ensures
        tree_wf(t),
        t.value@ == "pygrader"@,
        built_from_root(graph.nodes_seq(), t),
        tree_matches_graph(t, *graph),
{
    let mut root = TreeNode::new(String::from_str("pygrader"));
    let ghost root0 = root;
    proof {
        assert forall|p: Seq<Seq<char>>| #[trigger] has_path(root, p) implies p.len() == 0 by {
            if p.len() >= 1 {
                assert(!has_path(root, p));
            }
        }
    }
    let nodes = graph.get_nodes();
    let mut ni: usize = 0;
    while ni < nodes.len()
        invariant
            0 <= ni <= nodes@.len(),
            nodes@ == graph.nodes_seq(),
            tree_wf(root),
            root.value@ == "pygrader"@,
            root0.value@ == "pygrader"@ && root0.children@.len() == 0,
            forall|ft: TreeNode| #[trigger] built_from(nodes@, ni as int, root, ft)
                ==> built_from(nodes@, 0, root0, ft),
            forall|p: Seq<Seq<char>>| #[trigger] has_path(root, p) <==> p.len() == 0 || exists|
                i: int,
            |
                0 <= i < ni && is_seq_prefix(p, node_tree_path(#[trigger] nodes@[i])),
        decreases nodes@.len() - ni,
    {
        let node = &nodes[ni];
        let mut packages: Vec<String> = Vec::new();
        let n_pkgs = node.packages.len();
        let mut pi: usize = 0;
        while pi < n_pkgs
            invariant
                0 <= pi <= n_pkgs,
                n_pkgs == node.packages@.len(),
                views_of(packages@) == nonempty_segs(views_of(node.packages@), pi as int),
            decreases n_pkgs - pi,
        {
            if !node.packages[pi].as_str().is_empty() {
                let ghost pre = packages@;
                packages.push(node.packages[pi].clone());
                proof {
                    assert(views_of(packages@) =~= views_of(pre).push(views_of(node.packages@)[
                        pi as int]));
                }
            } else {
                proof {
                    assert(views_of(packages@) + Seq::<Seq<char>>::empty() =~= views_of(
                        packages@,
                    ));
                }
            }
            pi = pi + 1;
        }
        packages.push(node.name.clone());
        proof {
            assert(views_of(packages@) =~= node_tree_path(nodes@[ni as int]));
        }
        let ghost pre_root = root;
        insert(&mut root, packages);
        proof {
            assert forall|ft: TreeNode| #[trigger] built_from(nodes@, ni as int + 1, root, ft)
                implies built_from(nodes@, 0, root0, ft) by {
                assert(insert_shape(pre_root, root, node_tree_path(nodes@[ni as int]), 0));
                assert(built_from(nodes@, ni as int, pre_root, ft));
            }
            assert forall|p: Seq<Seq<char>>| #[trigger] has_path(root, p) implies p.len() == 0
                || exists|i: int|
                0 <= i < ni + 1 && is_seq_prefix(p, node_tree_path(#[trigger] nodes@[i])) by {
                if p.len() >= 1 {
                    if has_path(pre_root, p) {
                        let i = choose|i: int| 0 <= i < ni && is_seq_prefix(
                            p,
                            node_tree_path(#[trigger] nodes@[i]),
                        );
                        assert(is_seq_prefix(p, node_tree_path(nodes@[i])));
                    } else {
                        assert(is_seq_prefix(p, node_tree_path(nodes@[ni as int])));
                    }
                }
            }
            assert forall|p: Seq<Seq<char>>|
                p.len() == 0 || exists|i: int|
                    0 <= i < ni + 1 && is_seq_prefix(
                        p,
                        node_tree_path(#[trigger] nodes@[i]),
                    ) implies #[trigger] has_path(root, p) by {
                if p.len() >= 1 {
                    let i = choose|i: int| 0 <= i < ni + 1 && is_seq_prefix(
                        p,
                        node_tree_path(#[trigger] nodes@[i]),
                    );
                    if i < ni {
                        assert(has_path(pre_root, p));
                    }
                }
            }
        }
        ni = ni + 1;
    }
    proof {
        assert(built_from(nodes@, nodes@.len() as int, root, root));
        assert(built_from(nodes@, 0, root0, root));
    }
    root
}

/// No module's tree path runs deeper along another's: any prefix relation
/// between two node paths makes them the same path.
pub open spec fn paths_prefix_free(g: Graph<PythonModule>) -> bool {
    forall|i: int, j: int| 0 <= i < g.nodes_seq().len() && 0 <= j < g.nodes_seq().len()
        && is_seq_prefix(
        node_tree_path(#[trigger] g.nodes_seq()[i]),
        node_tree_path(#[trigger] g.nodes_seq()[j]),
    ) ==> node_tree_path(g.nodes_seq()[i]).len() == node_tree_path(g.nodes_seq()[j]).len()
}

/// A module's tree path is a nonempty chain of the matching tree, ending in
/// the module's name.
pub proof fn lemma_node_path_chain(t: TreeNode, g: Graph<PythonModule>, i: int)
    requires
        tree_matches_graph(t, g),
        0 <= i < g.nodes_seq().len(),
    ensures
        has_path(t, node_tree_path(g.nodes_seq()[i])),
        node_tree_path(g.nodes_seq()[i]).len() >= 1,
        node_tree_path(g.nodes_seq()[i]).last() == g.nodes_seq()[i].name@,
{
    let path = node_tree_path(g.nodes_seq()[i]);
    assert(path.last() == seq![g.nodes_seq()[i].name@][0]);
    assert(path =~= path.take(path.len() as int));
    assert(is_seq_prefix(path, node_tree_path(g.nodes_seq()[i])));
}

/// Each leaf of the matching tree is the name of some module.
#[verifier::rlimit(50)]
pub proof fn lemma_leaf_is_module_name(t: TreeNode, g: Graph<PythonModule>, n: Seq<char>)
    requires
        tree_wf(t),
        tree_matches_graph(t, g),
        g.nodes_seq().len() >= 1,
        leaf_names(t).contains(n),
    ensures
        exists|i: int| 0 <= i < g.nodes_seq().len() && n == (#[trigger] g.nodes_seq()[i]).name@,
{
    lemma_node_path_chain(t, g, 0);
    assert(t.children@.len() > 0);
    lemma_leaf_characterization(t, n);
    let p = choose|p: Seq<Seq<char>>| p.len() >= 1 && #[trigger] is_max_chain(t, p) && p.last()
        == n;
    assert(has_path(t, p));
    let j = choose|j: int| 0 <= j < g.nodes_seq().len() && is_seq_prefix(
        p,
        node_tree_path(#[trigger] g.nodes_seq()[j]),
    );
    let pj = node_tree_path(g.nodes_seq()[j]);
    if p.len() < pj.len() {
        let ext = p.push(pj[p.len() as int]);
        assert(ext =~= pj.take(p.len() as int + 1));
        assert(is_seq_prefix(ext, pj));
        assert(has_path(t, ext));
        assert(false);
    }
    lemma_node_path_chain(t, g, j);
    assert(p =~= pj);
    assert(n == g.nodes_seq()[j].name@);
}

/// Each module's name is a leaf of the matching tree, provided no module's
/// tree path is a proper prefix of another's.
#[verifier::rlimit(50)]
pub proof fn lemma_module_name_is_leaf(t: TreeNode, g: Graph<PythonModule>, i: int)
    requires
        tree_wf(t),
        tree_matches_graph(t, g),
        paths_prefix_free(g),
        0 <= i < g.nodes_seq().len(),
    ensures
        leaf_names(t).contains(g.nodes_seq()[i].name@),
{
    lemma_node_path_chain(t, g, i);
    let n = g.nodes_seq()[i].name@;
    let p = node_tree_path(g.nodes_seq()[i]);
    assert forall|q: Seq<char>| !has_path(t, #[trigger] p.push(q)) by {
        if has_path(t, p.push(q)) {
            let j = choose|j: int| 0 <= j < g.nodes_seq().len() && is_seq_prefix(
                p.push(q),
                node_tree_path(#[trigger] g.nodes_seq()[j]),
            );
            let pj = node_tree_path(g.nodes_seq()[j]);
            assert(p.push(q) =~= pj.take(p.len() as int + 1));
            assert forall|m: int| 0 <= m < p.len() implies p[m] == pj.take(p.len() as int)[
                m] by {
                assert(p[m] == p.push(q)[m]);
            }
            assert(p =~= pj.take(p.len() as int));
            assert(is_seq_prefix(p, pj));
            assert(p.len() == pj.len());
            assert(p.push(q).len() <= pj.len());
            assert(false);
        }
    }
    assert(p.len() >= 1 && is_max_chain(t, p) && p.last() == n);
    lemma_leaf_characterization(t, n);
}

/// The round trip of the grouping, at the level of leaves: when no module's
/// tree path is a proper prefix of another's, the leaf values of the built
/// tree are exactly the module names of the graph, nothing lost and nothing
/// duplicated.
pub proof fn lemma_package_tree_leaf_round_trip(t: TreeNode, g: Graph<PythonModule>)
    requires
        tree_wf(t),
        tree_matches_graph(t, g),
        g.nodes_seq().len() >= 1,
        paths_prefix_free(g),
    ensures
        forall|n: Seq<char>| #[trigger] leaf_names(t).contains(n) <==> exists|i: int|
            0 <= i < g.nodes_seq().len() && n == (#[trigger] g.nodes_seq()[i]).name@,
{
    assert forall|n: Seq<char>| #[trigger] leaf_names(t).contains(n) implies exists|i: int|
        0 <= i < g.nodes_seq().len() && n == (#[trigger] g.nodes_seq()[i]).name@ by {
        lemma_leaf_is_module_name(t, g, n);
    }
    assert forall|n: Seq<char>|
        (exists|i: int| 0 <= i < g.nodes_seq().len() && n == (
        #[trigger] g.nodes_seq()[i]).name@) implies #[trigger] leaf_names(t).contains(n) by {
        let i = choose|i: int| 0 <= i < g.nodes_seq().len() && n == (
        #[trigger] g.nodes_seq()[i]).name@;
        lemma_module_name_is_leaf(t, g, i);
    }
}

// ---------------------------------------------------------------------------
// Rendering.
// ---------------------------------------------------------------------------

/// The fixed style preamble of every dependency diagram.
pub open spec fn style_lines() -> Seq<Seq<char>> {
    seq![
        "skinparam packageStyle rectangle"@,
        "skinparam linetype ortho"@,
        "skinparam class {"@,
        "    BackgroundColor White"@,
        "    BorderColor Black"@,
        "}"@,
        "left to right direction"@,
    ]
}

/// Emit the fixed style preamble.
pub fn declare_diagram_style() -> (r: Vec<String>)
    ensures
        views_of(r@) == style_lines(),
{
    let mut result: Vec<String> = Vec::new();
    result.push(String::from_str("skinparam packageStyle rectangle"));
    result.push(String::from_str("skinparam linetype ortho"));
    result.push(String::from_str("skinparam class {"));
    result.push(String::from_str("    BackgroundColor White"));
    result.push(String::from_str("    BorderColor Black"));
    result.push(String::from_str("}"));
    result.push(String::from_str("left to right direction"));
    proof {
        assert(views_of(result@) =~= style_lines());
    }
    result
}


/// The ten edge colors, cycled per start node.
pub open spec fn color_views() -> Seq<Seq<char>> {
    seq![
        "#1f77b4"@,
        "#ff7f0e"@,
        "#2ca02c"@,
        "#d62728"@,
        "#9467bd"@,
        "#8c564b"@,
        "#e377c2"@,
        "#7f7f7f"@,
        "#bcbd22"@,
        "#17becf"@,
    ]
}

/// The rendered connection for the `k`-th edge of node `i`.
pub open spec fn edge_line(g: Graph<PythonModule>, i: int, k: int) -> Seq<char> {
    "[\""@ + g.nodes_seq()[i].name@ + "\"] -["@ + color_views()[k % 10] + "]-> [\""@
        + g.nodes_seq()[g.adj_seq()[i][k]].name@ + "\"]"@
}

/// The connection lines of the first `k` edges of node `i`.
pub open spec fn node_conn_lines(g: Graph<PythonModule>, i: int, k: int) -> Seq<Seq<char>>
    decreases k,
{
    if k <= 0 || k > g.adj_seq()[i].len() {
        Seq::empty()
    } else {
        node_conn_lines(g, i, k - 1) + seq![edge_line(g, i, k - 1)]
    }
}

/// The connection lines of the first `i` nodes: each node with outgoing
/// edges contributes its lines and one blank line; the others contribute
/// nothing.
pub open spec fn conn_lines(g: Graph<PythonModule>, i: int) -> Seq<Seq<char>>
    decreases i,
{
    if i <= 0 || i > g.nodes_seq().len() {
        Seq::empty()
    } else {
        conn_lines(g, i - 1) + if g.adj_seq()[i - 1].len() > 0 {
            node_conn_lines(g, i - 1, g.adj_seq()[i - 1].len() as int) + seq![
                Seq::<char>::empty(),
            ]
        } else {
            Seq::empty()
        }
    }
}

/// Render one connection line per edge, colors cycled per start node, with
/// a blank line after each start node that has edges.
#[verifier::loop_isolation(false)]
pub fn declare_connections(graph: &Graph<PythonModule>, colors: Vec<&str>) -> (r: Vec<String>)
    requires
        graph.wf(),
        colors@.map_values(|c: &str| c@) == color_views(),
    ensures
        views_of(r@) == conn_lines(*graph, graph.nodes_seq().len() as int),
{
    let mut result: Vec<String> = Vec::new();
    proof {
        assert(colors@.map_values(|c: &str| c@).len() == 10);
        assert(colors@.len() == 10);
    }
    let nodes = graph.get_nodes();
    let mut i: usize = 0;
    while i < nodes.len()
        invariant
            0 <= i <= nodes@.len(),
            nodes@ == graph.nodes_seq(),
            views_of(result@) == conn_lines(*graph, i as int),
        decreases nodes@.len() - i,
    {
        let node = &nodes[i];
        proof {
            node.keq_refl();
            graph.lemma_index_unique(*node, i as int);
        }
        match graph.get_edges(node) {
            Ok(edges) if edges.len() > 0 => {
                let mut k: usize = 0;
                let ghost block_start = result@;
                while k < edges.len()
                    invariant
                        0 <= k <= edges@.len(),
                        nodes@ == graph.nodes_seq(),
                        i < nodes@.len(),
                        graph.index_of(nodes@[i as int]) == i as int,
                        edges@.len() == graph.adj_seq()[i as int].len(),
                        forall|m: int| 0 <= m < edges@.len() ==> graph.nodes_seq()[graph.adj_seq()[
                            i as int][m]].keq(&#[trigger] edges@[m]) && edges@[m].keq(
                            &graph.nodes_seq()[graph.adj_seq()[i as int][m]],
                        ),
                        views_of(result@) == views_of(block_start) + node_conn_lines(
                            *graph,
                            i as int,
                            k as int,
                        ),
                    decreases edges@.len() - k,
                {
                    let mut line = String::from_str("[\"");
                    line.append(node.get_name().as_str());
                    line.append("\"] -[");
                    line.append(colors[k % colors.len()]);
                    line.append("]-> [\"");
                    line.append(edges[k].get_name().as_str());
                    line.append("\"]");
                    let ghost pre = result@;
                    result.push(line);
                    proof {
                        assert(colors@.len() == 10);
                        assert(colors@.map_values(|c: &str| c@)[(k % 10) as int] == color_views()[(
                        k % 10) as int]);
                        assert(edges@[k as int].name@ == graph.nodes_seq()[graph.adj_seq()[
                            i as int][k as int]].name@);
                        assert(views_of(result@) =~= views_of(pre).push(edge_line(*graph,
                            i as int, k as int)));
                    }
                    k = k + 1;
                }
                let ghost pre3 = result@;
                result.push(String::new());
                proof {
                    assert(views_of(result@) =~= views_of(pre3).push(Seq::<char>::empty()));
                    assert(views_of(result@) =~= views_of(block_start) + (node_conn_lines(*graph,
                        i as int, graph.adj_seq()[i as int].len() as int) + seq![
                        Seq::<char>::empty(),
                    ]));
                }
            },
            Ok(_) => {
                proof {
                    assert(graph.adj_seq()[i as int].len() == 0);
                    assert(views_of(result@) + Seq::<Seq<char>>::empty() =~= views_of(result@));
                }
            },
            Err(_) => {
                proof {
                    assert(graph.contains_node(nodes@[i as int]));
                    assert(false);
                }
            },
        }
        i = i + 1;
    }
    result
}

// ---------------------------------------------------------------------------
// Rendering the package tree.
// ---------------------------------------------------------------------------

/// The lines of one subtree at a given indentation: a leaf renders as one
/// bracketed module line; an inner node opens a package block, renders its
/// children in reverse insertion order, one indentation step deeper, and
/// closes the block. Reverse order is the fixed, documented convention.
pub open spec fn pkg_lines(t: TreeNode, ind: Seq<char>) -> Seq<Seq<char>>
    decreases t, 0nat,
{
    if t.children@.len() == 0 {
        seq![ind + "[\""@ + t.value@ + "\"]"@]
    } else {
        seq![ind + "package \""@ + t.value@ + "\" {"@] + rev_child_lines(
            t.children@,
            t.children@.len() as int,
            ind + "    "@,
        ) + seq![ind + "}"@]
    }
}

/// The lines of the children at positions below `i`, last first.
pub open spec fn rev_child_lines(cs: Seq<TreeNode>, i: int, ind: Seq<char>) -> Seq<Seq<char>>
    decreases cs, i + 1,
{
    if i <= 0 || i > cs.len() {
        Seq::empty()
    } else {
        pkg_lines(cs[i - 1], ind) + rev_child_lines(cs, i - 1, ind)
    }
}

/// Render one subtree at the given indentation into `buffer`.
#[verifier::loop_isolation(false)]
fn render_packages(root: &TreeNode, indent: &String, buffer: &mut Vec<String>)
    ensures
        views_of(final(buffer)@) == views_of(old(buffer)@) + pkg_lines(*root, indent@),
    decreases *root,
{
    if root.children.len() == 0 {
        let mut line = indent.clone();
        line.append("[\"");
        line.append(root.value.as_str());
        line.append("\"]");
        let ghost pre = buffer@;
        buffer.push(line);
        proof {
            assert(views_of(buffer@) =~= views_of(pre) + pkg_lines(*root, indent@));
        }
    } else {
        let mut line = indent.clone();
        line.append("package \"");
        line.append(root.value.as_str());
        line.append("\" {");
        let ghost pre = buffer@;
        buffer.push(line);
        proof {
            assert(views_of(buffer@) =~= views_of(pre) + seq![
                indent@ + "package \""@ + root.value@ + "\" {"@,
            ]);
        }
        let deeper = indent.clone().concat("    ");
        let n = root.children.len();
        let mut i: usize = n;
        while i > 0
            invariant
                0 <= i <= n,
                n == root.children@.len(),
                deeper@ == indent@ + "    "@,
                views_of(buffer@) == views_of(pre) + seq![
                    indent@ + "package \""@ + root.value@ + "\" {"@,
                ] + rev_child_lines(root.children@, n as int, deeper@).take(
                    rev_child_lines(root.children@, n as int, deeper@).len() - rev_child_lines(
                        root.children@,
                        i as int,
                        deeper@,
                    ).len(),
                ),
            decreases i,
        {
            proof {
                assert(decreases_to!(*root => root.children));
                assert(decreases_to!(root.children => root.children@));
                assert(decreases_to!(root.children@ => root.children@[i - 1]));
                lemma_rev_child_lines_split(root.children@, i as int, deeper@);
            }
            render_packages(&root.children[i - 1], &deeper, buffer);
            i = i - 1;
        }
        proof {
            lemma_rev_child_lines_len(root.children@, n as int, deeper@);
            assert(rev_child_lines(root.children@, 0, deeper@) == Seq::<Seq<char>>::empty());
            assert(rev_child_lines(root.children@, n as int, deeper@).take(rev_child_lines(
                root.children@,
                n as int,
                deeper@,
            ).len() as int) =~= rev_child_lines(root.children@, n as int, deeper@));
        }
        let mut close = indent.clone();
        close.append("}");
        let ghost pre2 = buffer@;
        buffer.push(close);
        proof {
            assert(views_of(buffer@) =~= views_of(pre2) + seq![indent@ + "}"@]);
            assert(views_of(buffer@) =~= views_of(old(buffer)@) + pkg_lines(*root, indent@));
        }
    }
}

/// The suffix decomposition of the reversed child lines: rendering child
/// `i - 1` extends the prefix already rendered.
pub proof fn lemma_rev_child_lines_split(cs: Seq<TreeNode>, i: int, ind: Seq<char>)
    requires
        1 <= i <= cs.len(),
    ensures
        rev_child_lines(cs, cs.len() as int, ind).take(
            rev_child_lines(cs, cs.len() as int, ind).len() - rev_child_lines(cs, i, ind).len(),
        ) + pkg_lines(cs[i - 1], ind) =~= rev_child_lines(cs, cs.len() as int, ind).take(
            rev_child_lines(cs, cs.len() as int, ind).len() - rev_child_lines(
                cs,
                i - 1,
                ind,
            ).len(),
        ),
    decreases cs.len() - i,
{
    lemma_rev_prefix(cs, cs.len() as int, i, ind);
    lemma_rev_prefix(cs, cs.len() as int, i - 1, ind);
}

/// The whole reversed rendering splits at any `i` into the part above and
/// the part below.
pub proof fn lemma_rev_prefix(cs: Seq<TreeNode>, top: int, i: int, ind: Seq<char>)
    requires
        0 <= i <= top <= cs.len(),
    ensures
        rev_child_lines(cs, top, ind) == rev_child_lines(cs, top, ind).take(
            rev_child_lines(cs, top, ind).len() - rev_child_lines(cs, i, ind).len(),
        ) + rev_child_lines(cs, i, ind),
        rev_child_lines(cs, i, ind).len() <= rev_child_lines(cs, top, ind).len(),
    decreases top - i,
{
    if i == top {
        assert(rev_child_lines(cs, top, ind).take(0) =~= Seq::<Seq<char>>::empty());
        assert(rev_child_lines(cs, top, ind).take(rev_child_lines(cs, top, ind).len()
            - rev_child_lines(cs, i, ind).len()) + rev_child_lines(cs, i, ind) =~= rev_child_lines(
            cs,
            top,
            ind,
        ));
    } else {
        lemma_rev_prefix(cs, top, i + 1, ind);
        assert(rev_child_lines(cs, i + 1, ind) == pkg_lines(cs[i], ind) + rev_child_lines(
            cs,
            i,
            ind,
        ));
        assert(rev_child_lines(cs, top, ind).take(rev_child_lines(cs, top, ind).len()
            - rev_child_lines(cs, i, ind).len()) + rev_child_lines(cs, i, ind) =~= rev_child_lines(
            cs,
            top,
            ind,
        ));
    }
}

/// The rendering of no children is empty.
pub proof fn lemma_rev_child_lines_len(cs: Seq<TreeNode>, i: int, ind: Seq<char>)
    requires
        0 <= i <= cs.len(),
    ensures
        rev_child_lines(cs, 0, ind) == Seq::<Seq<char>>::empty(),
{
}

/// The indentation of a nesting level: four spaces per level.
pub open spec fn spaces4(level: int) -> Seq<char>
    decreases level,
{
    if level <= 0 {
        Seq::empty()
    } else {
        spaces4(level - 1) + "    "@
    }
}

/// Render the package tree into `buffer`, starting at the given nesting
/// level.
#[verifier::loop_isolation(false)]
pub fn declare_modules_into_packages(root: &TreeNode, level: usize, buffer: &mut Vec<String>)
    ensures
        views_of(final(buffer)@) == views_of(old(buffer)@) + pkg_lines(
            *root,
            spaces4(level as int),
        ),
{
    let mut indent = String::new();
    let mut l: usize = 0;
    while l < level
        invariant
            0 <= l <= level,
            indent@ == spaces4(l as int),
        decreases level - l,
    {
        indent.append("    ");
        l = l + 1;
    }
    render_packages(root, &indent, buffer);
}


/// The opening lines of every dependency diagram.
pub open spec fn diagram_head_lines() -> Seq<Seq<char>> {
    seq!["@startuml"@, Seq::<char>::empty()] + style_lines() + seq![Seq::<char>::empty()]
}

/// `block` is the rendering of the package tree the grouping builds: a
/// well-formed tree grown below the synthetic root by inserting every
/// node's tree path in node order, whose chains are exactly the prefixes of
/// the graph nodes' tree paths.
pub open spec fn is_package_block(g: Graph<PythonModule>, block: Seq<Seq<char>>) -> bool {
    exists|t: TreeNode| tree_wf(t) && t.value@ == "pygrader"@ && built_from_root(
        g.nodes_seq(),
        t,
    ) && tree_matches_graph(t, g) && block == pkg_lines(t, Seq::<char>::empty())
}

/// Render the dependency diagram: the opening tag and style preamble, the
/// package tree grouping of all modules, a blank line, one connection line
/// per edge, and the closing tag.
pub fn generate_plantuml(graph: &Graph<PythonModule>) -> (r: Vec<String>)
    requires
        graph.wf(),
    ensures
        exists|block: Seq<Seq<char>>|
            #![trigger is_package_block(*graph, block)]
            is_package_block(*graph, block) && views_of(r@) == diagram_head_lines() + block + seq![
                Seq::<char>::empty(),
            ] + conn_lines(*graph, graph.nodes_seq().len() as int) + seq!["@enduml"@],
{
    let colors: Vec<&str> = vec![
        "#1f77b4",
        "#ff7f0e",
        "#2ca02c",
        "#d62728",
        "#9467bd",
        "#8c564b",
        "#e377c2",
        "#7f7f7f",
        "#bcbd22",
        "#17becf",
    ];
    proof {
        assert(colors@.map_values(|c: &str| c@) =~= color_views());
    }
    let mut result: Vec<String> = Vec::new();
    result.push(String::from_str("@startuml"));
    result.push(String::new());
    let mut style = declare_diagram_style();
    let ghost style_v = views_of(style@);
    result.append(&mut style);
    result.push(String::new());
    proof {
        assert(views_of(result@) =~= diagram_head_lines());
    }
    let tree_node = build_tree_from_dependency_graph(graph);
    let mut buffer: Vec<String> = Vec::new();
    declare_modules_into_packages(&tree_node, 0, &mut buffer);
    let ghost block = views_of(buffer@);
    proof {
        assert(spaces4(0) == Seq::<char>::empty());
        assert(Seq::<Seq<char>>::empty() + pkg_lines(tree_node, spaces4(0)) =~= pkg_lines(
            tree_node,
            Seq::<char>::empty(),
        ));
        assert(is_package_block(*graph, block));
    }
    let ghost before_pkgs = views_of(result@);
    result.append(&mut buffer);
    result.push(String::new());
    proof {
        assert(views_of(result@) =~= before_pkgs + block + seq![Seq::<char>::empty()]);
    }
    let mut connections = declare_connections(graph, colors);
    let ghost conn_v = views_of(connections@);
    let ghost before_conn = views_of(result@);
    result.append(&mut connections);
    result.push(String::from_str("@enduml"));
    proof {
        assert(views_of(result@) =~= before_conn + conn_v + seq!["@enduml"@]);
        assert(views_of(result@) =~= diagram_head_lines() + block + seq![Seq::<char>::empty()]
            + conn_lines(*graph, graph.nodes_seq().len() as int) + seq!["@enduml"@]);
    }
    result
}

} // verus!
