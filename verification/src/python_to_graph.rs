use vstd::prelude::*;
use vstd::string::StrSliceExecFns;
use vstd::string::StringExecFns;

use crate::graph::{Graph, NodeKey};
use crate::module::PythonModule;
use crate::pyast::ImportStmt;
use crate::python_utils::{canonical_import_spec, extract_module_name_from_import,
    import_is_internal_spec, is_import_internal, split_dotted, split_import, ProjectFs};
use crate::text::{clone_strings, views_of};

verus! {

// ---------------------------------------------------------------------------
// From file paths to module names and package paths.
// ---------------------------------------------------------------------------

/// The last index before `i` holding `'.'`, or `-1` when there is none.
pub open spec fn last_dot(s: Seq<char>, i: int) -> int
    decreases i,
{
    if i <= 0 || i > s.len() {
        -1
    } else if s[i - 1] == '.' {
        i - 1
    } else {
        last_dot(s, i - 1)
    }
}

/// The file stem: everything before the last dot, unless the dot leads the
/// name or there is none, in which case the whole name.
pub open spec fn file_stem_of(s: Seq<char>) -> Seq<char> {
    let d = last_dot(s, s.len() as int);
    if d > 0 {
        s.take(d)
    } else {
        s
    }
}

/// The module name of a source file: the stem of its file name.
#[verifier::loop_isolation(false)]
pub fn extract_module_name_from_file_path(file_name: &String) -> (r: String)
    ensures
        r@ == file_stem_of(file_name@),
{
    let n = file_name.as_str().unicode_len();
    let mut i: usize = n;
    while i > 0
        invariant
            0 <= i <= n,
            n == file_name@.len(),
            last_dot(file_name@, n as int) == last_dot(file_name@, i as int),
        decreases i,
    {
        if file_name.as_str().get_char(i - 1) == '.' {
            if i - 1 > 0 {
                return file_name.as_str().substring_char(0, i - 1).to_owned();
            } else {
                return file_name.clone();
            }
        }
        i = i - 1;
    }
    file_name.clone()
}

/// The package path of a source file: its directory segments, all the path
/// segments but the file name.
pub fn extract_packages(segments: &Vec<String>) -> (r: Vec<String>)
    requires
        segments@.len() >= 1,
    ensures
        r@ == segments@.drop_last(),
{
    let mut r = clone_strings(segments);
    r.pop();
    proof {
        assert(r@ =~= segments@.drop_last());
    }
    r
}

// ---------------------------------------------------------------------------
// From import statements to dotted target strings.
// ---------------------------------------------------------------------------

/// The dotted module targets of one import statement: each alias of a plain
/// import as it stands; each name of a `from` import appended to its module
/// with a dot; a `from` import without a module (a relative import) yields
/// nothing.
pub open spec fn import_targets(st: ImportStmt) -> Seq<Seq<char>> {
    match st {
        ImportStmt::Plain { names } => views_of(names@),
        ImportStmt::From { module, names } => match module {
            None => Seq::empty(),
            Some(m) => names@.map_values(|x: String| m@ + seq!['.'] + x@),
        },
    }
}

/// Normalize one import statement to its dotted target strings.
#[verifier::loop_isolation(false)]
pub fn extract_import_targets(st: &ImportStmt) -> (r: Vec<String>)
    ensures
        views_of(r@) == import_targets(*st),
{
    match st {
        ImportStmt::Plain { names } => {
            let r = clone_strings(names);
            proof {
                assert(views_of(r@) =~= import_targets(*st));
            }
            r
        },
        ImportStmt::From { module, names } => match module {
            None => {
                let r: Vec<String> = Vec::new();
                proof {
                    assert(views_of(r@) =~= import_targets(*st));
                }
                r
            },
            Some(m) => {
                let ghost target = names@.map_values(|x: String| m@ + seq!['.'] + x@);
                let mut r: Vec<String> = Vec::new();
                let mut i: usize = 0;
                while i < names.len()
                    invariant
                        0 <= i <= names.len(),
                        views_of(r@) == target.take(i as int),
                    decreases names.len() - i,
                {
                    let ghost pre = r@;
                    let joined = m.clone().concat(".").concat(names[i].as_str());
                    proof {
                        assert("."@ =~= seq!['.']) by {
                            reveal_strlit(".");
                        }
                    }
                    r.push(joined);
                    proof {
                        assert(views_of(r@) =~= views_of(pre).push(m@ + seq!['.'] + names@[
                            i as int]@));
                        assert(target.take(i as int + 1) =~= target.take(i as int).push(
                            target[i as int],
                        ));
                    }
                    i = i + 1;
                }
                proof {
                    assert(target.take(names@.len() as int) =~= target);
                }
                r
            },
        },
    }
}

// ---------------------------------------------------------------------------
// The builder.
// ---------------------------------------------------------------------------

/// One discovered source file: its path segments relative to the project
/// root (the last segment is the file name) and its import statements in
/// source order.
#[derive(Debug)]
pub struct SourceFile {
    pub path_segments: Vec<String>,
    pub imports: Vec<ImportStmt>,
}

/// The module name a file contributes.
pub open spec fn file_module_name(f: SourceFile) -> Seq<char> {
    file_stem_of(views_of(f.path_segments@).last())
}

/// The package path a file contributes.
pub open spec fn file_module_pkgs(f: SourceFile) -> Seq<Seq<char>> {
    views_of(f.path_segments@).drop_last()
}

/// All dotted import targets of a file, in source order: the targets of its
/// first `i` import statements.
pub open spec fn file_targets(f: SourceFile, i: int) -> Seq<Seq<char>>
    decreases i,
{
    if i <= 0 || i > f.imports@.len() {
        Seq::empty()
    } else {
        file_targets(f, i - 1) + import_targets(f.imports@[i - 1])
    }
}

pub open spec fn all_file_targets(f: SourceFile) -> Seq<Seq<char>> {
    file_targets(f, f.imports@.len() as int)
}

/// The module name a surviving import contributes: the last segment of its
/// canonical path.
pub open spec fn dep_name(fs: ProjectFs, target: Seq<char>) -> Seq<char> {
    split_dotted(canonical_import_spec(fs, target)).last()
}

/// The package path a surviving import contributes: all canonical segments
/// but the last.
pub open spec fn dep_pkgs(fs: ProjectFs, target: Seq<char>) -> Seq<Seq<char>> {
    split_dotted(canonical_import_spec(fs, target)).drop_last()
}

/// An import survives resolution: it passes the internality test and its
/// canonical path yields a nonempty module name.
pub open spec fn import_kept(fs: ProjectFs, target: Seq<char>) -> bool {
    import_is_internal_spec(fs, target) && dep_name(fs, target).len() > 0
}

/// The graph holds a node with exactly this name and package path.
pub open spec fn graph_has_module(
    g: Graph<PythonModule>,
    name: Seq<char>,
    pkgs: Seq<Seq<char>>,
) -> bool {
    exists|i: int| 0 <= i < g.nodes_seq().len() && (#[trigger] g.nodes_seq()[i]).name@ == name
        && views_of(g.nodes_seq()[i].packages@) == pkgs
}

/// The graph holds a directed edge between nodes with these identities.
pub open spec fn graph_has_module_edge(
    g: Graph<PythonModule>,
    name_a: Seq<char>,
    pkgs_a: Seq<Seq<char>>,
    name_b: Seq<char>,
    pkgs_b: Seq<Seq<char>>,
) -> bool {
    exists|i: int, j: int|
        #![trigger g.adj_seq()[i].contains(j)]
        0 <= i < g.nodes_seq().len() && 0 <= j < g.nodes_seq().len()
            && g.nodes_seq()[i].name@ == name_a && views_of(g.nodes_seq()[i].packages@) == pkgs_a
            && g.nodes_seq()[j].name@ == name_b && views_of(g.nodes_seq()[j].packages@) == pkgs_b
            && g.adj_seq()[i].contains(j)
}


/// The relation between a graph and a later state of it: the nodes so far
/// are preserved in place, and each existing edge list keeps its entries.
pub open spec fn grown_from(pre: Graph<PythonModule>, post: Graph<PythonModule>) -> bool {
    &&& pre.nodes_seq().is_prefix_of(post.nodes_seq())
    &&& pre.adj_seq().len() <= post.adj_seq().len()
    &&& forall|i: int| 0 <= i < pre.adj_seq().len() ==> (#[trigger] pre.adj_seq()[i]).is_prefix_of(
        post.adj_seq()[i],
    )
}

/// Growing the graph keeps every module node.
pub proof fn lemma_grow_keeps_module(
    pre: Graph<PythonModule>,
    post: Graph<PythonModule>,
    name: Seq<char>,
    pkgs: Seq<Seq<char>>,
)
    requires
        grown_from(pre, post),
        graph_has_module(pre, name, pkgs),
    ensures
        graph_has_module(post, name, pkgs),
{
    let i = choose|i: int| 0 <= i < pre.nodes_seq().len() && (#[trigger] pre.nodes_seq()[i]).name@
        == name && views_of(pre.nodes_seq()[i].packages@) == pkgs;
    assert(post.nodes_seq()[i] == pre.nodes_seq().take(pre.nodes_seq().len() as int)[i]);
    assert(post.nodes_seq()[i].name@ == name && views_of(post.nodes_seq()[i].packages@) == pkgs);
}

/// Growing the graph keeps every edge.
pub proof fn lemma_grow_keeps_edge(
    pre: Graph<PythonModule>,
    post: Graph<PythonModule>,
    name_a: Seq<char>,
    pkgs_a: Seq<Seq<char>>,
    name_b: Seq<char>,
    pkgs_b: Seq<Seq<char>>,
)
    requires
        pre.wf(),
        grown_from(pre, post),
        graph_has_module_edge(pre, name_a, pkgs_a, name_b, pkgs_b),
    ensures
        graph_has_module_edge(post, name_a, pkgs_a, name_b, pkgs_b),
{
    let (i, j) = choose|i: int, j: int|
        #![trigger pre.adj_seq()[i].contains(j)]
        0 <= i < pre.nodes_seq().len() && 0 <= j < pre.nodes_seq().len()
            && pre.nodes_seq()[i].name@ == name_a && views_of(pre.nodes_seq()[i].packages@)
            == pkgs_a && pre.nodes_seq()[j].name@ == name_b && views_of(
            pre.nodes_seq()[j].packages@,
        ) == pkgs_b && pre.adj_seq()[i].contains(j);
    assert(post.nodes_seq()[i] == pre.nodes_seq().take(pre.nodes_seq().len() as int)[i]);
    assert(post.nodes_seq()[j] == pre.nodes_seq().take(pre.nodes_seq().len() as int)[j]);
    let m = choose|m: int| 0 <= m < pre.adj_seq()[i].len() && pre.adj_seq()[i][m] == j;
    assert(pre.adj_seq()[i].is_prefix_of(post.adj_seq()[i]));
    assert(post.adj_seq()[i].take(pre.adj_seq()[i].len() as int)[m] == j);
    assert(post.adj_seq()[i][m] == j);
    assert(post.adj_seq()[i].contains(j));
}

/// An edge between two module values is an edge between their identities.
pub proof fn lemma_edge_to_id_edge(g: Graph<PythonModule>, a: PythonModule, b: PythonModule)
    requires
        g.has_edge(a, b),
    ensures
        graph_has_module_edge(g, a.name@, views_of(a.packages@), b.name@, views_of(b.packages@)),
{
    let i = g.index_of(a);
    let j = g.index_of(b);
    assert(g.nodes_seq()[i].keq(&a));
    assert(g.nodes_seq()[j].keq(&b));
    assert(g.adj_seq()[i].contains(j));
}

/// A node value is in the graph exactly when its identity is.
pub proof fn lemma_contains_iff_has_module(g: Graph<PythonModule>, m: PythonModule)
    ensures
        g.contains_node(m) == graph_has_module(g, m.name@, views_of(m.packages@)),
{
    if g.contains_node(m) {
        let i = choose|i: int| 0 <= i < g.nodes_seq().len() && (#[trigger] g.nodes_seq()[i]).keq(
            &m,
        );
        assert(g.nodes_seq()[i].name@ == m.name@ && views_of(g.nodes_seq()[i].packages@)
            == views_of(m.packages@));
    }
    if graph_has_module(g, m.name@, views_of(m.packages@)) {
        let i = choose|i: int| 0 <= i < g.nodes_seq().len() && (#[trigger] g.nodes_seq()[i]).name@
            == m.name@ && views_of(g.nodes_seq()[i].packages@) == views_of(m.packages@);
        assert(g.nodes_seq()[i].keq(&m));
        assert(g.contains_node(m));
    }
}

/// The edge stands for a surviving import of some file among the first
/// `bound` files: it leads from that file's module to the import's target.
pub open spec fn edge_expected(
    files: Seq<SourceFile>,
    fs: ProjectFs,
    a: PythonModule,
    b: PythonModule,
    bound: int,
) -> bool {
    exists|f2: int, k: int|
        #![trigger all_file_targets(files[f2])[k]]
        0 <= f2 < bound && 0 <= k < all_file_targets(files[f2]).len() && import_kept(
            fs,
            all_file_targets(files[f2])[k],
        ) && a.name@ == file_module_name(files[f2]) && views_of(a.packages@) == file_module_pkgs(
            files[f2],
        ) && b.name@ == dep_name(fs, all_file_targets(files[f2])[k]) && views_of(b.packages@)
            == dep_pkgs(fs, all_file_targets(files[f2])[k])
}

/// The node stands for a module some file or surviving import among the
/// first `bound` files contributes.
pub open spec fn node_expected(
    files: Seq<SourceFile>,
    fs: ProjectFs,
    n: PythonModule,
    bound: int,
) -> bool {
    ||| exists|f2: int| 0 <= f2 < bound && n.name@ == file_module_name(#[trigger] files[f2])
        && views_of(n.packages@) == file_module_pkgs(files[f2])
    ||| exists|f2: int, k: int|
        #![trigger all_file_targets(files[f2])[k]]
        0 <= f2 < bound && 0 <= k < all_file_targets(files[f2]).len() && import_kept(
            fs,
            all_file_targets(files[f2])[k],
        ) && n.name@ == dep_name(fs, all_file_targets(files[f2])[k]) && views_of(n.packages@)
            == dep_pkgs(fs, all_file_targets(files[f2])[k])
}

/// The per-file facts carried through the build: every earlier file's
/// module is a node, every surviving earlier target is a node with its edge,
/// and nothing unexpected has been inserted.
pub open spec fn build_facts(
    files: Seq<SourceFile>,
    fs: ProjectFs,
    g: Graph<PythonModule>,
    files_done: int,
    node_bound: int,
) -> bool {
    &&& forall|f2: int| 0 <= f2 < files_done ==> graph_has_module(
        g,
        file_module_name(#[trigger] files[f2]),
        file_module_pkgs(files[f2]),
    )
    &&& forall|f2: int, k2: int|
        #![trigger all_file_targets(files[f2])[k2]]
        0 <= f2 < files_done && 0 <= k2 < all_file_targets(files[f2]).len() && import_kept(
            fs,
            all_file_targets(files[f2])[k2],
        ) ==> graph_has_module(
            g,
            dep_name(fs, all_file_targets(files[f2])[k2]),
            dep_pkgs(fs, all_file_targets(files[f2])[k2]),
        ) && graph_has_module_edge(
            g,
            file_module_name(files[f2]),
            file_module_pkgs(files[f2]),
            dep_name(fs, all_file_targets(files[f2])[k2]),
            dep_pkgs(fs, all_file_targets(files[f2])[k2]),
        )
    &&& forall|i: int| 0 <= i < g.nodes_seq().len() ==> node_expected(
        files,
        fs,
        #[trigger] g.nodes_seq()[i],
        node_bound,
    )
    &&& forall|i: int, k: int|
        #![trigger g.adj_seq()[i][k]]
        0 <= i < g.adj_seq().len() && 0 <= k < g.adj_seq()[i].len() ==> edge_expected(
            files,
            fs,
            g.nodes_seq()[i],
            g.nodes_seq()[g.adj_seq()[i][k]],
            node_bound,
        )
}

/// The carried facts survive a growth step, except the node bound, which
/// the caller re-establishes for what the step inserted.
pub proof fn lemma_facts_survive_growth(
    files: Seq<SourceFile>,
    fs: ProjectFs,
    pre: Graph<PythonModule>,
    post: Graph<PythonModule>,
    files_done: int,
)
    requires
        pre.wf(),
        grown_from(pre, post),
        forall|f2: int| 0 <= f2 < files_done ==> graph_has_module(
            pre,
            file_module_name(#[trigger] files[f2]),
            file_module_pkgs(files[f2]),
        ),
        forall|f2: int, k2: int|
            #![trigger all_file_targets(files[f2])[k2]]
            0 <= f2 < files_done && 0 <= k2 < all_file_targets(files[f2]).len() && import_kept(
                fs,
                all_file_targets(files[f2])[k2],
            ) ==> graph_has_module(
                pre,
                dep_name(fs, all_file_targets(files[f2])[k2]),
                dep_pkgs(fs, all_file_targets(files[f2])[k2]),
            ) && graph_has_module_edge(
                pre,
                file_module_name(files[f2]),
                file_module_pkgs(files[f2]),
                dep_name(fs, all_file_targets(files[f2])[k2]),
                dep_pkgs(fs, all_file_targets(files[f2])[k2]),
            ),
    ensures
        forall|f2: int| 0 <= f2 < files_done ==> graph_has_module(
            post,
            file_module_name(#[trigger] files[f2]),
            file_module_pkgs(files[f2]),
        ),
        forall|f2: int, k2: int|
            #![trigger all_file_targets(files[f2])[k2]]
            0 <= f2 < files_done && 0 <= k2 < all_file_targets(files[f2]).len() && import_kept(
                fs,
                all_file_targets(files[f2])[k2],
            ) ==> graph_has_module(
                post,
                dep_name(fs, all_file_targets(files[f2])[k2]),
                dep_pkgs(fs, all_file_targets(files[f2])[k2]),
            ) && graph_has_module_edge(
                post,
                file_module_name(files[f2]),
                file_module_pkgs(files[f2]),
                dep_name(fs, all_file_targets(files[f2])[k2]),
                dep_pkgs(fs, all_file_targets(files[f2])[k2]),
            ),
{
    assert forall|f2: int| 0 <= f2 < files_done implies graph_has_module(
        post,
        file_module_name(#[trigger] files[f2]),
        file_module_pkgs(files[f2]),
    ) by {
        lemma_grow_keeps_module(pre, post, file_module_name(files[f2]),
            file_module_pkgs(files[f2]));
    }
    assert forall|f2: int, k2: int|
        #![trigger all_file_targets(files[f2])[k2]]
        0 <= f2 < files_done && 0 <= k2 < all_file_targets(files[f2]).len() && import_kept(
            fs,
            all_file_targets(files[f2])[k2],
        ) implies graph_has_module(
        post,
        dep_name(fs, all_file_targets(files[f2])[k2]),
        dep_pkgs(fs, all_file_targets(files[f2])[k2]),
    ) && graph_has_module_edge(
        post,
        file_module_name(files[f2]),
        file_module_pkgs(files[f2]),
        dep_name(fs, all_file_targets(files[f2])[k2]),
        dep_pkgs(fs, all_file_targets(files[f2])[k2]),
    ) by {
        lemma_grow_keeps_module(pre, post, dep_name(fs, all_file_targets(files[f2])[k2]),
            dep_pkgs(fs, all_file_targets(files[f2])[k2]));
        lemma_grow_keeps_edge(pre, post, file_module_name(files[f2]),
            file_module_pkgs(files[f2]), dep_name(fs, all_file_targets(files[f2])[k2]),
            dep_pkgs(fs, all_file_targets(files[f2])[k2]));
    }
}


/// The facts about the current file's already-processed targets survive a
/// growth step.
pub proof fn lemma_cur_targets_survive(
    fs: ProjectFs,
    pre: Graph<PythonModule>,
    post: Graph<PythonModule>,
    fname: Seq<char>,
    fpkgs: Seq<Seq<char>>,
    all_t: Seq<Seq<char>>,
    k: int,
)
    requires
        pre.wf(),
        grown_from(pre, post),
        forall|k2: int| 0 <= k2 < k && import_kept(fs, #[trigger] all_t[k2]) ==> graph_has_module(
            pre,
            dep_name(fs, all_t[k2]),
            dep_pkgs(fs, all_t[k2]),
        ) && graph_has_module_edge(
            pre,
            fname,
            fpkgs,
            dep_name(fs, all_t[k2]),
            dep_pkgs(fs, all_t[k2]),
        ),
    ensures
        forall|k2: int| 0 <= k2 < k && import_kept(fs, #[trigger] all_t[k2]) ==> graph_has_module(
            post,
            dep_name(fs, all_t[k2]),
            dep_pkgs(fs, all_t[k2]),
        ) && graph_has_module_edge(
            post,
            fname,
            fpkgs,
            dep_name(fs, all_t[k2]),
            dep_pkgs(fs, all_t[k2]),
        ),
{
    assert forall|k2: int| 0 <= k2 < k && import_kept(fs, #[trigger] all_t[k2]) implies
        graph_has_module(post, dep_name(fs, all_t[k2]), dep_pkgs(fs, all_t[k2]))
        && graph_has_module_edge(
        post,
        fname,
        fpkgs,
        dep_name(fs, all_t[k2]),
        dep_pkgs(fs, all_t[k2]),
    ) by {
        lemma_grow_keeps_module(pre, post, dep_name(fs, all_t[k2]), dep_pkgs(fs, all_t[k2]));
        lemma_grow_keeps_edge(pre, post, fname, fpkgs, dep_name(fs, all_t[k2]),
            dep_pkgs(fs, all_t[k2]));
    }
}

/// Build the dependency graph: one node per source file, one node per
/// surviving import target, and one directed edge from each file's own
/// module to each of its surviving targets. Files are processed in order,
/// each file's own module inserted before its targets in source order, with
/// duplicate nodes and duplicate edges tolerated silently. The result holds
/// exactly the nodes so contributed.
#[verifier::loop_isolation(false)]
#[verifier::rlimit(100)]
#[verifier::spinoff_prover]
pub fn build_dependency_graph(files: &Vec<SourceFile>, fs: &ProjectFs) -> (g: Graph<PythonModule>)
    requires
        forall|fi: int| 0 <= fi < files@.len() ==> (#[trigger] files@[fi]).path_segments@.len()
            >= 1,
    ensures
        g.wf(),
        build_facts(files@, *fs, g, files@.len() as int, files@.len() as int),
{
    let mut g: Graph<PythonModule> = Graph::new();
    let mut fi: usize = 0;
    while fi < files.len()
        invariant
            0 <= fi <= files@.len(),
            g.wf(),
            build_facts(files@, *fs, g, fi as int, fi as int),
        decreases files@.len() - fi,
    {
        let ghost fspec = files@[fi as int];
        let ghost fname = file_module_name(fspec);
        let ghost fpkgs = file_module_pkgs(fspec);
        let file = &files[fi];
        let n_segs = file.path_segments.len();
        let module_name = extract_module_name_from_file_path(&file.path_segments[n_segs - 1]);
        let packages = extract_packages(&file.path_segments);
        let module = PythonModule::new(module_name.as_str(), &packages);
        proof {
            assert(views_of(fspec.path_segments@).last() == fspec.path_segments@.last()@);
            assert(module.name@ == fname);
            assert(views_of(module.packages@) =~= fpkgs);
        }
        let ghost g0 = g;
        let _outcome = g.add_node(&module);
        proof {
            assert(grown_from(g0, g)) by {
                if _outcome is Ok {
                    assert(g0.nodes_seq() =~= g.nodes_seq().take(g0.nodes_seq().len() as int));
                    assert(forall|i: int| 0 <= i < g0.adj_seq().len()
                        ==> #[trigger] g0.adj_seq()[i] == g.adj_seq()[i]);
                } else {
                    assert(g0.nodes_seq().is_prefix_of(g.nodes_seq())) by {
                        assert(g0.nodes_seq() =~= g.nodes_seq().take(
                            g0.nodes_seq().len() as int,
                        ));
                    }
                }
            }
            lemma_facts_survive_growth(files@, *fs, g0, g, fi as int);
            assert(graph_has_module(g, fname, fpkgs)) by {
                if _outcome is Ok {
                    let last = g.nodes_seq().len() - 1;
                    assert(g.nodes_seq()[last].keq(&module));
                } else {
                    lemma_contains_iff_has_module(g0, module);
                    lemma_grow_keeps_module(g0, g, module.name@, views_of(module.packages@));
                }
            }
            assert forall|i: int| 0 <= i < g.nodes_seq().len() implies node_expected(
                files@,
                *fs,
                #[trigger] g.nodes_seq()[i],
                fi as int + 1,
            ) by {
                if i < g0.nodes_seq().len() {
                    assert(g.nodes_seq()[i] == g0.nodes_seq().take(
                        g0.nodes_seq().len() as int,
                    )[i]);
                    assert(node_expected(files@, *fs, g0.nodes_seq()[i], fi as int));
                } else {
                    assert(g.nodes_seq()[i].keq(&module));
                }
            }
        }
        let mut targets: Vec<String> = Vec::new();
        let mut si: usize = 0;
        while si < file.imports.len()
            invariant
                0 <= si <= file.imports@.len(),
                views_of(targets@) == file_targets(fspec, si as int),
            decreases file.imports@.len() - si,
        {
            let ghost pre_t = targets@;
            let mut ts = extract_import_targets(&file.imports[si]);
            targets.append(&mut ts);
            proof {
                assert(views_of(targets@) =~= views_of(pre_t) + import_targets(
                    fspec.imports@[si as int],
                ));
            }
            si = si + 1;
        }
        let ghost all_t = all_file_targets(fspec);
        let mut k: usize = 0;
        while k < targets.len()
            invariant
                0 <= k <= targets@.len(),
                views_of(targets@) == all_t,
                g.wf(),
                graph_has_module(g, fname, fpkgs),
                build_facts(files@, *fs, g, fi as int, fi as int + 1),
                forall|k2: int| 0 <= k2 < k && import_kept(*fs, #[trigger] all_t[k2])
                    ==> graph_has_module(g, dep_name(*fs, all_t[k2]), dep_pkgs(*fs, all_t[k2]))
                    && graph_has_module_edge(
                    g,
                    fname,
                    fpkgs,
                    dep_name(*fs, all_t[k2]),
                    dep_pkgs(*fs, all_t[k2]),
                ),
            decreases targets@.len() - k,
        {
            let ghost tv = all_t[k as int];
            proof {
                assert(targets@[k as int]@ == tv);
            }
            let internal = is_import_internal(&targets[k], fs);
            if internal {
                let canon = extract_module_name_from_import(&targets[k], fs);
                let parts = split_import(canon.as_str());
                let n_parts = parts.len();
                proof {
                    assert(views_of(parts@).last() == parts@.last()@);
                    assert(parts@.last()@ == dep_name(*fs, tv));
                }
                if parts[n_parts - 1].as_str().unicode_len() > 0 {
                    proof {
                        assert(import_kept(*fs, tv));
                    }
                    let dep_pk = extract_packages(&parts);
                    let dep = PythonModule::new(parts[n_parts - 1].as_str(), &dep_pk);
                    proof {
                        assert(dep.name@ == dep_name(*fs, tv));
                        assert(views_of(dep.packages@) =~= dep_pkgs(*fs, tv));
                    }
                    let ghost g1 = g;
                    if !g.is_node_in_graph(&dep) {
                        let _r = g.add_node(&dep);
                        proof {
                            assert(_r is Ok);
                        }
                    }
                    proof {
                        assert(grown_from(g1, g)) by {
                            assert(g1.nodes_seq() =~= g.nodes_seq().take(
                                g1.nodes_seq().len() as int,
                            ));
                            assert(forall|i: int| 0 <= i < g1.adj_seq().len()
                                ==> #[trigger] g1.adj_seq()[i] == g.adj_seq()[i]);
                        }
                        assert(g.contains_node(dep)) by {
                            if g.nodes_seq().len() > g1.nodes_seq().len() {
                                let last = g.nodes_seq().len() - 1;
                                assert(g.nodes_seq()[last].keq(&dep));
                            } else {
                                let i = choose|i: int| 0 <= i < g1.nodes_seq().len() && (
                                #[trigger] g1.nodes_seq()[i]).keq(&dep);
                                assert(g.nodes_seq()[i] == g1.nodes_seq().take(
                                    g1.nodes_seq().len() as int,
                                )[i]);
                            }
                        }
                        lemma_facts_survive_growth(files@, *fs, g1, g, fi as int);
                        lemma_cur_targets_survive(*fs, g1, g, fname, fpkgs, all_t, k as int);
                        lemma_grow_keeps_module(g1, g, fname, fpkgs);
                        assert forall|i: int| 0 <= i < g.nodes_seq().len() implies node_expected(
                            files@,
                            *fs,
                            #[trigger] g.nodes_seq()[i],
                            fi as int + 1,
                        ) by {
                            if i < g1.nodes_seq().len() {
                                assert(g.nodes_seq()[i] == g1.nodes_seq().take(
                                    g1.nodes_seq().len() as int,
                                )[i]);
                                assert(node_expected(files@, *fs, g1.nodes_seq()[i],
                                    fi as int + 1));
                            } else {
                                assert(g.nodes_seq()[i].keq(&dep));
                                assert(0 <= k < all_file_targets(files@[fi as int]).len()
                                    && import_kept(
                                    *fs,
                                    all_file_targets(files@[fi as int])[k as int],
                                ));
                            }
                        }
                    }
                    let ghost g2 = g;
                    let _e = g.add_edge(&module, &dep);
                    proof {
                        lemma_contains_iff_has_module(g2, module);
                        assert(g2.contains_node(module));
                        if _e == Err::<(), crate::graph::GraphError>(
                            crate::graph::GraphError::EndpointMissing,
                        ) {
                            assert(false);
                        }
                        assert(grown_from(g2, g)) by {
                            assert(g2.nodes_seq() =~= g.nodes_seq().take(
                                g2.nodes_seq().len() as int,
                            ));
                            if _e is Ok {
                                let idx = g2.index_of(module);
                                assert forall|i: int| 0 <= i < g2.adj_seq().len() implies (
                                #[trigger] g2.adj_seq()[i]).is_prefix_of(g.adj_seq()[i]) by {
                                    if i == idx {
                                        assert(g.adj_seq()[i] == g2.adj_seq()[i].push(
                                            g2.index_of(dep),
                                        ));
                                        assert(g2.adj_seq()[i] =~= g.adj_seq()[i].take(
                                            g2.adj_seq()[i].len() as int,
                                        ));
                                    } else {
                                        assert(g.adj_seq()[i] == g2.adj_seq()[i]);
                                        assert(g2.adj_seq()[i] =~= g.adj_seq()[i].take(
                                            g2.adj_seq()[i].len() as int,
                                        ));
                                    }
                                }
                            } else {
                                assert(forall|i: int| 0 <= i < g2.adj_seq().len()
                                    ==> (#[trigger] g2.adj_seq()[i]).is_prefix_of(
                                    g.adj_seq()[i],
                                )) by {
                                    assert forall|i: int| 0 <= i < g2.adj_seq().len() implies (
                                    #[trigger] g2.adj_seq()[i]).is_prefix_of(g.adj_seq()[i]) by {
                                        assert(g2.adj_seq()[i] =~= g.adj_seq()[i].take(
                                            g2.adj_seq()[i].len() as int,
                                        ));
                                    }
                                }
                            }
                        }
                        assert(g.has_edge(module, dep)) by {
                            if _e is Ok {
                                let idx = g2.index_of(module);
                                let jdx = g2.index_of(dep);
                                assert(g2.nodes_seq()[idx].keq(&module));
                                assert(g2.nodes_seq()[jdx].keq(&dep));
                                assert(g.adj_seq()[idx] == g2.adj_seq()[idx].push(jdx));
                                assert(g.adj_seq()[idx][g2.adj_seq()[idx].len() as int] == jdx);
                                assert(g.adj_seq()[idx].contains(jdx));
                                assert(g.nodes_seq() == g2.nodes_seq());
                                g.lemma_index_unique(module, idx);
                                g.lemma_index_unique(dep, jdx);
                            } else {
                                assert(g2.has_edge(module, dep));
                            }
                        }
                        lemma_edge_to_id_edge(g, module, dep);
                        lemma_contains_iff_has_module(g, dep);
                        lemma_facts_survive_growth(files@, *fs, g2, g, fi as int);
                        lemma_cur_targets_survive(*fs, g2, g, fname, fpkgs, all_t, k as int);
                        lemma_grow_keeps_module(g2, g, fname, fpkgs);
                        lemma_grow_keeps_module(g2, g, dep.name@, views_of(dep.packages@));
                        assert forall|i: int| 0 <= i < g.nodes_seq().len() implies node_expected(
                            files@,
                            *fs,
                            #[trigger] g.nodes_seq()[i],
                            fi as int + 1,
                        ) by {
                            assert(g.nodes_seq()[i] == g2.nodes_seq()[i]);
                            assert(node_expected(files@, *fs, g2.nodes_seq()[i], fi as int + 1));
                        }
                    }
                }
            }
            k = k + 1;
        }
        fi = fi + 1;
        proof {
            assert(build_facts(files@, *fs, g, fi as int, fi as int)) by {
                assert forall|f2: int| 0 <= f2 < fi implies graph_has_module(
                    g,
                    file_module_name(#[trigger] files@[f2]),
                    file_module_pkgs(files@[f2]),
                ) by {
                    if f2 == fi - 1 {
                        assert(graph_has_module(g, fname, fpkgs));
                    }
                }
                assert forall|f2: int, k2: int|
                    #![trigger all_file_targets(files@[f2])[k2]]
                    0 <= f2 < fi && 0 <= k2 < all_file_targets(files@[f2]).len() && import_kept(
                        *fs,
                        all_file_targets(files@[f2])[k2],
                    ) implies graph_has_module(
                    g,
                    dep_name(*fs, all_file_targets(files@[f2])[k2]),
                    dep_pkgs(*fs, all_file_targets(files@[f2])[k2]),
                ) && graph_has_module_edge(
                    g,
                    file_module_name(files@[f2]),
                    file_module_pkgs(files@[f2]),
                    dep_name(*fs, all_file_targets(files@[f2])[k2]),
                    dep_pkgs(*fs, all_file_targets(files@[f2])[k2]),
                ) by {
                    if f2 == fi - 1 {
                        assert(all_file_targets(files@[f2]) == all_t);
                        assert(graph_has_module(g, dep_name(*fs, all_t[k2]),
                            dep_pkgs(*fs, all_t[k2])));
                    }
                }
            }
        }
    }
    g
}

} // verus!
