use vstd::prelude::*;
use vstd::string::StringExecFns;

use crate::text::{str_eq, views_of};

verus! {

/// One node of the package tree: a path-segment value and its children in
/// insertion order. Children order determines rendering order downstream.
#[derive(Debug)]
pub struct TreeNode {
    pub value: String,
    pub children: Vec<TreeNode>,
}

/// Siblings at every level carry pairwise distinct values, and every
/// subtree is itself well-formed.
pub open spec fn tree_wf(t: TreeNode) -> bool
    decreases t,
{
    &&& forall|i: int, j: int|
        #![trigger t.children@[i].value, t.children@[j].value]
        0 <= i < j < t.children@.len() ==> t.children@[i].value@ != t.children@[j].value@
    &&& forall|i: int| 0 <= i < t.children@.len() ==> tree_wf(#[trigger] t.children@[i])
}

/// The segments of `p` spell a chain of child values walking down from `t`.
/// The empty path is a chain of every tree.
pub open spec fn has_path(t: TreeNode, p: Seq<Seq<char>>) -> bool
    decreases t,
{
    if p.len() == 0 {
        true
    } else {
        exists|i: int| 0 <= i < t.children@.len() && (#[trigger] t.children@[i]).value@ == p[0]
            && has_path(t.children@[i], p.drop_first())
    }
}

/// `p` is an initial run of `q`.
pub open spec fn is_seq_prefix(p: Seq<Seq<char>>, q: Seq<Seq<char>>) -> bool {
    p.len() <= q.len() && p == q.take(p.len() as int)
}

/// A nonempty prefix relation steps down: the heads agree and the tails are
/// again in the prefix relation.
pub proof fn lemma_prefix_unfold(p: Seq<Seq<char>>, q: Seq<Seq<char>>)
    requires
        p.len() >= 1,
        q.len() >= 1,
    ensures
        is_seq_prefix(p, q) == (p[0] == q[0] && is_seq_prefix(p.drop_first(), q.drop_first())),
{
    if is_seq_prefix(p, q) {
        assert(p[0] == q.take(p.len() as int)[0]);
        assert(p.drop_first() =~= q.drop_first().take(p.len() - 1));
    }
    if p[0] == q[0] && is_seq_prefix(p.drop_first(), q.drop_first()) {
        assert forall|k: int| 0 <= k < p.len() implies p[k] == q.take(p.len() as int)[k] by {
            if k >= 1 {
                assert(p.drop_first()[k - 1] == q.drop_first().take(p.len() - 1)[k - 1]);
            }
        }
        assert(p =~= q.take(p.len() as int));
    }
}

impl TreeNode {
    pub fn new(value: String) -> (r: Self)
        ensures
            r.value == value,
            r.children@ == Seq::<TreeNode>::empty(),
            tree_wf(r),
    {
        TreeNode { value, children: Vec::new() }
    }

    /// Append a child, after any existing children.
    pub fn add_child(&mut self, child: TreeNode)
        ensures
            final(self).value == old(self).value,
            final(self).children@ == old(self).children@.push(child),
    {
        self.children.push(child);
    }

    pub fn get_value(&self) -> (r: &String)
        ensures
            r == &self.value,
    {
        &self.value
    }

    pub fn get_children(&self) -> (r: &Vec<TreeNode>)
        ensures
            r == &self.children,
    {
        &self.children
    }
}

/// `t` is the freshly created chain for `parts[i..]`: one node per
/// remaining segment, each the single child of the one before it, the last
/// one childless.
pub open spec fn is_fresh_chain(t: TreeNode, parts: Seq<Seq<char>>, i: int) -> bool
    decreases parts.len() - i,
{
    if i < 0 || i >= parts.len() {
        false
    } else {
        t.value@ == parts[i] && if i + 1 == parts.len() {
            t.children@.len() == 0
        } else {
            t.children@.len() == 1 && is_fresh_chain(t.children@[0], parts, i + 1)
        }
    }
}

/// `post` is exactly `pre` with `parts[i..]` inserted: the same value, the
/// same children in the same positions except that the walk descends into a
/// child whose value matches the next segment, and where none matches, the
/// missing chain is appended after the existing children.
pub open spec fn insert_shape(pre: TreeNode, post: TreeNode, parts: Seq<Seq<char>>, i: int) -> bool
    decreases parts.len() - i,
{
    if i < 0 || i >= parts.len() {
        post == pre
    } else {
        post.value == pre.value && if exists|j: int| 0 <= j < pre.children@.len() && (
        #[trigger] pre.children@[j]).value@ == parts[i] {
            exists|j: int|
                {
                    &&& 0 <= j < pre.children@.len()
                    &&& (#[trigger] pre.children@[j]).value@ == parts[i]
                    &&& post.children@.len() == pre.children@.len()
                    &&& forall|k: int| 0 <= k < pre.children@.len() && k != j
                        ==> #[trigger] post.children@[k] == pre.children@[k]
                    &&& insert_shape(pre.children@[j], post.children@[j], parts, i + 1)
                }
        } else {
            &&& post.children@.len() == pre.children@.len() + 1
            &&& forall|k: int| 0 <= k < pre.children@.len() ==> #[trigger] post.children@[k]
                == pre.children@[k]
            &&& is_fresh_chain(post.children@[pre.children@.len() as int], parts, i)
        }
    }
}

/// Insert the path `parts[i..]` below `node`: descend into the existing
/// child whose value matches the next segment, or create it, in order./// Insert the path `parts[i..]` below `node`: descend into the existing
/// child whose value matches the next segment, or create it, in order.
#[verifier::loop_isolation(false)]
fn insert_from(node: TreeNode, parts: &Vec<String>, i: usize) -> (r: TreeNode)
    requires
        tree_wf(node),
        i <= parts@.len(),
    ensures
        tree_wf(r),
        r.value == node.value,
        insert_shape(node, r, views_of(parts@), i as int),
        forall|p: Seq<Seq<char>>| #[trigger] has_path(r, p) <==> has_path(node, p) || (p.len() >= 1
            && is_seq_prefix(p, views_of(parts@).skip(i as int))),
    decreases parts@.len() - i,
{
    let ghost pviews = views_of(parts@);
    let ghost suffix = views_of(parts@).skip(i as int);
    if i == parts.len() {
        proof {
            assert(suffix =~= Seq::<Seq<char>>::empty());
            assert(insert_shape(node, node, pviews, i as int));
        }
        return node;
    }
    proof {
        assert(suffix.len() >= 1);
        assert(suffix[0] == views_of(parts@)[i as int]);
        assert(suffix.drop_first() =~= views_of(parts@).skip(i as int + 1));
    }
    let mut node = node;
    let n = node.children.len();
    let mut found: Option<usize> = None;
    let mut j: usize = 0;
    while j < n && found.is_none()
        invariant
            0 <= j <= n,
            n == node.children@.len(),
            match found {
                Some(jj) => jj < n && node.children@[jj as int].value@ == suffix[0],
                None => forall|m: int| 0 <= m < j ==> (#[trigger] node.children@[m]).value@
                    != suffix[0],
            },
        decreases n - j + (if found.is_none() { 1int } else { 0int }),
    {
        if str_eq(node.children[j].value.as_str(), parts[i].as_str()) {
            found = Some(j);
        } else {
            j = j + 1;
        }
    }
    match found {
        Some(jj) => {
            let ghost pre_node = node;
            let ghost pre = node.children@;
            let child = node.children.remove(jj);
            let child2 = insert_from(child, parts, i + 1);
            node.children.insert(jj, child2);
            proof {
                assert(node.children@ =~= pre.update(jj as int, child2));
                assert(insert_shape(pre_node, node, pviews, i as int)) by {
                    assert(pre_node.children@[jj as int].value@ == pviews[i as int]);
                    assert(node.children@[jj as int] == child2);
                    assert(insert_shape(pre_node.children@[jj as int], child2, pviews,
                        i as int + 1));
                }
                let post = node.children@;
                // sibling values are unchanged
                assert forall|m: int| 0 <= m < post.len() implies (#[trigger] post[m]).value
                    == pre[m].value by {
                    if m != jj as int {
                        assert(post[m] == pre[m]);
                    }
                }
                // the matched child is the only one carrying suffix[0]
                assert forall|m: int| 0 <= m < pre.len() && m != jj as int implies (
                #[trigger] pre[m]).value@ != suffix[0] by {
                    if m < jj as int {
                        assert(pre[m].value@ != pre[jj as int].value@);
                    } else {
                        assert(pre[jj as int].value@ != pre[m].value@);
                    }
                }
                assert(tree_wf(node));
                assert forall|p: Seq<Seq<char>>| #[trigger] has_path(node, p) <==> has_path(
                    pre_node,
                    p,
                ) || (p.len() >= 1 && is_seq_prefix(p, suffix)) by {
                    if p.len() >= 1 {
                        lemma_prefix_unfold(p, suffix);
                        let dp = p.drop_first();
                        if p[0] == suffix[0] {
                            // walking down goes through the matched child on both sides
                            if has_path(node, p) {
                                let k = choose|k: int| 0 <= k < post.len() && (
                                #[trigger] post[k]).value@ == p[0] && has_path(post[k], dp);
                                assert(k == jj as int);
                                assert(has_path(child2, dp));
                                if has_path(child, dp) {
                                    assert(pre[jj as int].value@ == p[0] && has_path(
                                        pre[jj as int],
                                        dp,
                                    ));
                                    assert(has_path(pre_node, p));
                                } else {
                                    assert(is_seq_prefix(p, suffix));
                                }
                            }
                            if has_path(pre_node, p) {
                                let k = choose|k: int| 0 <= k < pre.len() && (
                                #[trigger] pre[k]).value@ == p[0] && has_path(pre[k], dp);
                                assert(k == jj as int);
                                assert(has_path(child2, dp));
                                assert(post[jj as int].value@ == p[0] && has_path(
                                    post[jj as int],
                                    dp,
                                ));
                                assert(has_path(node, p));
                            }
                            if p.len() >= 1 && is_seq_prefix(p, suffix) {
                                assert(has_path(child2, dp));
                                assert(post[jj as int].value@ == p[0] && has_path(
                                    post[jj as int],
                                    dp,
                                ));
                                assert(has_path(node, p));
                            }
                        } else {
                            // untouched children decide, identically on both sides
                            if has_path(node, p) {
                                let k = choose|k: int| 0 <= k < post.len() && (
                                #[trigger] post[k]).value@ == p[0] && has_path(post[k], dp);
                                assert(k != jj as int);
                                assert(pre[k].value@ == p[0] && has_path(pre[k], dp));
                                assert(has_path(pre_node, p));
                            }
                            if has_path(pre_node, p) {
                                let k = choose|k: int| 0 <= k < pre.len() && (
                                #[trigger] pre[k]).value@ == p[0] && has_path(pre[k], dp);
                                assert(k != jj as int);
                                assert(post[k].value@ == p[0] && has_path(post[k], dp));
                                assert(has_path(node, p));
                            }
                        }
                    }
                }
            }
            node
        },
        None => {
            let fresh = TreeNode::new(parts[i].clone());
            let sub = insert_from(fresh, parts, i + 1);
            let ghost pre_node = node;
            let ghost pre = node.children@;
            node.children.push(sub);
            proof {
                let post = node.children@;
                assert(post =~= pre.push(sub));
                assert(sub.value@ == suffix[0]);
                assert(insert_shape(pre_node, node, pviews, i as int)) by {
                    assert(!exists|j: int| 0 <= j < pre_node.children@.len() && (
                    #[trigger] pre_node.children@[j]).value@ == pviews[i as int]);
                    assert(node.children@[pre_node.children@.len() as int] == sub);
                    assert(is_fresh_chain(sub, pviews, i as int)) by {
                        assert(insert_shape(fresh, sub, pviews, i as int + 1));
                        if i + 1 == parts.len() {
                            assert(sub == fresh);
                        } else {
                            assert(!exists|j: int| 0 <= j < fresh.children@.len() && (
                            #[trigger] fresh.children@[j]).value@ == pviews[i as int + 1]);
                            assert(sub.children@.len() == 1);
                            assert(is_fresh_chain(sub.children@[0], pviews, i as int + 1));
                        }
                    }
                }
                // fresh has no children: its chains are the empty one alone
                assert forall|q: Seq<Seq<char>>| #[trigger] has_path(sub, q) <==> q.len() == 0 || (
                q.len() >= 1 && is_seq_prefix(q, suffix.skip(1))) by {
                    assert(suffix.drop_first() =~= suffix.skip(1));
                }
                assert(tree_wf(node));
                assert forall|p: Seq<Seq<char>>| #[trigger] has_path(node, p) <==> has_path(
                    pre_node,
                    p,
                ) || (p.len() >= 1 && is_seq_prefix(p, suffix)) by {
                    if p.len() >= 1 {
                        lemma_prefix_unfold(p, suffix);
                        let dp = p.drop_first();
                        assert(suffix.drop_first() =~= suffix.skip(1));
                        if p[0] == suffix[0] {
                            // only the new child carries this value
                            assert(!has_path(pre_node, p)) by {
                                if has_path(pre_node, p) {
                                    let k = choose|k: int| 0 <= k < pre.len() && (
                                    #[trigger] pre[k]).value@ == p[0] && has_path(pre[k], dp);
                                    assert(false);
                                }
                            }
                            if has_path(node, p) {
                                let k = choose|k: int| 0 <= k < post.len() && (
                                #[trigger] post[k]).value@ == p[0] && has_path(post[k], dp);
                                assert(k == pre.len() as int);
                                assert(has_path(sub, dp));
                                if dp.len() == 0 {
                                    assert(p =~= suffix.take(p.len() as int));
                                }
                                assert(is_seq_prefix(p, suffix));
                            }
                            if is_seq_prefix(p, suffix) {
                                assert(has_path(sub, dp));
                                assert(post[pre.len() as int].value@ == p[0] && has_path(
                                    post[pre.len() as int],
                                    dp,
                                ));
                                assert(has_path(node, p));
                            }
                        } else {
                            assert(!is_seq_prefix(p, suffix));
                            if has_path(node, p) {
                                let k = choose|k: int| 0 <= k < post.len() && (
                                #[trigger] post[k]).value@ == p[0] && has_path(post[k], dp);
                                assert(k != pre.len() as int);
                                assert(pre[k].value@ == p[0] && has_path(pre[k], dp));
                                assert(has_path(pre_node, p));
                            }
                            if has_path(pre_node, p) {
                                let k = choose|k: int| 0 <= k < pre.len() && (
                                #[trigger] pre[k]).value@ == p[0] && has_path(pre[k], dp);
                                assert(post[k].value@ == p[0] && has_path(post[k], dp));
                                assert(has_path(node, p));
                            }
                        }
                    }
                }
            }
            node
        },
    }
}

/// Insert a path of segment values into the tree, creating the children
/// that are missing and reusing those already present; afterwards the tree
/// has exactly its old chains plus every nonempty prefix of the path.
pub fn insert(root: &mut TreeNode, parts: Vec<String>)
    requires
        tree_wf(*old(root)),
    ensures
        tree_wf(*final(root)),
        final(root).value == old(root).value,
        insert_shape(*old(root), *final(root), views_of(parts@), 0),
        forall|p: Seq<Seq<char>>| #[trigger] has_path(*final(root), p) <==> has_path(
            *old(root),
            p,
        ) || (p.len() >= 1 && is_seq_prefix(p, views_of(parts@))),
{
    let mut taken = TreeNode::new(String::new());
    core::mem::swap(root, &mut taken);
    let grown = insert_from(taken, &parts, 0);
    let mut grown = grown;
    core::mem::swap(root, &mut grown);
    proof {
        assert(views_of(parts@).skip(0) =~= views_of(parts@));
    }
}


// ---------------------------------------------------------------------------
// Leaves.
// ---------------------------------------------------------------------------

/// The values of the leaves in the subtree rooted at `t`; a childless node
/// is itself a leaf.
pub open spec fn leaf_names(t: TreeNode) -> Set<Seq<char>>
    decreases t, 0nat,
{
    if t.children@.len() == 0 {
        set![t.value@]
    } else {
        leaf_names_of(t.children@, t.children@.len() as int)
    }
}

/// The leaf values of the first `i` subtrees of `cs`.
pub open spec fn leaf_names_of(cs: Seq<TreeNode>, i: int) -> Set<Seq<char>>
    decreases cs, i + 1,
{
    if i <= 0 || i > cs.len() {
        Set::empty()
    } else {
        leaf_names_of(cs, i - 1).union(leaf_names(cs[i - 1]))
    }
}

/// A chain that cannot be extended downward by any further segment.
pub open spec fn is_max_chain(t: TreeNode, p: Seq<Seq<char>>) -> bool {
    has_path(t, p) && forall|q: Seq<char>| !has_path(t, #[trigger] p.push(q))
}

/// Membership in the union of the children's leaf sets.
pub proof fn lemma_leaf_union(cs: Seq<TreeNode>, i: int, n: Seq<char>)
    requires
        0 <= i <= cs.len(),
    ensures
        leaf_names_of(cs, i).contains(n) <==> exists|j: int| 0 <= j < i && (
        #[trigger] leaf_names(cs[j])).contains(n),
    decreases i,
{
    if i > 0 {
        lemma_leaf_union(cs, i - 1, n);
        if leaf_names(cs[i - 1]).contains(n) {
            assert(leaf_names_of(cs, i).contains(n));
        }
    }
}

/// The leaves of a well-formed tree are exactly the last segments of its
/// maximal chains, beside the root's own value when the tree is a single
/// node.
pub proof fn lemma_leaf_characterization(t: TreeNode, n: Seq<char>)
    requires
        tree_wf(t),
    ensures
        leaf_names(t).contains(n) <==> ((t.children@.len() == 0 && n == t.value@) || (exists|
            p: Seq<Seq<char>>,
        |
            p.len() >= 1 && #[trigger] is_max_chain(t, p) && p.last() == n)),
    decreases t,
{
    let cs = t.children@;
    if cs.len() == 0 {
        assert forall|p: Seq<Seq<char>>|
            p.len() >= 1 && #[trigger] is_max_chain(t, p) implies false by {
            assert(!has_path(t, p));
        }
    } else {
        lemma_leaf_union(cs, cs.len() as int, n);
        // each child carrying a given head value is the only one
        assert forall|j: int, k: int|
            0 <= j < cs.len() && 0 <= k < cs.len() && (#[trigger] cs[j]).value@ == (
            #[trigger] cs[k]).value@ implies j == k by {
            if j < k {
                assert(cs[j].value@ != cs[k].value@);
            } else if k < j {
                assert(cs[k].value@ != cs[j].value@);
            }
        }
        if leaf_names(t).contains(n) {
            let j = choose|j: int| 0 <= j < cs.len() && (#[trigger] leaf_names(cs[j])).contains(
                n,
            );
            lemma_leaf_characterization(cs[j], n);
            if cs[j].children@.len() == 0 && n == cs[j].value@ {
                let p = seq![cs[j].value@];
                assert(p.drop_first() =~= Seq::<Seq<char>>::empty());
                assert(cs[j].value@ == p[0] && has_path(cs[j], p.drop_first()));
                assert(has_path(t, p));
                assert forall|q: Seq<char>| !has_path(t, #[trigger] p.push(q)) by {
                    if has_path(t, p.push(q)) {
                        let k = choose|k: int| 0 <= k < cs.len() && (#[trigger] cs[k]).value@
                            == p.push(q)[0] && has_path(cs[k], p.push(q).drop_first());
                        assert(k == j);
                        assert(p.push(q).drop_first() =~= seq![q]);
                        assert(has_path(cs[j], seq![q]));
                        assert(false);
                    }
                }
                assert(p.len() >= 1 && is_max_chain(t, p) && p.last() == n);
            } else {
                let pp = choose|pp: Seq<Seq<char>>| pp.len() >= 1 && #[trigger] is_max_chain(
                    cs[j],
                    pp,
                ) && pp.last() == n;
                let p = seq![cs[j].value@] + pp;
                assert(p.drop_first() =~= pp);
                assert(p[0] == cs[j].value@);
                assert(has_path(t, p));
                assert forall|q: Seq<char>| !has_path(t, #[trigger] p.push(q)) by {
                    if has_path(t, p.push(q)) {
                        let k = choose|k: int| 0 <= k < cs.len() && (#[trigger] cs[k]).value@
                            == p.push(q)[0] && has_path(cs[k], p.push(q).drop_first());
                        assert(p.push(q)[0] == p[0]);
                        assert(k == j);
                        assert(p.push(q).drop_first() =~= pp.push(q));
                        assert(has_path(cs[j], pp.push(q)));
                        assert(false);
                    }
                }
                assert(p.last() == n);
                assert(p.len() >= 1 && is_max_chain(t, p) && p.last() == n);
            }
        }
        if exists|p: Seq<Seq<char>>| p.len() >= 1 && #[trigger] is_max_chain(t, p) && p.last()
            == n {
            let p = choose|p: Seq<Seq<char>>| p.len() >= 1 && #[trigger] is_max_chain(t, p)
                && p.last() == n;
            let j = choose|j: int| 0 <= j < cs.len() && (#[trigger] cs[j]).value@ == p[0]
                && has_path(cs[j], p.drop_first());
            lemma_leaf_characterization(cs[j], n);
            if p.len() == 1 {
                assert(n == p[0]);
                if cs[j].children@.len() > 0 {
                    let d = cs[j].children@[0];
                    let ext = p.push(d.value@);
                    assert(ext.drop_first() =~= seq![d.value@]);
                    assert(seq![d.value@].drop_first() =~= Seq::<Seq<char>>::empty());
                    assert(d.value@ == seq![d.value@][0] && has_path(d, seq![
                        d.value@,
                    ].drop_first()));
                    assert(has_path(cs[j], seq![d.value@]));
                    assert(ext[0] == p[0]);
                    assert(cs[j].value@ == ext[0] && has_path(cs[j], ext.drop_first()));
                    assert(has_path(t, ext));
                    assert(false);
                }
                assert(leaf_names(cs[j]).contains(n));
            } else {
                let pp = p.drop_first();
                assert(pp.len() >= 1);
                assert(pp.last() == p.last());
                assert forall|q: Seq<char>| !has_path(cs[j], #[trigger] pp.push(q)) by {
                    if has_path(cs[j], pp.push(q)) {
                        let ext = p.push(q);
                        assert(ext.drop_first() =~= pp.push(q));
                        assert(ext[0] == p[0]);
                        assert(cs[j].value@ == ext[0] && has_path(cs[j], ext.drop_first()));
                        assert(has_path(t, ext));
                        assert(false);
                    }
                }
                assert(pp.len() >= 1 && is_max_chain(cs[j], pp) && pp.last() == n);
                assert(leaf_names(cs[j]).contains(n));
            }
            assert(leaf_names_of(cs, cs.len() as int).contains(n)) by {
                lemma_leaf_union(cs, cs.len() as int, n);
            }
        }
    }
}

} // verus!
