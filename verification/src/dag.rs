//! Porting the constraints of a tree of components to the JSON debug file.
use crate::algebra::{constraint_string, Constraint};
use crate::constraint_writers::debug_writer::DebugWriter;
use crate::constraint_writers::json_writer::ConstraintJSON;
use crate::strings::strings_view;
use vstd::prelude::*;

verus! {

/// A tree of components: the constraints of a node, in its own signal
/// numbering, and the subtrees of its subcomponents, in the order of its
/// edges.
pub struct Tree {
    pub constraints: Vec<Constraint>,
    pub subtrees: Vec<Tree>,
}

/// Every constraint in the tree is well-formed.
pub open spec fn tree_wf(t: Tree) -> bool
    decreases t,
{
    &&& forall|i: int| 0 <= i < t.constraints.len() ==> #[trigger] t.constraints@[i].wf()
    &&& forall|i: int|
        0 <= i < t.subtrees.len() ==> tree_wf(#[trigger] t.subtrees@[i])
}

/// The texts of the constraints `cs`, in order.
pub open spec fn constraint_strings(cs: Seq<Constraint>) -> Seq<Seq<char>> {
    cs.map_values(|c: Constraint| constraint_string(c.a@, c.b@, c.c@))
}

/// The texts of the constraints of a tree in depth-first preorder: the
/// node's own constraints, then those of each subtree in turn.
pub open spec fn tree_strings(t: Tree) -> Seq<Seq<char>>
    decreases t, 1int,
{
    constraint_strings(t.constraints@) + forest_strings(t.subtrees@)
}

/// The texts of the constraints of the trees `ts`, one tree after another.
pub open spec fn forest_strings(ts: Seq<Tree>) -> Seq<Seq<char>>
    decreases ts, 0int,
{
    if ts.len() == 0 {
        Seq::empty()
    } else {
        forest_strings(ts.drop_last()) + tree_strings(ts.last())
    }
}

/// The text of a constraint, as in the constraint list.
pub fn transform_constraint_to_string(constraint: &Constraint) -> (res: String)
    requires
        constraint.wf(),
    ensures
        res@ == constraint_string(constraint.a@, constraint.b@, constraint.c@),
{
    crate::constraint_list::transform_constraint_to_string(constraint)
}

/// Records the constraints of the tree in depth-first preorder.
pub fn visit_tree(tree: &Tree, writer: &mut ConstraintJSON)
    requires
        tree_wf(*tree),
    ensures
        final(writer).file == old(writer).file,
        strings_view(final(writer).constraints@) == strings_view(old(writer).constraints@)
            + tree_strings(*tree),
    decreases tree,
{
    let ghost start = strings_view(writer.constraints@);
    let n = tree.constraints.len();
    for i in 0..n
        invariant
            n == tree.constraints.len(),
            tree_wf(*tree),
            writer.file == old(writer).file,
            strings_view(writer.constraints@) == start + constraint_strings(
                tree.constraints@.take(i as int),
            ),
    {
        assert(tree.constraints@[i as int].wf());
        let json_value = transform_constraint_to_string(&tree.constraints[i]);
        writer.write_constraint(json_value.as_str());
        assert(constraint_strings(tree.constraints@.take(i + 1)) =~= constraint_strings(
            tree.constraints@.take(i as int),
        ).push(json_value@));
    }
    assert(tree.constraints@.take(n as int) =~= tree.constraints@);
    let ghost mid = strings_view(writer.constraints@);
    let m = tree.subtrees.len();
    for j in 0..m
        invariant
            m == tree.subtrees.len(),
            tree_wf(*tree),
            writer.file == old(writer).file,
            strings_view(writer.constraints@) == mid + forest_strings(
                tree.subtrees@.take(j as int),
            ),
    {
        assert(tree_wf(tree.subtrees@[j as int]));
        visit_tree(&tree.subtrees[j], writer);
        let ghost t = tree.subtrees@.take(j + 1);
        assert(t.drop_last() =~= tree.subtrees@.take(j as int));
        assert(t.last() == tree.subtrees@[j as int]);
    }
    assert(tree.subtrees@.take(m as int) =~= tree.subtrees@);
}

/// Ports the constraints of the tree to the list bound for the JSON file of
/// `debug`, in depth-first preorder.
pub fn port_constraints(tree: &Tree, debug: &DebugWriter) -> (res: ConstraintJSON)
    requires
        tree_wf(*tree),
    ensures
        res.file@ == debug.json_constraints@,
        strings_view(res.constraints@) == tree_strings(*tree),
{
    let mut writer = debug.build_constraints_file();
    assert(strings_view(writer.constraints@) =~= Seq::<Seq<char>>::empty());
    visit_tree(tree, &mut writer);
    assert(strings_view(writer.constraints@) =~= tree_strings(*tree));
    writer
}

/// The ported list of the first `j` trees is a prefix of the ported list
/// of them all.
proof fn lemma_forest_prefix(ts: Seq<Tree>, j: int)
    requires
        0 <= j <= ts.len(),
    ensures
        forest_strings(ts.take(j)).len() <= forest_strings(ts).len(),
        forest_strings(ts).subrange(0, forest_strings(ts.take(j)).len() as int) == forest_strings(
            ts.take(j),
        ),
    decreases ts.len(),
{
    if j == ts.len() {
        assert(ts.take(j) =~= ts);
        assert(forest_strings(ts).subrange(0, forest_strings(ts).len() as int) =~= forest_strings(
            ts,
        ));
    } else {
        let d = ts.drop_last();
        assert(ts.take(j) =~= d.take(j));
        lemma_forest_prefix(d, j);
        let p = forest_strings(d.take(j));
        assert(forest_strings(ts) == forest_strings(d) + tree_strings(ts.last()));
        assert(forest_strings(ts).subrange(0, p.len() as int) =~= forest_strings(d).subrange(
            0,
            p.len() as int,
        ));
    }
}

/// The node's own constraints come first in the ported list of a tree, in
/// their order.
pub proof fn lemma_own_constraints_first(t: Tree)
    ensures
        constraint_strings(t.constraints@).len() <= tree_strings(t).len(),
        tree_strings(t).subrange(0, constraint_strings(t.constraints@).len() as int)
            == constraint_strings(t.constraints@),
{
    let own = constraint_strings(t.constraints@);
    assert(tree_strings(t).subrange(0, own.len() as int) =~= own);
}

/// Every subtree is ported, whatever the node's own constraints: the ported
/// list of each subtree stands, whole and in order, in that of the tree,
/// after the node's own constraints.
pub proof fn lemma_subtree_ported(t: Tree, j: int)
    requires
        0 <= j < t.subtrees.len(),
    ensures
        exists|k: int|
            constraint_strings(t.constraints@).len() <= k && k + tree_strings(t.subtrees@[j]).len()
                <= tree_strings(t).len() && #[trigger] tree_strings(t).subrange(
                k,
                k + tree_strings(t.subtrees@[j]).len(),
            ) == tree_strings(t.subtrees@[j]),
{
    let own = constraint_strings(t.constraints@);
    let ts = t.subtrees@;
    let sub = tree_strings(ts[j]);
    lemma_forest_prefix(ts, j + 1);
    let before = forest_strings(ts.take(j));
    assert(ts.take(j + 1).drop_last() =~= ts.take(j));
    assert(ts.take(j + 1).last() == ts[j]);
    let upto = forest_strings(ts.take(j + 1));
    assert(upto == before + sub);
    let whole = tree_strings(t);
    let k: int = (own.len() + before.len()) as int;
    assert(whole == own + forest_strings(ts));
    assert(whole.subrange(k, k + sub.len() as int) =~= upto.subrange(before.len() as int, upto.len() as int));
    assert(upto.subrange(before.len() as int, upto.len() as int) =~= sub);
}

} // verus!
