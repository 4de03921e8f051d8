//! What holds of the scene whatever is applied to it: nodes keep their place
//! in the tree, and a node that has left does not come back.

use vstd::prelude::*;
use crate::scene::{in_subtree, run, step, without_subtree, MutationView, NodeView};

verus! {

/// Whether `after` is a later state of the scene `before`: every node of
/// `before` is still in the arena with its parent, kind, name and placement,
/// a node that was not alive is not alive, and a node that was marked for
/// removal still is.
pub open spec fn follows(before: Seq<NodeView>, after: Seq<NodeView>) -> bool {
    &&& before.len() <= after.len()
    &&& forall|i: int|
        0 <= i < before.len() ==> {
            &&& (#[trigger] after[i]).parent == before[i].parent
            &&& after[i].kind == before[i].kind
            &&& after[i].name == before[i].name
            &&& after[i].placement == before[i].placement
            &&& (after[i].alive ==> before[i].alive)
            &&& (before[i].marked ==> after[i].marked)
        }
}

/// One mutation leads to a later state, in which every index is still a
/// machine word.
pub proof fn lemma_step_follows(s: Seq<NodeView>, m: MutationView)
    ensures
        follows(s, step(s, m)),
        s.len() <= usize::MAX ==> step(s, m).len() <= usize::MAX,
{
}

/// A queue of mutations leads to a later state, in which every index is still
/// a machine word.
pub proof fn lemma_run_follows(s: Seq<NodeView>, queue: Seq<MutationView>)
    ensures
        follows(s, run(s, queue)),
        s.len() <= usize::MAX ==> run(s, queue).len() <= usize::MAX,
    decreases queue.len(),
{
    if queue.len() > 0 {
        lemma_run_follows(s, queue.drop_last());
        lemma_step_follows(run(s, queue.drop_last()), queue.last());
    }
}

/// Applying two queues one after the other is applying them joined.
pub proof fn lemma_run_joined(s: Seq<NodeView>, first: Seq<MutationView>, second: Seq<MutationView>)
    ensures
        run(s, first + second) == run(run(s, first), second),
    decreases second.len(),
{
    if second.len() == 0 {
        assert(first + second =~= first);
    } else {
        lemma_run_joined(s, first, second.drop_last());
        assert((first + second).drop_last() =~= first + second.drop_last());
        assert((first + second).last() == second.last());
    }
}

/// What lies below a node does not change as the scene goes on: in a later
/// state, a node of the earlier one is below the same nodes as before.
pub proof fn lemma_subtree_is_stable(before: Seq<NodeView>, after: Seq<NodeView>, root: int, i: int)
    requires
        follows(before, after),
        0 <= i < before.len(),
    ensures
        in_subtree(after, root, i) == in_subtree(before, root, i),
    decreases i,
{
    if i != root {
        match before[i].parent {
            Some(p) => {
                if p < i {
                    lemma_subtree_is_stable(before, after, root, p as int);
                }
            },
            None => {},
        }
    }
}

/// Taking a subtree out of the scene leaves none of its nodes alive, but for
/// the root where it is kept.
pub proof fn lemma_subtree_leaves(s: Seq<NodeView>, root: int, keep_root: bool, i: int)
    requires
        0 <= i < s.len(),
        in_subtree(s, root, i),
        !(keep_root && i == root),
    ensures
        !without_subtree(s, root, keep_root)[i].alive,
{
}

/// Whether node `i` hangs well in the tree: if it is alive and no root, it
/// hangs under a live node of a lower index.
pub open spec fn hangs_well(s: Seq<NodeView>, i: int) -> bool {
    s[i].alive ==> match s[i].parent {
        Some(p) => p < i && s[p as int].alive,
        None => true,
    }
}

/// Whether the tree of the scene is sound: every node hangs well.
pub open spec fn is_sound(s: Seq<NodeView>) -> bool {
    forall|i: int| 0 <= i < s.len() ==> #[trigger] hangs_well(s, i)
}

proof fn lemma_keeps_above(s: Seq<NodeView>, root: int, i: int)
    requires
        0 <= i < s.len(),
        s[i].parent matches Some(p) && p < i && in_subtree(s, root, p as int),
    ensures
        in_subtree(s, root, i),
{
}

/// A subtree lies at and above the index of its root.
pub proof fn lemma_subtree_is_above(s: Seq<NodeView>, root: int, i: int)
    requires
        in_subtree(s, root, i),
    ensures
        root <= i,
    decreases i,
{
    if i != root {
        lemma_subtree_is_above(s, root, s[i].parent->0 as int);
    }
}

/// One mutation keeps the tree sound.
pub proof fn lemma_step_keeps_sound(s: Seq<NodeView>, m: MutationView)
    requires
        is_sound(s),
    ensures
        is_sound(step(s, m)),
{
    let after = step(s, m);
    assert forall|i: int| 0 <= i < after.len() implies #[trigger] hangs_well(after, i) by {
        if i < s.len() {
            assert(hangs_well(s, i));
            if after[i].alive {
                match s[i].parent {
                    Some(p) => {
                        match m {
                            MutationView::DespawnChildren { node } => {
                                if in_subtree(s, node as int, p as int) {
                                    lemma_keeps_above(s, node as int, i);
                                    lemma_subtree_is_above(s, node as int, p as int);
                                }
                            },
                            MutationView::DespawnSubtree { node } => {
                                if in_subtree(s, node as int, p as int) {
                                    lemma_keeps_above(s, node as int, i);
                                }
                            },
                            _ => {},
                        }
                    },
                    None => {},
                }
            }
        }
    }
}

/// A queue of mutations keeps the tree sound.
pub proof fn lemma_run_keeps_sound(s: Seq<NodeView>, queue: Seq<MutationView>)
    requires
        is_sound(s),
    ensures
        is_sound(run(s, queue)),
    decreases queue.len(),
{
    if queue.len() > 0 {
        lemma_run_keeps_sound(s, queue.drop_last());
        lemma_step_keeps_sound(run(s, queue.drop_last()), queue.last());
    }
}

/// In a sound tree, a live node below a root lies in the subtree of a live
/// child of that root.
pub proof fn lemma_child_on_path(s: Seq<NodeView>, root: int, i: int) -> (child: int)
    requires
        is_sound(s),
        0 <= i < s.len(),
        s[i].alive,
        i != root,
        in_subtree(s, root, i),
    ensures
        0 <= child < s.len(),
        s[child].alive,
        s[child].parent == Some(root as usize),
        0 <= root <= usize::MAX,
        in_subtree(s, child, i),
    decreases i,
{
    assert(hangs_well(s, i));
    let p = s[i].parent->0 as int;
    if p == root {
        i
    } else {
        let child = lemma_child_on_path(s, root, p);
        lemma_keeps_above(s, child, i);
        child
    }
}

} // verus!
