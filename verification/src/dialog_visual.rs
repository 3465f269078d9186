//! Which entities of an open dialog take part in its fade animation, in which order, and in
//! which role.
//!
//! Every frame in which the dialog's visual changes, the backdrops among the dialog's
//! children are dimmed, each panel under a backdrop is scaled and faded, and every
//! descendant of a panel is faded depth first. A descendant that is a button takes its
//! colours from its variant; any other descendant with a background remembers the alpha
//! of that background the first time it is faded.
use vstd::prelude::*;

use crate::hierarchy::{
    acyclic, ancestor, children_of, lemma_ancestor_step, lemma_chain_bounded, parent_of, EntityTree,
    TreeNode,
};
use crate::hierarchy::vec_contains;

verus! {

/// What happens to one entity while a dialog fades.
#[derive(PartialEq, Eq, Structural, Clone, Copy, Debug)]
pub enum VisualStep {
    /// A backdrop of the dialog: its background is dimmed.
    Backdrop(u64),
    /// A panel under a backdrop: scaled, moved, and its background and border faded.
    Panel(u64),
    /// A button inside a panel: faded from its variant's colours.
    Button(u64),
    /// Any other entity inside a panel; `record_base_alpha` tells whether the alpha of its
    /// background is to be remembered now (it has a background and none was remembered).
    Element { entity: u64, record_base_alpha: bool },
}

/// What the fade needs to know of the entities, besides the hierarchy.
pub struct VisualFlags {
    /// Entities that are dialog backdrops.
    pub backdrops: Vec<u64>,
    /// Entities that are buttons.
    pub buttons: Vec<u64>,
    /// Entities that have a background colour.
    pub with_background: Vec<u64>,
    /// Entities whose background alpha is already remembered.
    pub with_stored_base_alpha: Vec<u64>,
}

/// The role of a descendant of a panel.
pub open spec fn element_step(flags: VisualFlags, e: u64) -> VisualStep {
    if flags.buttons@.contains(e) {
        VisualStep::Button(e)
    } else {
        VisualStep::Element {
            entity: e,
            record_base_alpha: flags.with_background@.contains(e)
                && !flags.with_stored_base_alpha@.contains(e),
        }
    }
}

/// `e` and its descendants, depth first, looking at most `fuel` levels below `e`.
pub open spec fn subtree_steps(nodes: Seq<TreeNode>, flags: VisualFlags, e: u64, fuel: nat) -> Seq<
    VisualStep,
>
    decreases fuel, 0nat,
{
    if fuel == 0 {
        seq![element_step(flags, e)]
    } else {
        seq![element_step(flags, e)] + forest_steps(
            nodes,
            flags,
            children_of(nodes, e),
            (fuel - 1) as nat,
        )
    }
}

/// The subtrees of the entities `cs`, one after the other.
pub open spec fn forest_steps(
    nodes: Seq<TreeNode>,
    flags: VisualFlags,
    cs: Seq<u64>,
    fuel: nat,
) -> Seq<VisualStep>
    decreases fuel, cs.len(),
{
    if cs.len() == 0 {
        Seq::empty()
    } else {
        forest_steps(nodes, flags, cs.drop_last(), fuel) + subtree_steps(
            nodes,
            flags,
            cs.last(),
            fuel,
        )
    }
}

/// A panel, then the subtrees of its children.
pub open spec fn panel_steps(nodes: Seq<TreeNode>, flags: VisualFlags, p: u64, fuel: nat) -> Seq<
    VisualStep,
> {
    seq![VisualStep::Panel(p)] + forest_steps(nodes, flags, children_of(nodes, p), fuel)
}

/// The panels `ps`, one after the other.
pub open spec fn panels_steps(
    nodes: Seq<TreeNode>,
    flags: VisualFlags,
    ps: Seq<u64>,
    fuel: nat,
) -> Seq<VisualStep>
    decreases ps.len(),
{
    if ps.len() == 0 {
        Seq::empty()
    } else {
        panels_steps(nodes, flags, ps.drop_last(), fuel) + panel_steps(
            nodes,
            flags,
            ps.last(),
            fuel,
        )
    }
}

/// The backdrops among the children `cs` of a dialog, each followed by its panels.
pub open spec fn backdrops_steps(
    nodes: Seq<TreeNode>,
    flags: VisualFlags,
    cs: Seq<u64>,
    fuel: nat,
) -> Seq<VisualStep>
    decreases cs.len(),
{
    if cs.len() == 0 {
        Seq::empty()
    } else if flags.backdrops@.contains(cs.last()) {
        backdrops_steps(nodes, flags, cs.drop_last(), fuel) + seq![VisualStep::Backdrop(cs.last())]
            + panels_steps(nodes, flags, children_of(nodes, cs.last()), fuel)
    } else {
        backdrops_steps(nodes, flags, cs.drop_last(), fuel)
    }
}

/// Every step of the fade of `dialog`, with the hierarchy depth bounded by the number of
/// nodes of the snapshot.
pub open spec fn dialog_steps(nodes: Seq<TreeNode>, flags: VisualFlags, dialog: u64) -> Seq<
    VisualStep,
> {
    backdrops_steps(nodes, flags, children_of(nodes, dialog), nodes.len())
}

/// The children of `e` in `tree`, copied.
fn children_vec(tree: &EntityTree, e: u64) -> (res: Vec<u64>)
    ensures
        res@ == children_of(tree@, e),
{
    match tree.node(e) {
        Some(n) => n.children.clone(),
        None => Vec::new(),
    }
}

fn element_step_exec(flags: &VisualFlags, e: u64) -> (res: VisualStep)
    ensures
        res == element_step(*flags, e),
{
    if vec_contains(&flags.buttons, e) {
        VisualStep::Button(e)
    } else {
        let record = vec_contains(&flags.with_background, e) && !vec_contains(
            &flags.with_stored_base_alpha,
            e,
        );
        VisualStep::Element { entity: e, record_base_alpha: record }
    }
}

fn push_subtree(
    tree: &EntityTree,
    flags: &VisualFlags,
    e: u64,
    fuel: usize,
    out: &mut Vec<VisualStep>,
)
    ensures
        final(out)@ == old(out)@ + subtree_steps(tree@, *flags, e, fuel as nat),
    decreases fuel, 0nat,
{
    let ghost start = out@;
    out.push(element_step_exec(flags, e));
    if fuel > 0 {
        let cs = children_vec(tree, e);
        push_forest(tree, flags, &cs, fuel - 1, out);
    }
    assert(out@ =~= start + subtree_steps(tree@, *flags, e, fuel as nat));
}

fn push_forest(
    tree: &EntityTree,
    flags: &VisualFlags,
    cs: &Vec<u64>,
    fuel: usize,
    out: &mut Vec<VisualStep>,
)
    ensures
        final(out)@ == old(out)@ + forest_steps(tree@, *flags, cs@, fuel as nat),
    decreases fuel, 1nat,
{
    let ghost start = out@;
    let mut i: usize = 0;
    assert(cs@.take(0) =~= Seq::<u64>::empty());
    while i < cs.len()
        invariant
            i <= cs.len(),
            out@ == start + forest_steps(tree@, *flags, cs@.take(i as int), fuel as nat),
        decreases cs.len() - i,
    {
        push_subtree(tree, flags, cs[i], fuel, out);
        proof {
            let t = cs@.take(i + 1);
            assert(t.drop_last() =~= cs@.take(i as int));
            assert(t.last() == cs@[i as int]);
        }
        i = i + 1;
    }
    assert(cs@.take(cs.len() as int) =~= cs@);
}

/// The steps of the fade of `dialog`, in the order in which they are applied: each
/// backdrop among the dialog's children, then each of that backdrop's panels followed by
/// the panel's descendants depth first.
pub fn dialog_visual_steps(tree: &EntityTree, flags: &VisualFlags, dialog: u64) -> (res: Vec<
    VisualStep,
>)
    ensures
        res@ == dialog_steps(tree@, *flags, dialog),
{
    let fuel: usize = tree.nodes.len();
    let cs = children_vec(tree, dialog);
    let mut out: Vec<VisualStep> = Vec::new();
    let mut i: usize = 0;
    assert(cs@.take(0) =~= Seq::<u64>::empty());
    while i < cs.len()
        invariant
            i <= cs.len(),
            fuel == tree.nodes.len(),
            out@ == backdrops_steps(tree@, *flags, cs@.take(i as int), fuel as nat),
        decreases cs.len() - i,
    {
        let c: u64 = cs[i];
        let ghost before = out@;
        proof {
            let t = cs@.take(i + 1);
            assert(t.drop_last() =~= cs@.take(i as int));
            assert(t.last() == c);
        }
        if vec_contains(&flags.backdrops, c) {
            out.push(VisualStep::Backdrop(c));
            let ps = children_vec(tree, c);
            let mut j: usize = 0;
            assert(ps@.take(0) =~= Seq::<u64>::empty());
            while j < ps.len()
                invariant
                    j <= ps.len(),
                    out@ == before + seq![VisualStep::Backdrop(c)] + panels_steps(
                        tree@,
                        *flags,
                        ps@.take(j as int),
                        fuel as nat,
                    ),
                decreases ps.len() - j,
            {
                let p: u64 = ps[j];
                let ghost mid = out@;
                out.push(VisualStep::Panel(p));
                let grand = children_vec(tree, p);
                push_forest(tree, flags, &grand, fuel, &mut out);
                proof {
                    let t = ps@.take(j + 1);
                    assert(t.drop_last() =~= ps@.take(j as int));
                    assert(t.last() == p);
                    assert(out@ =~= mid + panel_steps(tree@, *flags, p, fuel as nat));
                }
                j = j + 1;
            }
            assert(ps@.take(ps.len() as int) =~= ps@);
            assert(out@ =~= backdrops_steps(tree@, *flags, cs@.take(i + 1), fuel as nat));
        }
        i = i + 1;
    }
    assert(cs@.take(cs.len() as int) =~= cs@);
    out
}

// ---------------------------------------------------------------------------------------
// The depth bound
// ---------------------------------------------------------------------------------------

/// Every child lists its parent as parent.
pub open spec fn consistent(nodes: Seq<TreeNode>) -> bool {
    forall|e: u64, i: int|
        0 <= i < children_of(nodes, e).len() ==> parent_of(nodes, #[trigger] children_of(nodes, e)[i])
            == Some(e)
}

/// Whether `e` has a descendant `k` levels below it.
pub open spec fn has_descendant_at(nodes: Seq<TreeNode>, e: u64, k: nat) -> bool
    decreases k, 0nat,
{
    if k == 0 {
        true
    } else {
        any_has_descendant_at(nodes, children_of(nodes, e), (k - 1) as nat)
    }
}

/// Whether one of `cs` has a descendant `k` levels below it.
pub open spec fn any_has_descendant_at(nodes: Seq<TreeNode>, cs: Seq<u64>, k: nat) -> bool
    decreases k, cs.len() + 1,
{
    if cs.len() == 0 {
        false
    } else {
        has_descendant_at(nodes, cs.last(), k) || any_has_descendant_at(nodes, cs.drop_last(), k)
    }
}

proof fn lemma_any_has_descendant_at(nodes: Seq<TreeNode>, cs: Seq<u64>, k: nat)
    ensures
        any_has_descendant_at(nodes, cs, k) <==> exists|i: int|
            0 <= i < cs.len() && #[trigger] has_descendant_at(nodes, cs[i], k),
    decreases cs.len(),
{
    if cs.len() > 0 {
        lemma_any_has_descendant_at(nodes, cs.drop_last(), k);
        if exists|i: int| 0 <= i < cs.len() && #[trigger] has_descendant_at(nodes, cs[i], k) {
            let i = choose|i: int| 0 <= i < cs.len() && #[trigger] has_descendant_at(nodes, cs[i], k);
            if i < cs.len() - 1 {
                assert(cs.drop_last()[i] == cs[i]);
            }
        }
        if any_has_descendant_at(nodes, cs.drop_last(), k) {
            let i = choose|i: int|
                0 <= i < cs.drop_last().len() && #[trigger] has_descendant_at(
                    nodes,
                    cs.drop_last()[i],
                    k,
                );
            assert(cs[i] == cs.drop_last()[i]);
        }
        if has_descendant_at(nodes, cs.last(), k) {
            assert(has_descendant_at(nodes, cs[cs.len() - 1], k));
        }
    }
}

/// A descendant `k` levels below `e` has `e` as its `k`-th ancestor.
proof fn lemma_descendant_has_ancestor(nodes: Seq<TreeNode>, e: u64, k: nat) -> (d: u64)
    requires
        consistent(nodes),
        has_descendant_at(nodes, e, k),
    ensures
        ancestor(nodes, d, k) == Some(e),
    decreases k,
{
    if k == 0 {
        e
    } else {
        let cs = children_of(nodes, e);
        let k1 = (k - 1) as nat;
        lemma_any_has_descendant_at(nodes, cs, k1);
        let i = choose|i: int| 0 <= i < cs.len() && #[trigger] has_descendant_at(nodes, cs[i], k1);
        let d = lemma_descendant_has_ancestor(nodes, cs[i], k1);
        lemma_ancestor_step(nodes, d, k1);
        assert(parent_of(nodes, cs[i]) == Some(e));
        d
    }
}

/// In a consistent acyclic hierarchy nothing lies more levels below an entity than the
/// snapshot has nodes.
proof fn lemma_no_deep_descendant(nodes: Seq<TreeNode>, e: u64, k: nat)
    requires
        consistent(nodes),
        acyclic(nodes),
        k > nodes.len(),
    ensures
        !has_descendant_at(nodes, e, k),
{
    if has_descendant_at(nodes, e, k) {
        let d = lemma_descendant_has_ancestor(nodes, e, k);
        lemma_chain_bounded(nodes, d, k);
    }
}

/// One more level of depth changes nothing when nothing lies that deep.
proof fn lemma_subtree_one_more(nodes: Seq<TreeNode>, flags: VisualFlags, e: u64, f: nat)
    requires
        !has_descendant_at(nodes, e, f + 1),
    ensures
        subtree_steps(nodes, flags, e, f) == subtree_steps(nodes, flags, e, f + 1),
    decreases f, 0nat,
{
    let cs = children_of(nodes, e);
    if f == 0 {
        lemma_any_has_descendant_at(nodes, cs, 0);
        if cs.len() > 0 {
            assert(has_descendant_at(nodes, cs[0], 0));
        }
        assert(cs.len() == 0);
        assert(forest_steps(nodes, flags, cs, 0) =~= Seq::<VisualStep>::empty());
    } else {
        lemma_any_has_descendant_at(nodes, cs, f);
        lemma_forest_one_more(nodes, flags, cs, (f - 1) as nat);
    }
}

proof fn lemma_forest_one_more(nodes: Seq<TreeNode>, flags: VisualFlags, cs: Seq<u64>, f: nat)
    requires
        forall|i: int| 0 <= i < cs.len() ==> !has_descendant_at(nodes, #[trigger] cs[i], f + 1),
    ensures
        forest_steps(nodes, flags, cs, f) == forest_steps(nodes, flags, cs, f + 1),
    decreases f, cs.len(),
{
    if cs.len() > 0 {
        assert(!has_descendant_at(nodes, cs[cs.len() - 1], f + 1));
        lemma_forest_one_more(nodes, flags, cs.drop_last(), f);
        lemma_subtree_one_more(nodes, flags, cs.last(), f);
    }
}

/// Any depth bound at least the number of nodes gives the same steps below `cs`.
proof fn lemma_forest_bound(nodes: Seq<TreeNode>, flags: VisualFlags, cs: Seq<u64>, f: nat)
    requires
        consistent(nodes),
        acyclic(nodes),
        f >= nodes.len(),
    ensures
        forest_steps(nodes, flags, cs, f) == forest_steps(nodes, flags, cs, nodes.len()),
    decreases f,
{
    if f > nodes.len() {
        lemma_forest_bound(nodes, flags, cs, (f - 1) as nat);
        assert forall|i: int| 0 <= i < cs.len() implies !has_descendant_at(
            nodes,
            #[trigger] cs[i],
            f,
        ) by {
            lemma_no_deep_descendant(nodes, cs[i], f);
        }
        lemma_forest_one_more(nodes, flags, cs, (f - 1) as nat);
    }
}

proof fn lemma_panels_bound(nodes: Seq<TreeNode>, flags: VisualFlags, ps: Seq<u64>, f: nat)
    requires
        consistent(nodes),
        acyclic(nodes),
        f >= nodes.len(),
    ensures
        panels_steps(nodes, flags, ps, f) == panels_steps(nodes, flags, ps, nodes.len()),
    decreases ps.len(),
{
    if ps.len() > 0 {
        lemma_panels_bound(nodes, flags, ps.drop_last(), f);
        lemma_forest_bound(nodes, flags, children_of(nodes, ps.last()), f);
    }
}

proof fn lemma_backdrops_bound(nodes: Seq<TreeNode>, flags: VisualFlags, cs: Seq<u64>, f: nat)
    requires
        consistent(nodes),
        acyclic(nodes),
        f >= nodes.len(),
    ensures
        backdrops_steps(nodes, flags, cs, f) == backdrops_steps(nodes, flags, cs, nodes.len()),
    decreases cs.len(),
{
    if cs.len() > 0 {
        lemma_backdrops_bound(nodes, flags, cs.drop_last(), f);
        lemma_panels_bound(nodes, flags, children_of(nodes, cs.last()), f);
    }
}

/// In a consistent acyclic hierarchy the depth bound of `dialog_steps` never cuts the
/// walk short: allowing the walk to go any deeper gives the same steps, so every
/// descendant of every panel is faded.
pub proof fn lemma_dialog_steps_reach_all(
    nodes: Seq<TreeNode>,
    flags: VisualFlags,
    dialog: u64,
    f: nat,
)
    requires
        consistent(nodes),
        acyclic(nodes),
        f >= nodes.len(),
    ensures
        backdrops_steps(nodes, flags, children_of(nodes, dialog), f) == dialog_steps(
            nodes,
            flags,
            dialog,
        ),
{
    lemma_backdrops_bound(nodes, flags, children_of(nodes, dialog), f);
}

} // verus!
