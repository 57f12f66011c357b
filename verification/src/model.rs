use vstd::prelude::*;

verus! {

/// The abstract state of one edge category: the logical edge map, keyed by
/// (source, target) with the insertion-order index as value, and the
/// category's running counter.
#[verifier::ext_equal]
pub struct CategoryModel {
    pub edges: Map<(u64, u64), u32>,
    pub count: u32,
}

/// A category is well formed when its edge map is finite and its counter
/// equals the number of edges present.
pub open spec fn cat_wf(m: CategoryModel) -> bool {
    m.edges.dom().finite() && m.count as int == m.edges.dom().len()
}

/// True iff the category holds an edge from `source` to `target`.
pub open spec fn cat_has(m: CategoryModel, source: u64, target: u64) -> bool {
    m.edges.contains_key((source, target))
}

/// The category with no edges and a zero counter.
pub open spec fn cat_empty() -> CategoryModel {
    CategoryModel { edges: Map::empty(), count: 0 }
}

/// What one transition did: the state it leads to, whether a notification
/// is emitted, and whether the transition failed. A failed transition
/// leaves the state unchanged.
#[verifier::ext_equal]
pub struct StepOutcome {
    pub post: CategoryModel,
    pub emitted: bool,
    pub err: bool,
}

/// The add transition shared by issue, revoke and request: a silent no-op
/// when the edge is already present, an overflow failure when the counter
/// is at its maximum, and otherwise an insert under the current counter
/// value paired with an increment and a notification.
pub open spec fn add_step(m: CategoryModel, source: u64, target: u64) -> StepOutcome {
    if cat_has(m, source, target) {
        StepOutcome { post: m, emitted: false, err: false }
    } else if m.count == u32::MAX {
        StepOutcome { post: m, emitted: false, err: true }
    } else {
        StepOutcome {
            post: CategoryModel {
                edges: m.edges.insert((source, target), m.count),
                count: (m.count + 1) as u32,
            },
            emitted: true,
            err: false,
        }
    }
}

/// The remove transition shared by the three removal operations: a silent
/// no-op when the edge is absent, and otherwise a delete paired with a
/// decrement and a notification. In a well-formed category a present edge
/// forces a positive counter, so the decrement cannot underflow; the
/// transition itself never fails.
pub open spec fn remove_step(m: CategoryModel, source: u64, target: u64) -> StepOutcome {
    if cat_has(m, source, target) {
        StepOutcome {
            post: CategoryModel {
                edges: m.edges.remove((source, target)),
                count: (m.count - 1) as u32,
            },
            emitted: true,
            err: false,
        }
    } else {
        StepOutcome { post: m, emitted: false, err: false }
    }
}

/// Idempotency law: repeating an add transition for the same pair leaves
/// the state reached by the first application unchanged and emits no
/// second notification, whatever the starting state.
pub proof fn lemma_add_idempotent(m: CategoryModel, source: u64, target: u64)
    ensures
        add_step(add_step(m, source, target).post, source, target).post == add_step(
            m,
            source,
            target,
        ).post,
        !add_step(add_step(m, source, target).post, source, target).emitted,
{
}

/// Round-trip law: adding an absent edge and then removing it restores the
/// category exactly — the same edges and the same counter — and leaves no
/// edge for the pair.
pub proof fn lemma_add_remove_round_trip(m: CategoryModel, source: u64, target: u64)
    requires
        !cat_has(m, source, target),
    ensures
        remove_step(add_step(m, source, target).post, source, target).post == m,
        !cat_has(remove_step(add_step(m, source, target).post, source, target).post, source, target),
{
    let k = (source, target);
    if m.count < u32::MAX {
        let m1 = add_step(m, source, target).post;
        assert(m1.edges.remove(k) =~= m.edges);
        assert(remove_step(m1, source, target).post =~= m);
    }
}

/// Whatever the starting state — edge present, absent, or the add refused
/// by overflow — an add followed by a remove of the same pair leaves no
/// edge for it.
pub proof fn lemma_add_remove_leaves_no_edge(m: CategoryModel, source: u64, target: u64)
    ensures
        !cat_has(remove_step(add_step(m, source, target).post, source, target).post, source, target),
{
}

/// Removal no-op law: removing an absent edge changes nothing, emits
/// nothing and does not fail.
pub proof fn lemma_remove_absent_noop(m: CategoryModel, source: u64, target: u64)
    requires
        !cat_has(m, source, target),
    ensures
        remove_step(m, source, target).post == m,
        !remove_step(m, source, target).emitted,
        !remove_step(m, source, target).err,
{
}

/// Both transitions preserve category well-formedness: the counter keeps
/// counting exactly the edges present.
pub proof fn lemma_step_preserves_wf(m: CategoryModel, source: u64, target: u64)
    requires
        cat_wf(m),
    ensures
        cat_wf(add_step(m, source, target).post),
        cat_wf(remove_step(m, source, target).post),
{
    let k = (source, target);
    if !cat_has(m, source, target) && m.count < u32::MAX {
        assert(add_step(m, source, target).post.edges.dom() =~= m.edges.dom().insert(k));
        vstd::set::axiom_set_insert_len(m.edges.dom(), k);
    }
    if cat_has(m, source, target) {
        assert(remove_step(m, source, target).post.edges.dom() =~= m.edges.dom().remove(k));
        vstd::set::axiom_set_contains_len(m.edges.dom(), k);
        vstd::set::axiom_set_remove_len(m.edges.dom(), k);
    }
}

} // verus!
