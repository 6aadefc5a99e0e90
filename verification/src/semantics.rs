//! What one step of a state may do, stated over views: a relation between
//! the state and grid before the step, the state and grid after it, and the
//! answer of the step.

use vstd::prelude::*;
use crate::grid::GridView;
use crate::node::{initial_state, initial_states, NodeView, StateView};
use crate::point::Point;
use crate::rule::{rules_wf, RuleView};
use crate::symbol::Symbol;

verus! {

/// A node with a limit has made as many steps as the limit allows.
pub open spec fn limit_reached(limit: Option<nat>, taken: nat) -> bool {
    limit is Some && taken >= limit.unwrap()
}

/// The count after a step that made progress: a node without a limit keeps
/// no count.
pub open spec fn counted(limit: Option<nat>, taken: nat) -> nat {
    if limit is Some {
        taken + 1
    } else {
        taken
    }
}

/// Every rule in the tree is well formed.
pub open spec fn state_wf(state: StateView) -> bool
    decreases state,
{
    match state {
        StateView::Markov { children } => states_wf(children),
        StateView::Sequence { children, index } => states_wf(children),
        StateView::One { rules, limit, taken } => rules_wf(rules),
        StateView::All { rules, limit, taken } => rules_wf(rules),
        StateView::Prl { rules } => rules_wf(rules),
    }
}

/// Every state of a list is well formed.
pub open spec fn states_wf(states: Seq<StateView>) -> bool
    decreases states,
{
    forall|i: int| 0 <= i < states.len() ==> state_wf(#[trigger] states[i])
}

/// Every rule in the tree of nodes is well formed.
pub open spec fn node_wf(node: NodeView) -> bool
    decreases node,
{
    match node {
        NodeView::Markov { children } => nodes_wf(children),
        NodeView::Sequence { children } => nodes_wf(children),
        NodeView::One { rules, limit } => rules_wf(rules),
        NodeView::All { rules, limit } => rules_wf(rules),
        NodeView::Prl { rules } => rules_wf(rules),
    }
}

/// Every node of a list is well formed.
pub open spec fn nodes_wf(nodes: Seq<NodeView>) -> bool
    decreases nodes,
{
    forall|i: int| 0 <= i < nodes.len() ==> node_wf(#[trigger] nodes[i])
}

/// The state in which a well-formed node starts is well formed.
pub proof fn lemma_initial_state_wf(node: NodeView)
    requires
        node_wf(node),
    ensures
        state_wf(initial_state(node)),
    decreases node,
{
    match node {
        NodeView::Markov { children } => {
            assert forall|i: int| 0 <= i < children.len() implies state_wf(
                #[trigger] initial_states(children)[i],
            ) by {
                assert(node_wf(children[i]));
                lemma_initial_state_wf(children[i]);
            }
            assert(states_wf(initial_states(children)));
        },
        NodeView::Sequence { children } => {
            assert forall|i: int| 0 <= i < children.len() implies state_wf(
                #[trigger] initial_states(children)[i],
            ) by {
                assert(node_wf(children[i]));
                lemma_initial_state_wf(children[i]);
            }
            assert(states_wf(initial_states(children)));
        },
        _ => {},
    }
}

/// A step of a One node. At its limit, or without a match, it answers
/// `false` and changes nothing. Otherwise it answers `true`, one of the
/// collected matches has been applied, and the step is counted.
pub open spec fn one_steps(
    rules: Seq<RuleView>,
    limit: Option<nat>,
    taken: nat,
    grid: GridView<Symbol>,
    post: StateView,
    after: GridView<Symbol>,
    progressed: bool,
) -> bool {
    let matched = grid.all_matches(rules);
    if limit_reached(limit, taken) || matched.len() == 0 {
        &&& !progressed
        &&& after == grid
        &&& post == (StateView::One { rules, limit, taken })
    } else {
        &&& progressed
        &&& post == (StateView::One { rules, limit, taken: counted(limit, taken) })
        &&& exists|k: int|
            0 <= k < matched.len() && after == grid.rewritten(rules, #[trigger] matched[k])
    }
}

/// A step of an All node. At its limit, or without a match, it answers
/// `false` and changes nothing. Otherwise it answers `true`, the collected
/// matches have been applied in some order, each only if it still matched
/// at its turn, and the step is counted.
pub open spec fn all_steps(
    rules: Seq<RuleView>,
    limit: Option<nat>,
    taken: nat,
    grid: GridView<Symbol>,
    post: StateView,
    after: GridView<Symbol>,
    progressed: bool,
) -> bool {
    let matched = grid.all_matches(rules);
    if limit_reached(limit, taken) || matched.len() == 0 {
        &&& !progressed
        &&& after == grid
        &&& post == (StateView::All { rules, limit, taken })
    } else {
        &&& progressed
        &&& post == (StateView::All { rules, limit, taken: counted(limit, taken) })
        &&& exists|order: Seq<(usize, Point)>|
            #[trigger] order.to_multiset() == matched.to_multiset() && after
                == grid.rewritten_each_matching(rules, order)
    }
}

/// A step of a Prl node. Without a match it answers `false` and changes
/// nothing. Otherwise it answers `true`, and every collected match has been
/// applied, in some order, without a second test.
pub open spec fn prl_steps(
    rules: Seq<RuleView>,
    grid: GridView<Symbol>,
    post: StateView,
    after: GridView<Symbol>,
    progressed: bool,
) -> bool {
    let matched = grid.all_matches(rules);
    &&& post == (StateView::Prl { rules })
    &&& if matched.len() == 0 {
        !progressed && after == grid
    } else {
        &&& progressed
        &&& exists|order: Seq<(usize, Point)>|
            #[trigger] order.to_multiset() == matched.to_multiset() && after
                == grid.rewritten_each(rules, order)
    }
}

/// Names the child at which a Markov step stops; it holds of every index.
pub open spec fn stop_index(stop: int) -> bool {
    true
}

/// A step of a Markov node that stops at child `stop`: the children before
/// it have answered `false`, child `stop` has answered `true`, and the
/// children after it have not been asked. With `stop` equal to the number of
/// children, every child has answered `false`.
pub open spec fn markov_stops_at(
    children: Seq<StateView>,
    grid: GridView<Symbol>,
    new_children: Seq<StateView>,
    after: GridView<Symbol>,
    progressed: bool,
    stop: int,
) -> bool
    decreases children, 0nat,
{
    &&& new_children.len() == children.len()
    &&& 0 <= stop <= children.len()
    &&& progressed == (stop < children.len())
    &&& forall|j: int|
        0 <= j < stop && j < children.len() ==> steps(
            children[j],
            grid,
            #[trigger] new_children[j],
            grid,
            false,
        )
    &&& 0 <= stop < children.len() ==> steps(
        children[stop],
        grid,
        new_children[stop],
        after,
        true,
    )
    &&& stop == children.len() ==> after == grid
    &&& forall|j: int| stop < j < children.len() ==> #[trigger] new_children[j] == children[j]
}

/// A step of a Sequence node that starts at child `index` and ends at child
/// `new_index`: the children from `index` up to `new_index` have answered
/// `false` and are left behind for good, and child `new_index`, if there is
/// one, has answered `true`.
pub open spec fn sequence_steps(
    children: Seq<StateView>,
    index: nat,
    grid: GridView<Symbol>,
    new_children: Seq<StateView>,
    new_index: nat,
    after: GridView<Symbol>,
    progressed: bool,
) -> bool
    decreases children, 0nat,
{
    &&& new_children.len() == children.len()
    &&& if index >= children.len() {
        &&& !progressed
        &&& new_index == index
        &&& after == grid
        &&& new_children == children
    } else {
        &&& index <= new_index <= children.len()
        &&& progressed == (new_index < children.len())
        &&& forall|j: int|
            index <= j < new_index && 0 <= j < children.len() ==> steps(
                children[j],
                grid,
                #[trigger] new_children[j],
                grid,
                false,
            )
        &&& new_index < children.len() ==> steps(
            children[new_index as int],
            grid,
            new_children[new_index as int],
            after,
            true,
        )
        &&& new_index == children.len() ==> after == grid
        &&& forall|j: int|
            0 <= j < children.len() && (j < index || j > new_index) ==> #[trigger] new_children[j]
                == children[j]
    }
}

/// What one step may do: from state `pre` and grid `grid` it may lead to
/// state `post` and grid `after` with the answer `progressed`.
pub open spec fn steps(
    pre: StateView,
    grid: GridView<Symbol>,
    post: StateView,
    after: GridView<Symbol>,
    progressed: bool,
) -> bool
    decreases pre, 1nat,
{
    match pre {
        StateView::Markov { children } => {
            &&& post is Markov
            &&& exists|stop: int|
                #[trigger] stop_index(stop) && markov_stops_at(
                    children,
                    grid,
                    post->Markov_children,
                    after,
                    progressed,
                    stop,
                )
        },
        StateView::Sequence { children, index } => {
            &&& post is Sequence
            &&& sequence_steps(
                children,
                index,
                grid,
                post->Sequence_children,
                post->Sequence_index,
                after,
                progressed,
            )
        },
        StateView::One { rules, limit, taken } => one_steps(
            rules,
            limit,
            taken,
            grid,
            post,
            after,
            progressed,
        ),
        StateView::All { rules, limit, taken } => all_steps(
            rules,
            limit,
            taken,
            grid,
            post,
            after,
            progressed,
        ),
        StateView::Prl { rules } => prl_steps(rules, grid, post, after, progressed),
    }
}

} // verus!
