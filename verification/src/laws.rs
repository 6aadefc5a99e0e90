//! Laws of the interpreter, proved from the step relation.

use vstd::prelude::*;
use crate::grid::GridView;
use crate::node::StateView;
use crate::rule::RuleView;
use crate::semantics::{limit_reached, markov_stops_at, steps, stop_index};
use crate::symbol::Symbol;

verus! {

/// A leaf has work on a grid: some rule matches somewhere, and the limit,
/// if there is one, is not reached. Inner nodes have none of their own.
pub open spec fn leaf_has_work(state: StateView, grid: GridView<Symbol>) -> bool {
    match state {
        StateView::One { rules, limit, taken } => !limit_reached(limit, taken) && grid.all_matches(
            rules,
        ).len() > 0,
        StateView::All { rules, limit, taken } => !limit_reached(limit, taken) && grid.all_matches(
            rules,
        ).len() > 0,
        StateView::Prl { rules } => grid.all_matches(rules).len() > 0,
        _ => false,
    }
}

/// A leaf makes progress exactly when it has work.
pub proof fn lemma_leaf_progress(
    pre: StateView,
    grid: GridView<Symbol>,
    post: StateView,
    after: GridView<Symbol>,
    progressed: bool,
)
    requires
        pre is One || pre is All || pre is Prl,
        steps(pre, grid, post, after, progressed),
    ensures
        progressed == leaf_has_work(pre, grid),
{
}

/// A step that answers `false` has left the grid as it was.
pub proof fn lemma_idle_step_keeps_grid(
    pre: StateView,
    grid: GridView<Symbol>,
    post: StateView,
    after: GridView<Symbol>,
)
    requires
        steps(pre, grid, post, after, false),
    ensures
        after == grid,
{
    match pre {
        StateView::Markov { children } => {
            let stop = choose|stop: int|
                #[trigger] stop_index(stop) && markov_stops_at(
                    children,
                    grid,
                    post->Markov_children,
                    after,
                    false,
                    stop,
                );
        },
        _ => {},
    }
}

/// The draw decides nothing but the grid: the answer of a step, and the
/// state after it, are the same whatever is drawn.
pub proof fn lemma_answer_and_state_are_determined(
    pre: StateView,
    grid: GridView<Symbol>,
    post: StateView,
    after: GridView<Symbol>,
    progressed: bool,
    other_post: StateView,
    other_after: GridView<Symbol>,
    other_progressed: bool,
)
    requires
        steps(pre, grid, post, after, progressed),
        steps(pre, grid, other_post, other_after, other_progressed),
    ensures
        progressed == other_progressed,
        post == other_post,
    decreases pre,
{
    match pre {
        StateView::Markov { children } => {
            let new_children = post->Markov_children;
            let other_children = other_post->Markov_children;
            let stop = choose|stop: int|
                #[trigger] stop_index(stop) && markov_stops_at(
                    children,
                    grid,
                    new_children,
                    after,
                    progressed,
                    stop,
                );
            let other_stop = choose|stop: int|
                #[trigger] stop_index(stop) && markov_stops_at(
                    children,
                    grid,
                    other_children,
                    other_after,
                    other_progressed,
                    stop,
                );
            if stop < other_stop {
                lemma_answer_and_state_are_determined(
                    children[stop],
                    grid,
                    new_children[stop],
                    after,
                    true,
                    other_children[stop],
                    grid,
                    false,
                );
            } else if other_stop < stop {
                lemma_answer_and_state_are_determined(
                    children[other_stop],
                    grid,
                    new_children[other_stop],
                    grid,
                    false,
                    other_children[other_stop],
                    other_after,
                    true,
                );
            }
            assert forall|j: int| 0 <= j < children.len() implies new_children[j]
                == other_children[j] by {
                if j < stop {
                    lemma_answer_and_state_are_determined(
                        children[j],
                        grid,
                        new_children[j],
                        grid,
                        false,
                        other_children[j],
                        grid,
                        false,
                    );
                } else if j == stop {
                    lemma_answer_and_state_are_determined(
                        children[j],
                        grid,
                        new_children[j],
                        after,
                        true,
                        other_children[j],
                        other_after,
                        true,
                    );
                }
            }
            assert(new_children =~= other_children);
        },
        StateView::Sequence { children, index } => {
            let new_children = post->Sequence_children;
            let other_children = other_post->Sequence_children;
            let stop = post->Sequence_index as int;
            let other_stop = other_post->Sequence_index as int;
            if index < children.len() {
                if stop < other_stop {
                    lemma_answer_and_state_are_determined(
                        children[stop],
                        grid,
                        new_children[stop],
                        after,
                        true,
                        other_children[stop],
                        grid,
                        false,
                    );
                } else if other_stop < stop {
                    lemma_answer_and_state_are_determined(
                        children[other_stop],
                        grid,
                        new_children[other_stop],
                        grid,
                        false,
                        other_children[other_stop],
                        other_after,
                        true,
                    );
                }
                assert forall|j: int| 0 <= j < children.len() implies new_children[j]
                    == other_children[j] by {
                    if index <= j < stop {
                        lemma_answer_and_state_are_determined(
                            children[j],
                            grid,
                            new_children[j],
                            grid,
                            false,
                            other_children[j],
                            grid,
                            false,
                        );
                    } else if j == stop {
                        lemma_answer_and_state_are_determined(
                            children[j],
                            grid,
                            new_children[j],
                            after,
                            true,
                            other_children[j],
                            other_after,
                            true,
                        );
                    }
                }
            }
            assert(new_children =~= other_children);
        },
        _ => {},
    }
}

/// Markov priority: where the first child of a Markov node cannot answer
/// `false` on the grid, the node makes progress through that child, and no
/// other child is asked or changed.
pub proof fn lemma_markov_prefers_first(
    children: Seq<StateView>,
    grid: GridView<Symbol>,
    post: StateView,
    after: GridView<Symbol>,
    progressed: bool,
)
    requires
        children.len() >= 1,
        steps(StateView::Markov { children }, grid, post, after, progressed),
        forall|idle: StateView| !steps(children[0], grid, idle, grid, false),
    ensures
        progressed,
        post is Markov,
        post->Markov_children.len() == children.len(),
        steps(children[0], grid, post->Markov_children[0], after, true),
        forall|j: int| 1 <= j < children.len() ==> post->Markov_children[j] == children[j],
{
    let new_children = post->Markov_children;
    let stop = choose|stop: int|
        #[trigger] stop_index(stop) && markov_stops_at(
            children,
            grid,
            new_children,
            after,
            progressed,
            stop,
        );
    if stop > 0 {
        assert(steps(children[0], grid, new_children[0], grid, false));
    }
}

/// Markov priority for rules: where the first child of a Markov node is a
/// leaf with work, the node makes progress through it, whatever the other
/// children are, and they stay as they were.
pub proof fn lemma_markov_priority(
    children: Seq<StateView>,
    grid: GridView<Symbol>,
    post: StateView,
    after: GridView<Symbol>,
    progressed: bool,
)
    requires
        children.len() >= 1,
        leaf_has_work(children[0], grid),
        steps(StateView::Markov { children }, grid, post, after, progressed),
    ensures
        progressed,
        post is Markov,
        post->Markov_children.len() == children.len(),
        steps(children[0], grid, post->Markov_children[0], after, true),
        forall|j: int| 1 <= j < children.len() ==> post->Markov_children[j] == children[j],
{
    assert forall|idle: StateView| !steps(children[0], grid, idle, grid, false) by {
        if steps(children[0], grid, idle, grid, false) {
            lemma_leaf_progress(children[0], grid, idle, grid, false);
        }
    }
    lemma_markov_prefers_first(children, grid, post, after, progressed);
}

/// A Sequence node that answers `false` has no child left to ask.
pub proof fn lemma_idle_sequence_is_exhausted(
    children: Seq<StateView>,
    index: nat,
    grid: GridView<Symbol>,
    post: StateView,
    after: GridView<Symbol>,
)
    requires
        steps(StateView::Sequence { children, index }, grid, post, after, false),
    ensures
        post is Sequence,
        post->Sequence_children.len() == children.len(),
        post->Sequence_index >= children.len(),
        after == grid,
{
}

/// A Sequence node with no child left answers `false` on every grid, and
/// neither it nor the grid changes: it has stopped for good.
pub proof fn lemma_exhausted_sequence_stays(
    children: Seq<StateView>,
    index: nat,
    grid: GridView<Symbol>,
    post: StateView,
    after: GridView<Symbol>,
    progressed: bool,
)
    requires
        index >= children.len(),
        steps(StateView::Sequence { children, index }, grid, post, after, progressed),
    ensures
        !progressed,
        post == (StateView::Sequence { children, index }),
        after == grid,
{
}

/// Within one step a Sequence node never goes back: its index does not
/// fall, and the children before the old index are not touched.
pub proof fn lemma_sequence_index_monotonic(
    children: Seq<StateView>,
    index: nat,
    grid: GridView<Symbol>,
    post: StateView,
    after: GridView<Symbol>,
    progressed: bool,
)
    requires
        steps(StateView::Sequence { children, index }, grid, post, after, progressed),
    ensures
        post is Sequence,
        post->Sequence_index >= index,
        post->Sequence_children.len() == children.len(),
        forall|j: int|
            0 <= j < index && j < children.len() ==> post->Sequence_children[j] == children[j],
{
}

/// The number of steps with progress that a state can still make, where its
/// limits bound that number: what a limited One or All node has left of its
/// limit, and the sum of that over the children that a Markov or Sequence
/// node can still ask. A node without a limit, or with such a node among
/// those children, has no budget.
pub open spec fn budget(state: StateView) -> Option<nat>
    decreases state, 0nat,
{
    match state {
        StateView::Markov { children } => budget_from(children, 0),
        StateView::Sequence { children, index } => budget_from(children, index),
        StateView::One { rules, limit, taken } => leaf_budget(limit, taken),
        StateView::All { rules, limit, taken } => leaf_budget(limit, taken),
        StateView::Prl { rules } => None,
    }
}

/// What is left of a limit.
pub open spec fn leaf_budget(limit: Option<nat>, taken: nat) -> Option<nat> {
    match limit {
        Some(most) => Some(
            if taken <= most {
                (most - taken) as nat
            } else {
                0
            },
        ),
        None => None,
    }
}

/// The sum of the budgets of the children from index `from` on.
pub open spec fn budget_from(children: Seq<StateView>, from: nat) -> Option<nat>
    decreases children, children.len() - from,
{
    if from >= children.len() {
        Some(0)
    } else {
        match (budget(children[from as int]), budget_from(children, from + 1)) {
            (Some(first), Some(rest)) => Some(first + rest),
            _ => None,
        }
    }
}

/// Leaving children behind does not raise the budget.
pub proof fn lemma_budget_from_later(children: Seq<StateView>, from: nat, to: nat)
    requires
        from <= to,
        budget_from(children, from) is Some,
    ensures
        budget_from(children, to) is Some,
        budget_from(children, to).unwrap() <= budget_from(children, from).unwrap(),
        forall|j: int| from <= j < children.len() ==> budget(#[trigger] children[j]) is Some,
    decreases children.len() - from,
{
    if from < children.len() {
        if from < to {
            lemma_budget_from_later(children, from + 1, to);
        } else {
            lemma_budget_from_later(children, from + 1, from + 1);
        }
    }
}

/// Where no child from `from` on has gained budget, and child `fired`, if it
/// is among them, has lost some, the sum has not grown, and has fallen by
/// as much as that child at least.
pub proof fn lemma_budget_from_shrinks(
    children: Seq<StateView>,
    new_children: Seq<StateView>,
    from: nat,
    fired: int,
    spent: nat,
)
    requires
        new_children.len() == children.len(),
        budget_from(children, from) is Some,
        forall|j: int|
            from <= j < children.len() && budget(children[j]) is Some ==> budget(
                #[trigger] new_children[j],
            ) is Some && budget(new_children[j]).unwrap() + (if j == fired {
                spent
            } else {
                0
            }) <= budget(children[j]).unwrap(),
    ensures
        budget_from(new_children, from) is Some,
        budget_from(new_children, from).unwrap() + (if from <= fired < children.len() {
            spent
        } else {
            0
        }) <= budget_from(children, from).unwrap(),
    decreases children.len() - from,
{
    if from < children.len() {
        lemma_budget_from_shrinks(children, new_children, from + 1, fired, spent);
        assert(budget(new_children[from as int]) is Some);
    }
}

/// A step never raises the budget, and a step with progress spends one of
/// it at least: a state with budget `b` makes progress `b` times at most.
pub proof fn lemma_step_spends_budget(
    pre: StateView,
    grid: GridView<Symbol>,
    post: StateView,
    after: GridView<Symbol>,
    progressed: bool,
)
    requires
        steps(pre, grid, post, after, progressed),
        budget(pre) is Some,
    ensures
        budget(post) is Some,
        budget(post).unwrap() + (if progressed {
            1nat
        } else {
            0
        }) <= budget(pre).unwrap(),
    decreases pre,
{
    match pre {
        StateView::Markov { children } => {
            let new_children = post->Markov_children;
            let stop = choose|stop: int|
                #[trigger] stop_index(stop) && markov_stops_at(
                    children,
                    grid,
                    new_children,
                    after,
                    progressed,
                    stop,
                );
            lemma_budget_from_later(children, 0, 0);
            assert forall|j: int|
                0 <= j < children.len() && budget(children[j]) is Some implies budget(
                #[trigger] new_children[j],
            ) is Some && budget(new_children[j]).unwrap() + (if j == stop {
                1nat
            } else {
                0
            }) <= budget(children[j]).unwrap() by {
                if j < stop {
                    lemma_step_spends_budget(children[j], grid, new_children[j], grid, false);
                } else if j == stop {
                    lemma_step_spends_budget(children[j], grid, new_children[j], after, true);
                }
            }
            lemma_budget_from_shrinks(children, new_children, 0, stop, 1);
        },
        StateView::Sequence { children, index } => {
            let new_children = post->Sequence_children;
            let new_index = post->Sequence_index;
            if index < children.len() {
                lemma_budget_from_later(children, index, new_index);
                assert forall|j: int|
                    new_index <= j < children.len() && budget(children[j]) is Some implies budget(
                    #[trigger] new_children[j],
                ) is Some && budget(new_children[j]).unwrap() + (if j == new_index {
                    1nat
                } else {
                    0
                }) <= budget(children[j]).unwrap() by {
                    if j == new_index {
                        lemma_step_spends_budget(children[j], grid, new_children[j], after, true);
                    }
                }
                lemma_budget_from_shrinks(children, new_children, new_index, new_index as int, 1);
            }
        },
        _ => {},
    }
}

/// A run: each state and grid follow from the ones before by one step with
/// the answer noted.
pub open spec fn is_run(
    states: Seq<StateView>,
    grids: Seq<GridView<Symbol>>,
    answers: Seq<bool>,
) -> bool {
    &&& states.len() == answers.len() + 1
    &&& grids.len() == answers.len() + 1
    &&& forall|i: int|
        0 <= i < answers.len() ==> steps(
            states[i],
            grids[i],
            states[i + 1],
            grids[i + 1],
            #[trigger] answers[i],
        )
}

/// The number of answers `true` in a run.
pub open spec fn progress_count(answers: Seq<bool>) -> nat
    decreases answers.len(),
{
    if answers.len() == 0 {
        0
    } else {
        progress_count(answers.drop_last()) + if answers.last() {
            1nat
        } else {
            0
        }
    }
}

/// A run from a state with a budget answers `true` no more often than the
/// budget allows, and what is left at its end is what those answers have
/// not spent.
pub proof fn lemma_run_within_budget(
    states: Seq<StateView>,
    grids: Seq<GridView<Symbol>>,
    answers: Seq<bool>,
)
    requires
        is_run(states, grids, answers),
        budget(states[0]) is Some,
    ensures
        budget(states.last()) is Some,
        progress_count(answers) + budget(states.last()).unwrap() <= budget(states[0]).unwrap(),
    decreases answers.len(),
{
    if answers.len() > 0 {
        let n = answers.len() as int;
        let earlier = answers.drop_last();
        assert(is_run(states.drop_last(), grids.drop_last(), earlier)) by {
            assert forall|i: int| 0 <= i < earlier.len() implies steps(
                states.drop_last()[i],
                grids.drop_last()[i],
                states.drop_last()[i + 1],
                grids.drop_last()[i + 1],
                #[trigger] earlier[i],
            ) by {
                assert(earlier[i] == answers[i]);
            }
        }
        lemma_run_within_budget(states.drop_last(), grids.drop_last(), earlier);
        assert(states.drop_last().last() == states[n - 1]);
        assert(answers[n - 1] == answers.last());
        lemma_step_spends_budget(states[n - 1], grids[n - 1], states[n], grids[n], answers[n - 1]);
    }
}

/// A run of answers `true` alone has as many of them as it has steps.
pub proof fn lemma_progress_count_of_all_true(answers: Seq<bool>)
    requires
        forall|i: int| 0 <= i < answers.len() ==> answers[i],
    ensures
        progress_count(answers) == answers.len(),
    decreases answers.len(),
{
    if answers.len() > 0 {
        lemma_progress_count_of_all_true(answers.drop_last());
    }
}

/// A budget runs out: a run from a state with a budget that has more steps
/// than the budget allows holds an answer `false`.
pub proof fn lemma_budget_runs_out(
    states: Seq<StateView>,
    grids: Seq<GridView<Symbol>>,
    answers: Seq<bool>,
)
    requires
        is_run(states, grids, answers),
        budget(states[0]) is Some,
        answers.len() > budget(states[0]).unwrap(),
    ensures
        exists|i: int| 0 <= i < answers.len() && !answers[i],
{
    lemma_run_within_budget(states, grids, answers);
    if forall|i: int| 0 <= i < answers.len() ==> answers[i] {
        lemma_progress_count_of_all_true(answers);
    }
}

/// Once a Sequence node has answered `false` in a run, every later answer
/// is `false`, and neither the node nor the grid changes any more.
pub proof fn lemma_sequence_stops_for_good(
    states: Seq<StateView>,
    grids: Seq<GridView<Symbol>>,
    answers: Seq<bool>,
    first: int,
    later: int,
)
    requires
        is_run(states, grids, answers),
        states[0] is Sequence,
        0 <= first <= later < answers.len(),
        !answers[first],
    ensures
        !answers[later],
        states[later + 1] == states[first + 1],
        grids[later + 1] == grids[first],
    decreases later - first,
{
    lemma_run_of_sequences(states, grids, answers, first);
    let pre = states[first];
    assert(steps(pre, grids[first], states[first + 1], grids[first + 1], answers[first]));
    if later > first {
        lemma_sequence_stops_for_good(states, grids, answers, first, later - 1);
        assert(steps(
            states[later],
            grids[later],
            states[later + 1],
            grids[later + 1],
            answers[later],
        ));
    }
}

/// Every state of a run that starts at a Sequence node is that node, with
/// as many children.
pub proof fn lemma_run_of_sequences(
    states: Seq<StateView>,
    grids: Seq<GridView<Symbol>>,
    answers: Seq<bool>,
    at: int,
)
    requires
        is_run(states, grids, answers),
        states[0] is Sequence,
        0 <= at <= answers.len(),
    ensures
        states[at] is Sequence,
        states[at]->Sequence_children.len() == states[0]->Sequence_children.len(),
    decreases at,
{
    if at > 0 {
        lemma_run_of_sequences(states, grids, answers, at - 1);
        assert(steps(states[at - 1], grids[at - 1], states[at], grids[at], answers[at - 1]));
    }
}

/// A state is fed on a grid where none of the nodes that it can still ask
/// is without a limit, and none of them is out of matches while it has
/// budget left.
pub open spec fn fed(state: StateView, grid: GridView<Symbol>) -> bool
    decreases state,
{
    match state {
        StateView::Markov { children } => forall|j: int|
            0 <= j < children.len() ==> fed(#[trigger] children[j], grid),
        StateView::Sequence { children, index } => forall|j: int|
            index <= j < children.len() ==> fed(#[trigger] children[j], grid),
        StateView::One { rules, limit, taken } => fed_leaf(rules, limit, taken, grid),
        StateView::All { rules, limit, taken } => fed_leaf(rules, limit, taken, grid),
        StateView::Prl { rules } => false,
    }
}

/// A leaf with a limit that has a match as long as it is below the limit.
pub open spec fn fed_leaf(
    rules: Seq<RuleView>,
    limit: Option<nat>,
    taken: nat,
    grid: GridView<Symbol>,
) -> bool {
    &&& limit is Some
    &&& taken <= limit.unwrap()
    &&& taken < limit.unwrap() ==> grid.all_matches(rules).len() > 0
}

/// A fed state has a budget.
pub proof fn lemma_fed_has_budget(state: StateView, grid: GridView<Symbol>)
    requires
        fed(state, grid),
    ensures
        budget(state) is Some,
    decreases state, 0nat,
{
    match state {
        StateView::Markov { children } => {
            lemma_fed_children_have_budget(children, 0, grid);
        },
        StateView::Sequence { children, index } => {
            lemma_fed_children_have_budget(children, index, grid);
        },
        _ => {},
    }
}

/// Fed children have a budget together.
pub proof fn lemma_fed_children_have_budget(
    children: Seq<StateView>,
    from: nat,
    grid: GridView<Symbol>,
)
    requires
        forall|j: int| from <= j < children.len() ==> fed(#[trigger] children[j], grid),
    ensures
        budget_from(children, from) is Some,
    decreases children, children.len() - from,
{
    if from < children.len() {
        lemma_fed_has_budget(children[from as int], grid);
        lemma_fed_children_have_budget(children, from + 1, grid);
    }
}

/// Children without budget add nothing to the sum.
pub proof fn lemma_budget_from_skips_spent(children: Seq<StateView>, from: nat, to: nat)
    requires
        from <= to <= children.len(),
        forall|j: int| from <= j < to ==> budget(#[trigger] children[j]) == Some(0nat),
        budget_from(children, to) is Some,
    ensures
        budget_from(children, from) == budget_from(children, to),
    decreases to - from,
{
    if from < to {
        lemma_budget_from_skips_spent(children, from + 1, to);
        assert(budget(children[from as int]) == Some(0nat));
    }
}

/// Where every child from `from` on has kept its budget, but for child
/// `fired`, which has spent `spent` of it, the sum has fallen by `spent`.
pub proof fn lemma_budget_from_exact(
    children: Seq<StateView>,
    new_children: Seq<StateView>,
    from: nat,
    fired: int,
    spent: nat,
)
    requires
        new_children.len() == children.len(),
        budget_from(children, from) is Some,
        forall|j: int|
            from <= j < children.len() && budget(children[j]) is Some ==> budget(
                #[trigger] new_children[j],
            ) is Some && budget(new_children[j]).unwrap() + (if j == fired {
                spent
            } else {
                0
            }) == budget(children[j]).unwrap(),
    ensures
        budget_from(new_children, from) is Some,
        budget_from(new_children, from).unwrap() + (if from <= fired < children.len() {
            spent
        } else {
            0
        }) == budget_from(children, from).unwrap(),
    decreases children.len() - from,
{
    if from < children.len() {
        lemma_budget_from_exact(children, new_children, from + 1, fired, spent);
        assert(budget(new_children[from as int]) is Some);
    }
}

/// One step of a fed state: it makes progress exactly while budget is
/// left, and a step with progress spends exactly one of it.
pub proof fn lemma_fed_step(
    pre: StateView,
    grid: GridView<Symbol>,
    post: StateView,
    after: GridView<Symbol>,
    progressed: bool,
)
    requires
        fed(pre, grid),
        steps(pre, grid, post, after, progressed),
    ensures
        budget(pre) is Some,
        budget(post) is Some,
        progressed == (budget(pre).unwrap() > 0),
        budget(post).unwrap() + (if progressed {
            1nat
        } else {
            0
        }) == budget(pre).unwrap(),
    decreases pre,
{
    lemma_fed_has_budget(pre, grid);
    let spent = if progressed {
        1nat
    } else {
        0
    };
    match pre {
        StateView::Markov { children } => {
            let new_children = post->Markov_children;
            let stop = choose|stop: int|
                #[trigger] stop_index(stop) && markov_stops_at(
                    children,
                    grid,
                    new_children,
                    after,
                    progressed,
                    stop,
                );
            assert forall|j: int| 0 <= j < children.len() implies budget(children[j]) is Some
                && budget(#[trigger] new_children[j]) is Some && budget(new_children[j]).unwrap()
                + (if j == stop {
                spent
            } else {
                0
            }) == budget(children[j]).unwrap() && (j < stop ==> budget(children[j]) == Some(
                0nat,
            )) by {
                assert(fed(children[j], grid));
                lemma_fed_has_budget(children[j], grid);
                if j < stop {
                    lemma_fed_step(children[j], grid, new_children[j], grid, false);
                } else if j == stop {
                    lemma_fed_step(children[j], grid, new_children[j], after, true);
                }
            }
            lemma_budget_from_exact(children, new_children, 0, stop, spent);
            if !progressed {
                assert forall|j: int| 0 <= j < children.len() implies budget(
                    #[trigger] children[j],
                ) == Some(0nat) by {
                    assert(budget(new_children[j]) is Some);
                }
                lemma_budget_from_skips_spent(children, 0, children.len());
            }
        },
        StateView::Sequence { children, index } => {
            let new_children = post->Sequence_children;
            let new_index = post->Sequence_index;
            if index < children.len() {
                assert forall|j: int| index <= j < children.len() implies budget(children[j])
                    is Some && budget(#[trigger] new_children[j]) is Some && budget(
                    new_children[j],
                ).unwrap() + (if j == new_index {
                    spent
                } else {
                    0
                }) == budget(children[j]).unwrap() && (j < new_index ==> budget(children[j])
                    == Some(0nat)) by {
                    assert(fed(children[j], grid));
                    lemma_fed_has_budget(children[j], grid);
                    if j < new_index {
                        lemma_fed_step(children[j], grid, new_children[j], grid, false);
                    } else if j == new_index {
                        lemma_fed_step(children[j], grid, new_children[j], after, true);
                    }
                }
                assert forall|j: int| index <= j < new_index implies budget(
                    #[trigger] children[j],
                ) == Some(0nat) by {
                    assert(budget(new_children[j]) is Some);
                }
                lemma_budget_from_later(children, index, new_index);
                lemma_budget_from_skips_spent(children, index, new_index);
                lemma_budget_from_exact(children, new_children, new_index, new_index as int, spent);
            }
        },
        _ => {},
    }
}

/// Sequence progress: in a run in which the state is fed at every step,
/// the answers `true` and the budget left at the end add up to the budget
/// at the start; and once such a run has answered `false`, the answers
/// `true` are as many as the budgets of the children together.
pub proof fn lemma_fed_run(
    states: Seq<StateView>,
    grids: Seq<GridView<Symbol>>,
    answers: Seq<bool>,
)
    requires
        is_run(states, grids, answers),
        budget(states[0]) is Some,
        forall|i: int| 0 <= i < answers.len() ==> fed(#[trigger] states[i], grids[i]),
    ensures
        budget(states.last()) is Some,
        progress_count(answers) + budget(states.last()).unwrap() == budget(states[0]).unwrap(),
        answers.len() > 0 && !answers.last() ==> progress_count(answers) == budget(
            states[0],
        ).unwrap(),
    decreases answers.len(),
{
    if answers.len() > 0 {
        let n = answers.len() as int;
        let earlier = answers.drop_last();
        assert(is_run(states.drop_last(), grids.drop_last(), earlier)) by {
            assert forall|i: int| 0 <= i < earlier.len() implies steps(
                states.drop_last()[i],
                grids.drop_last()[i],
                states.drop_last()[i + 1],
                grids.drop_last()[i + 1],
                #[trigger] earlier[i],
            ) by {
                assert(earlier[i] == answers[i]);
            }
        }
        assert forall|i: int| 0 <= i < earlier.len() implies fed(
            #[trigger] states.drop_last()[i],
            grids.drop_last()[i],
        ) by {
            assert(fed(states[i], grids[i]));
        }
        lemma_fed_run(states.drop_last(), grids.drop_last(), earlier);
        assert(states.drop_last().last() == states[n - 1]);
        assert(answers[n - 1] == answers.last());
        assert(fed(states[n - 1], grids[n - 1]));
        lemma_fed_step(states[n - 1], grids[n - 1], states[n], grids[n], answers[n - 1]);
    }
}

} // verus!
