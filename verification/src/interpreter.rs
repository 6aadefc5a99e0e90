//! The interpreter: one step of each kind of state.

use vstd::prelude::*;
use rand::rngs::SmallRng;
use crate::grid::GridView;
use crate::node::{
    limit_view, state_views, AllState, AnyState, MarkovState, OneState, PrlState, SequenceState,
    StateView, Step,
};
use crate::pattern::Grid;
use crate::point::Point;
use crate::random::{choose_match, shuffle_matches};
use crate::rewrite::lemma_all_matches_admitted;
use crate::rule::{rule_views, rules_wf, Rule, RuleView};
use crate::semantics::{
    counted, limit_reached, markov_stops_at, sequence_steps, state_wf, states_wf, steps,
    stop_index,
};
use crate::symbol::Symbol;

verus! {

impl View for OneState {
    type V = StateView;

    open spec fn view(&self) -> StateView {
        StateView::One {
            rules: rule_views(self.node.rules@),
            limit: limit_view(self.node.steps),
            taken: self.steps_taken as nat,
        }
    }
}

impl View for AllState {
    type V = StateView;

    open spec fn view(&self) -> StateView {
        StateView::All {
            rules: rule_views(self.node.rules@),
            limit: limit_view(self.node.steps),
            taken: self.steps_taken as nat,
        }
    }
}

impl View for PrlState {
    type V = StateView;

    open spec fn view(&self) -> StateView {
        StateView::Prl { rules: rule_views(self.node.rules@) }
    }
}

impl View for MarkovState {
    type V = StateView;

    open spec fn view(&self) -> StateView {
        StateView::Markov { children: state_views(self.children@) }
    }
}

impl View for SequenceState {
    type V = StateView;

    open spec fn view(&self) -> StateView {
        StateView::Sequence { children: state_views(self.children@), index: self.index as nat }
    }
}

/// A list with the same entries as the collected matches holds only
/// entries that the grid admits.
pub proof fn lemma_reordered_matches_admitted(
    grid: GridView<Symbol>,
    rules: Seq<RuleView>,
    order: Seq<(usize, Point)>,
)
    requires
        rules_wf(rules),
        rules.len() <= usize::MAX,
        order.to_multiset() == grid.all_matches(rules).to_multiset(),
    ensures
        grid.admits_all(rules, order),
        order.len() == grid.all_matches(rules).len(),
{
    let matched = grid.all_matches(rules);
    order.to_multiset_ensures();
    matched.to_multiset_ensures();
    assert forall|k: int| 0 <= k < order.len() implies grid.admits(rules, #[trigger] order[k]) by {
        assert(order.contains(order[k]));
        assert(order.to_multiset().count(order[k]) > 0);
        assert(matched.contains(order[k]));
        lemma_all_matches_admitted(grid, rules, order[k]);
    }
}

/// Tells whether every state of a list can be stepped.
fn all_ready(states: &Vec<AnyState>) -> (ok: bool)
    ensures
        ok == states_wf(state_views(states@)),
    decreases states,
{
    let mut i: usize = 0;
    while i < states.len()
        invariant
            i <= states.len(),
            forall|j: int| 0 <= j < i ==> state_wf(#[trigger] state_views(states@)[j]),
        decreases states.len() - i,
    {
        if !states[i].is_ready() {
            assert(!state_wf(state_views(states@)[i as int]));
            return false;
        }
        i += 1;
    }
    true
}

impl AnyState {
    /// Tells whether the state can be stepped: whether every rule in it is
    /// well formed.
    pub fn is_ready(&self) -> (ok: bool)
        ensures
            ok == state_wf(self@),
        decreases self,
    {
        match self {
            AnyState::Markov(s) => all_ready(&s.children),
            AnyState::Sequence(s) => all_ready(&s.children),
            AnyState::One(s) => Rule::all_well_formed(&s.node.rules),
            AnyState::All(s) => Rule::all_well_formed(&s.node.rules),
            AnyState::Prl(s) => Rule::all_well_formed(&s.node.rules),
        }
    }
}

impl OneState {
    /// The step of a One node once the draw is known: at the limit nothing
    /// happens; otherwise the drawn match, if there is one, is applied and
    /// counted.
    pub fn take_choice(&mut self, grid: &mut Grid, choice: Option<(usize, Point)>) -> (progressed:
        bool)
        requires
            state_wf(old(self)@),
            old(grid)@.wf(),
            choice is Some ==> old(grid)@.admits(
                rule_views(old(self).node.rules@),
                choice.unwrap(),
            ),
        ensures
            progressed == (choice is Some && !limit_reached(
                limit_view(old(self).node.steps),
                old(self).steps_taken as nat,
            )),
            progressed ==> final(grid)@ == old(grid)@.rewritten(
                rule_views(old(self).node.rules@),
                choice.unwrap(),
            ),
            !progressed ==> final(grid)@ == old(grid)@,
            final(self).node == old(self).node,
            final(self).steps_taken == if progressed {
                counted(limit_view(old(self).node.steps), old(self).steps_taken as nat)
            } else {
                old(self).steps_taken as nat
            },
            final(grid)@.wf(),
    {
        match self.node.steps {
            Some(limit) => {
                if self.steps_taken >= limit {
                    return false;
                }
            },
            None => {},
        }
        let applied = grid.apply_choice(&self.node.rules, choice);
        if applied {
            if self.node.steps.is_some() {
                self.steps_taken += 1;
            }
        }
        applied
    }

    /// One step: unless the limit is reached, collects the matches of every
    /// rule, draws one of them and applies it.
    pub fn step(&mut self, rng: &mut SmallRng, grid: &mut Grid) -> (progressed: bool)
        requires
            state_wf(old(self)@),
            old(grid)@.wf(),
        ensures
            steps(old(self)@, old(grid)@, final(self)@, final(grid)@, progressed),
            state_wf(final(self)@),
            final(grid)@.wf(),
    {
        match self.node.steps {
            Some(limit) => {
                if self.steps_taken >= limit {
                    return false;
                }
            },
            None => {},
        }
        let matched = grid.collect_matches(&self.node.rules);
        let choice = choose_match(rng, &matched);
        proof {
            assert(self.node.rules@.len() == self.node.rules.len());
            if choice is Some {
                lemma_all_matches_admitted(
                    grid@,
                    rule_views(self.node.rules@),
                    choice.unwrap(),
                );
            }
        }
        self.take_choice(grid, choice)
    }
}

impl AllState {
    /// The step of an All node once the order is known: at the limit, or
    /// with nothing to apply, nothing happens; otherwise the entries are
    /// applied in the given order, each only if it still matches, and the
    /// step is counted.
    pub fn take_batch(&mut self, grid: &mut Grid, order: &Vec<(usize, Point)>) -> (progressed: bool)
        requires
            state_wf(old(self)@),
            old(grid)@.wf(),
            old(grid)@.admits_all(rule_views(old(self).node.rules@), order@),
        ensures
            progressed == (order@.len() > 0 && !limit_reached(
                limit_view(old(self).node.steps),
                old(self).steps_taken as nat,
            )),
            progressed ==> final(grid)@ == old(grid)@.rewritten_each_matching(
                rule_views(old(self).node.rules@),
                order@,
            ),
            !progressed ==> final(grid)@ == old(grid)@,
            final(self).node == old(self).node,
            final(self).steps_taken == if progressed {
                counted(limit_view(old(self).node.steps), old(self).steps_taken as nat)
            } else {
                old(self).steps_taken as nat
            },
            final(grid)@.wf(),
    {
        match self.node.steps {
            Some(limit) => {
                if self.steps_taken >= limit {
                    return false;
                }
            },
            None => {},
        }
        if order.len() == 0 {
            return false;
        }
        grid.apply_each_matching(&self.node.rules, order);
        if self.node.steps.is_some() {
            self.steps_taken += 1;
        }
        true
    }

    /// One step: unless the limit is reached, collects the matches of every
    /// rule, shuffles them and applies those that still match at their turn.
    pub fn step(&mut self, rng: &mut SmallRng, grid: &mut Grid) -> (progressed: bool)
        requires
            state_wf(old(self)@),
            old(grid)@.wf(),
        ensures
            steps(old(self)@, old(grid)@, final(self)@, final(grid)@, progressed),
            state_wf(final(self)@),
            final(grid)@.wf(),
    {
        match self.node.steps {
            Some(limit) => {
                if self.steps_taken >= limit {
                    return false;
                }
            },
            None => {},
        }
        let mut matched = grid.collect_matches(&self.node.rules);
        if matched.len() == 0 {
            return false;
        }
        shuffle_matches(rng, &mut matched);
        proof {
            assert(self.node.rules@.len() == self.node.rules.len());
            lemma_reordered_matches_admitted(grid@, rule_views(self.node.rules@), matched@);
        }
        self.take_batch(grid, &matched)
    }
}

impl PrlState {
    /// The step of a Prl node once the order is known: the entries are
    /// applied in the given order, none tested again.
    pub fn take_batch(&mut self, grid: &mut Grid, order: &Vec<(usize, Point)>) -> (progressed: bool)
        requires
            state_wf(old(self)@),
            old(grid)@.wf(),
            old(grid)@.admits_all(rule_views(old(self).node.rules@), order@),
        ensures
            progressed == (order@.len() > 0),
            final(grid)@ == old(grid)@.rewritten_each(rule_views(old(self).node.rules@), order@),
            *final(self) == *old(self),
            final(grid)@.wf(),
    {
        grid.apply_each(&self.node.rules, order);
        order.len() > 0
    }

    /// One step: collects the matches of every rule, shuffles them and
    /// applies them all.
    pub fn step(&mut self, rng: &mut SmallRng, grid: &mut Grid) -> (progressed: bool)
        requires
            state_wf(old(self)@),
            old(grid)@.wf(),
        ensures
            steps(old(self)@, old(grid)@, final(self)@, final(grid)@, progressed),
            state_wf(final(self)@),
            final(grid)@.wf(),
    {
        let mut matched = grid.collect_matches(&self.node.rules);
        if matched.len() == 0 {
            return false;
        }
        shuffle_matches(rng, &mut matched);
        proof {
            assert(self.node.rules@.len() == self.node.rules.len());
            lemma_reordered_matches_admitted(grid@, rule_views(self.node.rules@), matched@);
        }
        self.take_batch(grid, &matched)
    }
}

impl MarkovState {
    /// One step: asks the children from the first on, and stops at the
    /// first that makes progress.
    pub fn step(&mut self, rng: &mut SmallRng, grid: &mut Grid) -> (progressed: bool)
        requires
            state_wf(old(self)@),
            old(grid)@.wf(),
        ensures
            steps(old(self)@, old(grid)@, final(self)@, final(grid)@, progressed),
            state_wf(final(self)@),
            final(grid)@.wf(),
        decreases *old(self),
    {
        let ghost before = state_views(self.children@);
        let ghost canvas = grid@;
        let mut i: usize = 0;
        while i < self.children.len()
            invariant
                i <= self.children.len(),
                self.children@.len() == old(self).children@.len(),
                before == state_views(old(self).children@),
                states_wf(before),
                states_wf(state_views(self.children@)),
                grid@ == canvas,
                canvas == old(grid)@,
                canvas.wf(),
                forall|j: int| i <= j < self.children@.len() ==> self.children@[j] == old(
                    self,
                ).children@[j],
                forall|j: int|
                    0 <= j < i ==> steps(
                        before[j],
                        canvas,
                        #[trigger] state_views(self.children@)[j],
                        canvas,
                        false,
                    ),
            decreases self.children.len() - i,
        {
            let ghost children_before = self.children@;
            assert(state_wf(before[i as int]));
            assert(state_wf(state_views(self.children@)[i as int]));
            let stepped = self.children[i].step(rng, grid);
            proof {
                let now = state_views(self.children@);
                assert(self.children@ == children_before.update(i as int, self.children@[i as int]));
                assert forall|j: int| 0 <= j < now.len() && j != i implies now[j] == state_views(
                    children_before,
                )[j] by {}
                assert(states_wf(now));
            }
            if stepped {
                proof {
                    let now = state_views(self.children@);
                    assert(stop_index(i as int) && markov_stops_at(
                        before,
                        canvas,
                        now,
                        grid@,
                        true,
                        i as int,
                    ));
                }
                return true;
            }
            i += 1;
        }
        proof {
            let now = state_views(self.children@);
            assert(stop_index(before.len() as int) && markov_stops_at(
                before,
                canvas,
                now,
                grid@,
                false,
                before.len() as int,
            ));
        }
        false
    }
}

impl SequenceState {
    /// One step: asks the child whose turn it is; while that child makes no
    /// progress, leaves it behind and asks the next, until one makes
    /// progress or none is left.
    pub fn step(&mut self, rng: &mut SmallRng, grid: &mut Grid) -> (progressed: bool)
        requires
            state_wf(old(self)@),
            old(grid)@.wf(),
        ensures
            steps(old(self)@, old(grid)@, final(self)@, final(grid)@, progressed),
            state_wf(final(self)@),
            final(grid)@.wf(),
        decreases *old(self),
    {
        let ghost before = state_views(self.children@);
        let ghost canvas = grid@;
        let ghost start = self.index;
        if self.index >= self.children.len() {
            return false;
        }
        while self.index < self.children.len()
            invariant
                start == old(self).index,
                start < self.children.len(),
                start <= self.index <= self.children.len(),
                self.children@.len() == old(self).children@.len(),
                before == state_views(old(self).children@),
                states_wf(before),
                states_wf(state_views(self.children@)),
                grid@ == canvas,
                canvas == old(grid)@,
                canvas.wf(),
                forall|j: int|
                    0 <= j < self.children@.len() && (j < start || j >= self.index)
                        ==> self.children@[j] == old(self).children@[j],
                forall|j: int|
                    start <= j < self.index ==> steps(
                        before[j],
                        canvas,
                        #[trigger] state_views(self.children@)[j],
                        canvas,
                        false,
                    ),
            decreases self.children.len() - self.index,
        {
            let i: usize = self.index;
            let ghost children_before = self.children@;
            assert(state_wf(before[i as int]));
            assert(state_wf(state_views(self.children@)[i as int]));
            let stepped = self.children[i].step(rng, grid);
            proof {
                let now = state_views(self.children@);
                assert(self.children@ == children_before.update(i as int, self.children@[i as int]));
                assert forall|j: int| 0 <= j < now.len() && j != i implies now[j] == state_views(
                    children_before,
                )[j] by {}
                assert(states_wf(now));
            }
            if stepped {
                proof {
                    let now = state_views(self.children@);
                    assert(sequence_steps(
                        before,
                        start as nat,
                        canvas,
                        now,
                        self.index as nat,
                        grid@,
                        true,
                    ));
                }
                return true;
            }
            self.index += 1;
        }
        proof {
            let now = state_views(self.children@);
            assert(sequence_steps(
                before,
                start as nat,
                canvas,
                now,
                self.index as nat,
                grid@,
                false,
            ));
        }
        false
    }
}

impl AnyState {
    /// One step of the state, whatever its kind. The answer `true` says
    /// that the grid was rewritten and that the caller should step again;
    /// `false` says that there was nothing to do, and then the grid is as
    /// it was.
    pub fn step(&mut self, rng: &mut SmallRng, grid: &mut Grid) -> (progressed: bool)
        requires
            state_wf(old(self)@),
            old(grid)@.wf(),
        ensures
            steps(old(self)@, old(grid)@, final(self)@, final(grid)@, progressed),
            state_wf(final(self)@),
            final(grid)@.wf(),
        decreases *old(self),
    {
        match self {
            AnyState::Markov(s) => s.step(rng, grid),
            AnyState::Sequence(s) => s.step(rng, grid),
            AnyState::One(s) => s.step(rng, grid),
            AnyState::All(s) => s.step(rng, grid),
            AnyState::Prl(s) => s.step(rng, grid),
        }
    }
}

impl Step for AnyState {
    open spec fn ready(&self) -> bool {
        state_wf(self@)
    }

    open spec fn may_step(
        &self,
        grid: GridView<Symbol>,
        post: &Self,
        after: GridView<Symbol>,
        progressed: bool,
    ) -> bool {
        steps(self@, grid, post@, after, progressed)
    }

    fn step(&mut self, rng: &mut SmallRng, grid: &mut Grid) -> (progressed: bool) {
        AnyState::step(self, rng, grid)
    }
}

impl Step for MarkovState {
    open spec fn ready(&self) -> bool {
        state_wf(self@)
    }

    open spec fn may_step(
        &self,
        grid: GridView<Symbol>,
        post: &Self,
        after: GridView<Symbol>,
        progressed: bool,
    ) -> bool {
        steps(self@, grid, post@, after, progressed)
    }

    fn step(&mut self, rng: &mut SmallRng, grid: &mut Grid) -> (progressed: bool) {
        MarkovState::step(self, rng, grid)
    }
}

impl Step for SequenceState {
    open spec fn ready(&self) -> bool {
        state_wf(self@)
    }

    open spec fn may_step(
        &self,
        grid: GridView<Symbol>,
        post: &Self,
        after: GridView<Symbol>,
        progressed: bool,
    ) -> bool {
        steps(self@, grid, post@, after, progressed)
    }

    fn step(&mut self, rng: &mut SmallRng, grid: &mut Grid) -> (progressed: bool) {
        SequenceState::step(self, rng, grid)
    }
}

impl Step for OneState {
    open spec fn ready(&self) -> bool {
        state_wf(self@)
    }

    open spec fn may_step(
        &self,
        grid: GridView<Symbol>,
        post: &Self,
        after: GridView<Symbol>,
        progressed: bool,
    ) -> bool {
        steps(self@, grid, post@, after, progressed)
    }

    fn step(&mut self, rng: &mut SmallRng, grid: &mut Grid) -> (progressed: bool) {
        OneState::step(self, rng, grid)
    }
}

impl Step for AllState {
    open spec fn ready(&self) -> bool {
        state_wf(self@)
    }

    open spec fn may_step(
        &self,
        grid: GridView<Symbol>,
        post: &Self,
        after: GridView<Symbol>,
        progressed: bool,
    ) -> bool {
        steps(self@, grid, post@, after, progressed)
    }

    fn step(&mut self, rng: &mut SmallRng, grid: &mut Grid) -> (progressed: bool) {
        AllState::step(self, rng, grid)
    }
}

impl Step for PrlState {
    open spec fn ready(&self) -> bool {
        state_wf(self@)
    }

    open spec fn may_step(
        &self,
        grid: GridView<Symbol>,
        post: &Self,
        after: GridView<Symbol>,
        progressed: bool,
    ) -> bool {
        steps(self@, grid, post@, after, progressed)
    }

    fn step(&mut self, rng: &mut SmallRng, grid: &mut Grid) -> (progressed: bool) {
        PrlState::step(self, rng, grid)
    }
}

} // verus!
