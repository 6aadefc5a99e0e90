//! Rewriting the grid with a list of rules: collecting every match, and
//! applying one match or a batch of them.

use vstd::prelude::*;
use rand::rngs::SmallRng;
use crate::grid::{GenericGrid, GridView};
use crate::matching::{lemma_found_fits, lemma_match_is_found};
use crate::point::Point;
use crate::random::choose_match;
use crate::rule::{rule_views, rules_wf, Rule, RuleView};
use crate::symbol::Symbol;

verus! {

/// A list of rules of which one match is applied at a time. The One node
/// has taken its place.
pub struct Step {
    pub rules: Vec<Rule>,
}

/// The positions of a scan, each with the index of the rule it belongs to.
pub open spec fn tagged(points: Seq<Point>, rule: usize) -> Seq<(usize, Point)> {
    Seq::new(points.len(), |k: int| (rule, points[k]))
}

impl GridView<Symbol> {
    /// Every match of every rule's find pattern: the matches of the first
    /// rule in the order of its scan, then those of the second, and so on.
    pub open spec fn all_matches(self, rules: Seq<RuleView>) -> Seq<(usize, Point)>
        decreases rules.len(),
    {
        if rules.len() == 0 {
            Seq::empty()
        } else {
            self.all_matches(rules.drop_last()) + tagged(
                self.matches_of(rules.last().find),
                (rules.len() - 1) as usize,
            )
        }
    }

    /// An entry names a rule of the list whose patterns fit at its position.
    pub open spec fn admits(self, rules: Seq<RuleView>, entry: (usize, Point)) -> bool {
        &&& entry.0 < rules.len()
        &&& self.fits(rules[entry.0 as int].find, entry.1)
        &&& self.fits(rules[entry.0 as int].replace, entry.1)
    }

    /// Every entry of a list is admitted.
    pub open spec fn admits_all(self, rules: Seq<RuleView>, order: Seq<(usize, Point)>) -> bool {
        forall|k: int| 0 <= k < order.len() ==> self.admits(rules, #[trigger] order[k])
    }

    /// The grid after the replace pattern of one entry has been written.
    pub open spec fn rewritten(self, rules: Seq<RuleView>, entry: (usize, Point)) -> GridView<
        Symbol,
    > {
        self.applied(rules[entry.0 as int].replace, entry.1)
    }

    /// The grid after the entries have been applied one after the other,
    /// whether or not their find patterns still match.
    pub open spec fn rewritten_each(
        self,
        rules: Seq<RuleView>,
        order: Seq<(usize, Point)>,
    ) -> GridView<Symbol>
        decreases order.len(),
    {
        if order.len() == 0 {
            self
        } else {
            self.rewritten_each(rules, order.drop_last()).rewritten(rules, order.last())
        }
    }

    /// The grid after the entries have been applied one after the other,
    /// each only if its find pattern matches the grid as the entries before
    /// it have left it.
    pub open spec fn rewritten_each_matching(
        self,
        rules: Seq<RuleView>,
        order: Seq<(usize, Point)>,
    ) -> GridView<Symbol>
        decreases order.len(),
    {
        if order.len() == 0 {
            self
        } else {
            let so_far = self.rewritten_each_matching(rules, order.drop_last());
            let entry = order.last();
            if so_far.matches_at(rules[entry.0 as int].find, entry.1) {
                so_far.rewritten(rules, entry)
            } else {
                so_far
            }
        }
    }
}

/// Every collected match names a rule of the list, at a position where that
/// rule's patterns fit and its find pattern matches.
pub proof fn lemma_all_matches_admitted(
    grid: GridView<Symbol>,
    rules: Seq<RuleView>,
    entry: (usize, Point),
)
    requires
        rules_wf(rules),
        rules.len() <= usize::MAX,
        grid.all_matches(rules).contains(entry),
    ensures
        grid.admits(rules, entry),
        grid.matches_at(rules[entry.0 as int].find, entry.1),
    decreases rules.len(),
{
    if rules.len() > 0 {
        let head = grid.all_matches(rules.drop_last());
        let found = grid.matches_of(rules.last().find);
        let tail = tagged(found, (rules.len() - 1) as usize);
        let k = choose|k: int| 0 <= k < (head + tail).len() && (head + tail)[k] == entry;
        if k < head.len() {
            assert(head[k] == entry);
            lemma_all_matches_admitted(grid, rules.drop_last(), entry);
        } else {
            assert(tail[k - head.len()] == entry);
            assert(found.contains(found[k - head.len()]));
            lemma_found_fits(grid, rules.last().find, entry.1);
            assert(rules.last().wf());
        }
    }
}

/// Where the collected matches are empty, no rule of the list matches at
/// any position at which its find pattern fits.
pub proof fn lemma_without_matches_no_rule_matches(
    grid: GridView<Symbol>,
    rules: Seq<RuleView>,
    rule: int,
    at: Point,
)
    requires
        grid.all_matches(rules).len() == 0,
        0 <= rule < rules.len(),
        grid.fits(rules[rule].find, at),
    ensures
        !grid.matches_at(rules[rule].find, at),
    decreases rules.len(),
{
    let found = grid.matches_of(rules.last().find);
    assert(tagged(found, (rules.len() - 1) as usize).len() == found.len());
    if rule == rules.len() - 1 {
        if grid.matches_at(rules[rule].find, at) {
            lemma_match_is_found(grid, rules[rule].find, at);
        }
    } else {
        lemma_without_matches_no_rule_matches(grid, rules.drop_last(), rule, at);
    }
}

impl GenericGrid<Symbol> {
    /// Collects the matches of every rule of the list.
    pub fn collect_matches(&self, rules: &Vec<Rule>) -> (matched: Vec<(usize, Point)>)
        requires
            self@.wf(),
            rules_wf(rule_views(rules@)),
        ensures
            matched@ == self@.all_matches(rule_views(rules@)),
    {
        let ghost views = rule_views(rules@);
        let mut matched: Vec<(usize, Point)> = Vec::new();
        let mut idx: usize = 0;
        while idx < rules.len()
            invariant
                self@.wf(),
                views == rule_views(rules@),
                rules_wf(views),
                idx <= rules.len(),
                matched@ == self@.all_matches(views.take(idx as int)),
            decreases rules.len() - idx,
        {
            assert(views[idx as int].wf());
            let found = self.find_matches(&rules[idx].find);
            let ghost before = matched@;
            let mut k: usize = 0;
            while k < found.len()
                invariant
                    k <= found.len(),
                    matched@ == before + tagged(found@, idx).take(k as int),
                decreases found.len() - k,
            {
                matched.push((idx, found[k]));
                assert(tagged(found@, idx).take(k + 1) =~= tagged(found@, idx).take(k as int).push(
                    (idx, found@[k as int]),
                ));
                k += 1;
            }
            proof {
                assert(tagged(found@, idx).take(found@.len() as int) =~= tagged(found@, idx));
                assert(views.take(idx + 1).drop_last() =~= views.take(idx as int));
                assert(views.take(idx + 1).last() == views[idx as int]);
            }
            idx += 1;
        }
        assert(views.take(rules@.len() as int) =~= views);
        matched
    }

    /// Applies the drawn match, if there is one, and tells whether there was.
    pub fn apply_choice(&mut self, rules: &Vec<Rule>, choice: Option<(usize, Point)>) -> (applied:
        bool)
        requires
            old(self)@.wf(),
            rules_wf(rule_views(rules@)),
            choice is Some ==> old(self)@.admits(rule_views(rules@), choice.unwrap()),
        ensures
            applied == choice is Some,
            choice is None ==> final(self)@ == old(self)@,
            choice is Some ==> final(self)@ == old(self)@.rewritten(
                rule_views(rules@),
                choice.unwrap(),
            ),
            final(self)@.wf(),
    {
        match choice {
            Some((idx, at)) => {
                assert(rule_views(rules@)[idx as int].wf());
                self.apply_pattern(&rules[idx].replace, at);
                true
            },
            None => false,
        }
    }

    /// Applies every entry in the given order without testing it again, so
    /// that a later entry may overwrite what an earlier one wrote.
    pub fn apply_each(&mut self, rules: &Vec<Rule>, order: &Vec<(usize, Point)>)
        requires
            old(self)@.wf(),
            rules_wf(rule_views(rules@)),
            old(self)@.admits_all(rule_views(rules@), order@),
        ensures
            final(self)@ == old(self)@.rewritten_each(rule_views(rules@), order@),
            final(self)@.wf(),
    {
        let ghost views = rule_views(rules@);
        let ghost before = self@;
        let mut k: usize = 0;
        while k < order.len()
            invariant
                before.wf(),
                self@.wf(),
                self.width == before.width,
                self.height == before.height,
                views == rule_views(rules@),
                rules_wf(views),
                before.admits_all(views, order@),
                k <= order.len(),
                self@ == before.rewritten_each(views, order@.take(k as int)),
            decreases order.len() - k,
        {
            let (idx, at) = order[k];
            proof {
                assert(before.admits(views, order@[k as int]));
                assert(views[idx as int].wf());
                assert(order@.take(k + 1).drop_last() =~= order@.take(k as int));
                assert(order@.take(k + 1).last() == order@[k as int]);
            }
            self.apply_pattern(&rules[idx].replace, at);
            k += 1;
        }
        assert(order@.take(order@.len() as int) =~= order@);
    }

    /// Applies the entries in the given order, each only if its find pattern
    /// still matches when its turn comes.
    pub fn apply_each_matching(&mut self, rules: &Vec<Rule>, order: &Vec<(usize, Point)>)
        requires
            old(self)@.wf(),
            rules_wf(rule_views(rules@)),
            old(self)@.admits_all(rule_views(rules@), order@),
        ensures
            final(self)@ == old(self)@.rewritten_each_matching(rule_views(rules@), order@),
            final(self)@.wf(),
    {
        let ghost views = rule_views(rules@);
        let ghost before = self@;
        let mut k: usize = 0;
        while k < order.len()
            invariant
                before.wf(),
                self@.wf(),
                self.width == before.width,
                self.height == before.height,
                views == rule_views(rules@),
                rules_wf(views),
                before.admits_all(views, order@),
                k <= order.len(),
                self@ == before.rewritten_each_matching(views, order@.take(k as int)),
            decreases order.len() - k,
        {
            let (idx, at) = order[k];
            proof {
                assert(before.admits(views, order@[k as int]));
                assert(views[idx as int].wf());
                assert(order@.take(k + 1).drop_last() =~= order@.take(k as int));
                assert(order@.take(k + 1).last() == order@[k as int]);
            }
            let rule = &rules[idx];
            if self.test_match(&rule.find, at) {
                self.apply_pattern(&rule.replace, at);
            }
            k += 1;
        }
        assert(order@.take(order@.len() as int) =~= order@);
    }

    /// Collects the matches of the rules of `step`, draws one of them and
    /// applies it. The answer is `false`, and the grid unchanged, exactly
    /// where no rule matches.
    pub fn run_step(&mut self, rng: &mut SmallRng, step: &Step) -> (applied: bool)
        requires
            old(self)@.wf(),
            rules_wf(rule_views(step.rules@)),
        ensures
            applied == (old(self)@.all_matches(rule_views(step.rules@)).len() > 0),
            !applied ==> final(self)@ == old(self)@,
            applied ==> exists|k: int|
                0 <= k < old(self)@.all_matches(rule_views(step.rules@)).len() && final(self)@
                    == old(self)@.rewritten(
                    rule_views(step.rules@),
                    #[trigger] old(self)@.all_matches(rule_views(step.rules@))[k],
                ),
            final(self)@.wf(),
    {
        let matched = self.collect_matches(&step.rules);
        let choice = choose_match(rng, &matched);
        proof {
            assert(step.rules@.len() == step.rules.len());
            if choice is Some {
                lemma_all_matches_admitted(self@, rule_views(step.rules@), choice.unwrap());
            }
        }
        self.apply_choice(&step.rules, choice)
    }
}

} // verus!
