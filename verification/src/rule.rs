//! Rules: a pattern to find and a pattern of the same shape to put in its place.

use vstd::prelude::*;
use crate::grid::{lemma_rotate_round_trip, GridView};
use crate::pattern::{denotes_pattern, pattern_of, Pattern};
use crate::symbol::Symbol;

verus! {

/// The mathematical content of a rule.
pub struct RuleView {
    pub find: GridView<Option<Symbol>>,
    pub replace: GridView<Option<Symbol>>,
}

impl RuleView {
    /// Both patterns are grids, and they have one shape.
    pub open spec fn wf(self) -> bool {
        &&& self.find.wf()
        &&& self.replace.wf()
        &&& self.find.width == self.replace.width
        &&& self.find.height == self.replace.height
    }

    /// Both patterns turned together by a quarter clockwise.
    pub open spec fn rotated(self) -> RuleView {
        RuleView { find: self.find.rotated(), replace: self.replace.rotated() }
    }
}

/// One local rewrite: where `find` matches, `replace` is written.
#[derive(Debug, PartialEq, Eq)]
pub struct Rule {
    pub find: Pattern,
    pub replace: Pattern,
}

impl View for Rule {
    type V = RuleView;

    open spec fn view(&self) -> RuleView {
        RuleView { find: self.find@, replace: self.replace@ }
    }
}

impl Clone for Rule {
    /// An independent copy of both patterns.
    fn clone(&self) -> (copy: Self)
        ensures
            copy@ == self@,
    {
        Rule { find: self.find.clone(), replace: self.replace.clone() }
    }
}

/// Why two texts do not make a rule.
#[derive(Copy, Clone, Debug, PartialEq, Eq, Structural)]
pub enum RuleError {
    /// One of the texts denotes no pattern.
    Format,
    /// Both denote patterns, of different shapes.
    Shape,
}

/// The views of a list of rules, in order.
pub open spec fn rule_views(rules: Seq<Rule>) -> Seq<RuleView> {
    Seq::new(rules.len(), |i: int| rules[i]@)
}

/// Every rule of a list is well formed.
pub open spec fn rules_wf(rules: Seq<RuleView>) -> bool {
    forall|i: int| 0 <= i < rules.len() ==> (#[trigger] rules[i]).wf()
}

impl Rule {
    /// Two texts make a rule where both denote patterns of one shape.
    pub open spec fn accepts(find: Seq<char>, replace: Seq<char>) -> bool {
        &&& denotes_pattern(find)
        &&& denotes_pattern(replace)
        &&& pattern_of(find).width == pattern_of(replace).width
        &&& pattern_of(find).height == pattern_of(replace).height
    }

    /// The rule that two texts denote.
    pub open spec fn of_texts(find: Seq<char>, replace: Seq<char>) -> RuleView {
        RuleView { find: pattern_of(find), replace: pattern_of(replace) }
    }

    /// Tells whether both patterns are grids of one shape.
    pub fn well_formed(&self) -> (ok: bool)
        ensures
            ok == self@.wf(),
    {
        self.find.well_formed() && self.replace.well_formed() && self.find.width
            == self.replace.width && self.find.height == self.replace.height
    }

    /// Tells whether every rule of a list is well formed.
    pub fn all_well_formed(rules: &Vec<Rule>) -> (ok: bool)
        ensures
            ok == rules_wf(rule_views(rules@)),
    {
        let mut i: usize = 0;
        while i < rules.len()
            invariant
                i <= rules.len(),
                forall|j: int| 0 <= j < i ==> (#[trigger] rule_views(rules@)[j]).wf(),
            decreases rules.len() - i,
        {
            if !rules[i].well_formed() {
                assert(!rule_views(rules@)[i as int].wf());
                return false;
            }
            i += 1;
        }
        true
    }

    /// The rule turned by a quarter clockwise, find and replace together.
    pub fn rotate_cw(&self) -> (turned: Self)
        requires
            self@.wf(),
        ensures
            turned@ == self@.rotated(),
            turned@.wf(),
    {
        Rule { find: self.find.rotate_cw(), replace: self.replace.rotate_cw() }
    }

    /// The rule in its four orientations: as it is, then after one, two and
    /// three quarter turns.
    pub fn make_rotations(self) -> (rotations: Vec<Self>)
        requires
            self@.wf(),
        ensures
            rotations@.len() == 4,
            rotations@[0]@ == self@,
            rotations@[1]@ == self@.rotated(),
            rotations@[2]@ == self@.rotated().rotated(),
            rotations@[3]@ == self@.rotated().rotated().rotated(),
            rules_wf(rule_views(rotations@)),
    {
        let cw = self.rotate_cw();
        let turn = cw.rotate_cw();
        let ccw = turn.rotate_cw();
        let mut rotations: Vec<Rule> = Vec::with_capacity(4);
        rotations.push(self);
        rotations.push(cw);
        rotations.push(turn);
        rotations.push(ccw);
        rotations
    }

    /// Reads a rule from two pattern texts, or says why they make none.
    pub fn try_from_strings(find: &str, replace: &str) -> (outcome: Result<Self, RuleError>)
        ensures
            outcome is Ok <==> Rule::accepts(find@, replace@),
            outcome is Ok ==> outcome.unwrap()@ == Rule::of_texts(find@, replace@)
                && outcome.unwrap()@.wf(),
            outcome == Err::<Rule, RuleError>(RuleError::Format) <==> !(denotes_pattern(find@)
                && denotes_pattern(replace@)),
            outcome == Err::<Rule, RuleError>(RuleError::Shape) <==> denotes_pattern(find@)
                && denotes_pattern(replace@) && !Rule::accepts(find@, replace@),
    {
        let find_pattern = match Pattern::from_text(find) {
            Some(pattern) => pattern,
            None => {
                return Err(RuleError::Format);
            },
        };
        let replace_pattern = match Pattern::from_text(replace) {
            Some(pattern) => pattern,
            None => {
                return Err(RuleError::Format);
            },
        };
        if find_pattern.width != replace_pattern.width || find_pattern.height
            != replace_pattern.height {
            return Err(RuleError::Shape);
        }
        Ok(Rule { find: find_pattern, replace: replace_pattern })
    }

    /// Reads a rule from two pattern texts that make one.
    pub fn from_strings(find: &str, replace: &str) -> (rule: Self)
        requires
            Rule::accepts(find@, replace@),
        ensures
            rule@ == Rule::of_texts(find@, replace@),
            rule@.wf(),
    {
        match Rule::try_from_strings(find, replace) {
            Ok(rule) => rule,
            Err(_) => vstd::pervasive::unreached(),
        }
    }
}

/// A quarter turn keeps a rule well formed: find and replace exchange their
/// extents together, and so keep one shape.
pub proof fn lemma_rotation_keeps_shape(rule: RuleView)
    requires
        rule.wf(),
    ensures
        rule.rotated().wf(),
        rule.rotated().find.width == rule.find.height,
        rule.rotated().find.height == rule.find.width,
        rule.rotated().replace.width == rule.rotated().find.width,
        rule.rotated().replace.height == rule.rotated().find.height,
{
    assert(rule.find.width * rule.find.height == rule.find.height * rule.find.width)
        by (nonlinear_arith);
}

/// Four quarter turns bring every rule back to itself.
pub proof fn lemma_rule_round_trip(rule: RuleView)
    requires
        rule.wf(),
    ensures
        rule.rotated().rotated().rotated().rotated() == rule,
{
    lemma_rotate_round_trip(rule.find);
    lemma_rotate_round_trip(rule.replace);
}

} // verus!
