//! The program of a run: a tree of control nodes, and the tree of states
//! that carries how far each node has come.

use vstd::prelude::*;
use rand::rngs::SmallRng;
use crate::grid::GridView;
use crate::pattern::Grid;
use crate::rule::{rule_views, Rule, RuleView};
use crate::semantics::{lemma_initial_state_wf, node_wf, state_wf};
use crate::symbol::Symbol;

verus! {

/// The mathematical content of a node.
pub enum NodeView {
    Markov { children: Seq<NodeView> },
    Sequence { children: Seq<NodeView> },
    One { rules: Seq<RuleView>, limit: Option<nat> },
    All { rules: Seq<RuleView>, limit: Option<nat> },
    Prl { rules: Seq<RuleView> },
}

/// The mathematical content of a state: the node it runs, and its progress.
pub enum StateView {
    Markov { children: Seq<StateView> },
    Sequence { children: Seq<StateView>, index: nat },
    One { rules: Seq<RuleView>, limit: Option<nat>, taken: nat },
    All { rules: Seq<RuleView>, limit: Option<nat>, taken: nat },
    Prl { rules: Seq<RuleView> },
}

/// What every state can do: one step on a grid.
pub trait Step: Sized {
    /// The state can be stepped: its rules are well formed.
    spec fn ready(&self) -> bool;

    /// What one step may do: lead from this state and `grid` to `post` and
    /// `after`, with the answer `progressed`.
    spec fn may_step(
        &self,
        grid: GridView<Symbol>,
        post: &Self,
        after: GridView<Symbol>,
        progressed: bool,
    ) -> bool;

    /// Performs a single step. The answer is `true` if the grid was
    /// rewritten, so that the caller should step again.
    fn step(&mut self, rng: &mut SmallRng, grid: &mut Grid) -> (progressed: bool)
        requires
            old(self).ready(),
            old(grid)@.wf(),
        ensures
            old(self).may_step(old(grid)@, final(self), final(grid)@, progressed),
            final(self).ready(),
            final(grid)@.wf(),
    ;
}

/// A step limit as a mathematical value.
pub open spec fn limit_view(steps: Option<usize>) -> Option<nat> {
    match steps {
        Some(limit) => Some(limit as nat),
        None => None,
    }
}

/// Tries its children from the first on each step.
#[derive(Debug, PartialEq, Eq)]
pub struct MarkovNode {
    pub children: Vec<AnyNode>,
}

/// Runs its children one after the other.
#[derive(Debug, PartialEq, Eq)]
pub struct SequenceNode {
    pub children: Vec<AnyNode>,
}

/// Applies one match, drawn at random, per step.
#[derive(Debug, PartialEq, Eq)]
pub struct OneNode {
    pub rules: Vec<Rule>,
    pub steps: Option<usize>,
}

/// Applies, per step, every match that still holds when its turn comes.
#[derive(Debug, PartialEq, Eq)]
pub struct AllNode {
    pub rules: Vec<Rule>,
    pub steps: Option<usize>,
}

/// Applies every match of a step, whatever the others have written.
#[derive(Debug, PartialEq, Eq)]
pub struct PrlNode {
    pub rules: Vec<Rule>,
}

/// A node of any kind.
#[derive(Debug, PartialEq, Eq)]
pub enum AnyNode {
    Markov(MarkovNode),
    Sequence(SequenceNode),
    One(OneNode),
    All(AllNode),
    Prl(PrlNode),
}

/// The state of a Markov node: the states of its children.
#[derive(Debug, PartialEq, Eq)]
pub struct MarkovState {
    pub children: Vec<AnyState>,
}

/// The state of a Sequence node: the states of its children, and the index
/// of the child whose turn it is.
#[derive(Debug, PartialEq, Eq)]
pub struct SequenceState {
    pub children: Vec<AnyState>,
    pub index: usize,
}

/// The state of a One node: the number of rewrites it has made.
#[derive(Debug, PartialEq, Eq)]
pub struct OneState {
    pub node: OneNode,
    pub steps_taken: usize,
}

/// The state of an All node: the number of batches it has applied.
#[derive(Debug, PartialEq, Eq)]
pub struct AllState {
    pub node: AllNode,
    pub steps_taken: usize,
}

/// The state of a Prl node, which keeps no count.
#[derive(Debug, PartialEq, Eq)]
pub struct PrlState {
    pub node: PrlNode,
}

/// A state of any kind.
#[derive(Debug, PartialEq, Eq)]
pub enum AnyState {
    Markov(MarkovState),
    Sequence(SequenceState),
    One(OneState),
    All(AllState),
    Prl(PrlState),
}

/// An independent copy of a list of rules.
fn copy_rules(rules: &Vec<Rule>) -> (copy: Vec<Rule>)
    ensures
        rule_views(copy@) == rule_views(rules@),
{
    let mut copy: Vec<Rule> = Vec::with_capacity(rules.len());
    let mut i: usize = 0;
    while i < rules.len()
        invariant
            i <= rules.len(),
            copy@.len() == i,
            forall|j: int| 0 <= j < i ==> copy@[j]@ == rules@[j]@,
        decreases rules.len() - i,
    {
        copy.push(rules[i].clone());
        i += 1;
    }
    assert(rule_views(copy@) =~= rule_views(rules@));
    copy
}

impl Clone for OneNode {
    /// An independent copy with the same rules and limit.
    fn clone(&self) -> (copy: Self)
        ensures
            rule_views(copy.rules@) == rule_views(self.rules@),
            copy.steps == self.steps,
    {
        OneNode { rules: copy_rules(&self.rules), steps: self.steps }
    }
}

impl Clone for AllNode {
    /// An independent copy with the same rules and limit.
    fn clone(&self) -> (copy: Self)
        ensures
            rule_views(copy.rules@) == rule_views(self.rules@),
            copy.steps == self.steps,
    {
        AllNode { rules: copy_rules(&self.rules), steps: self.steps }
    }
}

impl Clone for PrlNode {
    /// An independent copy with the same rules.
    fn clone(&self) -> (copy: Self)
        ensures
            rule_views(copy.rules@) == rule_views(self.rules@),
    {
        PrlNode { rules: copy_rules(&self.rules) }
    }
}

impl Clone for OneState {
    /// An independent copy with the same rules, limit and count.
    fn clone(&self) -> (copy: Self)
        ensures
            rule_views(copy.node.rules@) == rule_views(self.node.rules@),
            copy.node.steps == self.node.steps,
            copy.steps_taken == self.steps_taken,
    {
        OneState { node: self.node.clone(), steps_taken: self.steps_taken }
    }
}

impl Clone for AllState {
    /// An independent copy with the same rules, limit and count.
    fn clone(&self) -> (copy: Self)
        ensures
            rule_views(copy.node.rules@) == rule_views(self.node.rules@),
            copy.node.steps == self.node.steps,
            copy.steps_taken == self.steps_taken,
    {
        AllState { node: self.node.clone(), steps_taken: self.steps_taken }
    }
}

impl Clone for PrlState {
    /// An independent copy with the same rules.
    fn clone(&self) -> (copy: Self)
        ensures
            rule_views(copy.node.rules@) == rule_views(self.node.rules@),
    {
        PrlState { node: self.node.clone() }
    }
}

/// The views of a list of nodes, in order.
pub open spec fn node_views(nodes: Seq<AnyNode>) -> Seq<NodeView>
    decreases nodes,
{
    Seq::new(
        nodes.len(),
        |i: int|
            if 0 <= i < nodes.len() {
                node_view(nodes[i])
            } else {
                NodeView::Prl { rules: Seq::empty() }
            },
    )
}

/// The view of a node.
pub open spec fn node_view(node: AnyNode) -> NodeView
    decreases node,
{
    match node {
        AnyNode::Markov(n) => NodeView::Markov { children: node_views(n.children@) },
        AnyNode::Sequence(n) => NodeView::Sequence { children: node_views(n.children@) },
        AnyNode::One(n) => NodeView::One {
            rules: rule_views(n.rules@),
            limit: limit_view(n.steps),
        },
        AnyNode::All(n) => NodeView::All {
            rules: rule_views(n.rules@),
            limit: limit_view(n.steps),
        },
        AnyNode::Prl(n) => NodeView::Prl { rules: rule_views(n.rules@) },
    }
}

/// The views of a list of states, in order.
pub open spec fn state_views(states: Seq<AnyState>) -> Seq<StateView>
    decreases states,
{
    Seq::new(
        states.len(),
        |i: int|
            if 0 <= i < states.len() {
                state_view(states[i])
            } else {
                StateView::Prl { rules: Seq::empty() }
            },
    )
}

/// The view of a state.
pub open spec fn state_view(state: AnyState) -> StateView
    decreases state,
{
    match state {
        AnyState::Markov(s) => StateView::Markov { children: state_views(s.children@) },
        AnyState::Sequence(s) => StateView::Sequence {
            children: state_views(s.children@),
            index: s.index as nat,
        },
        AnyState::One(s) => StateView::One {
            rules: rule_views(s.node.rules@),
            limit: limit_view(s.node.steps),
            taken: s.steps_taken as nat,
        },
        AnyState::All(s) => StateView::All {
            rules: rule_views(s.node.rules@),
            limit: limit_view(s.node.steps),
            taken: s.steps_taken as nat,
        },
        AnyState::Prl(s) => StateView::Prl { rules: rule_views(s.node.rules@) },
    }
}

impl View for AnyNode {
    type V = NodeView;

    open spec fn view(&self) -> NodeView {
        node_view(*self)
    }
}

impl View for AnyState {
    type V = StateView;

    open spec fn view(&self) -> StateView {
        state_view(*self)
    }
}

/// The states in which the nodes of a list start.
pub open spec fn initial_states(nodes: Seq<NodeView>) -> Seq<StateView>
    decreases nodes,
{
    Seq::new(
        nodes.len(),
        |i: int|
            if 0 <= i < nodes.len() {
                initial_state(nodes[i])
            } else {
                StateView::Prl { rules: Seq::empty() }
            },
    )
}

/// The state in which a node starts: every count at zero, every sequence at
/// its first child.
pub open spec fn initial_state(node: NodeView) -> StateView
    decreases node,
{
    match node {
        NodeView::Markov { children } => StateView::Markov { children: initial_states(children) },
        NodeView::Sequence { children } => StateView::Sequence {
            children: initial_states(children),
            index: 0,
        },
        NodeView::One { rules, limit } => StateView::One { rules, limit, taken: 0 },
        NodeView::All { rules, limit } => StateView::All { rules, limit, taken: 0 },
        NodeView::Prl { rules } => StateView::Prl { rules },
    }
}

/// The states in which the nodes of a list start.
fn make_states(nodes: &Vec<AnyNode>) -> (states: Vec<AnyState>)
    ensures
        state_views(states@) == initial_states(node_views(nodes@)),
    decreases nodes,
{
    let mut states: Vec<AnyState> = Vec::with_capacity(nodes.len());
    let mut i: usize = 0;
    while i < nodes.len()
        invariant
            i <= nodes.len(),
            states@.len() == i,
            forall|j: int| 0 <= j < i ==> state_view(states@[j]) == initial_state(node_view(nodes@[j])),
        decreases nodes.len() - i,
    {
        let state = nodes[i].make_state();
        states.push(state);
        i += 1;
    }
    assert(state_views(states@) =~= initial_states(node_views(nodes@)));
    states
}

impl AnyNode {
    /// Builds the state in which this node starts. Nothing is drawn and no
    /// grid is read.
    pub fn make_state(&self) -> (state: AnyState)
        ensures
            state@ == initial_state(self@),
            node_wf(self@) ==> state_wf(state@),
        decreases self,
    {
        proof {
            if node_wf(self@) {
                lemma_initial_state_wf(self@);
            }
        }
        match self {
            AnyNode::Markov(node) => AnyState::Markov(
                MarkovState { children: make_states(&node.children) },
            ),
            AnyNode::Sequence(node) => AnyState::Sequence(
                SequenceState { children: make_states(&node.children), index: 0 },
            ),
            AnyNode::One(node) => AnyState::One(OneState { node: node.clone(), steps_taken: 0 }),
            AnyNode::All(node) => AnyState::All(AllState { node: node.clone(), steps_taken: 0 }),
            AnyNode::Prl(node) => AnyState::Prl(PrlState { node: node.clone() }),
        }
    }
}

/// Independent copies of the nodes of a list.
fn copy_nodes(nodes: &Vec<AnyNode>) -> (copy: Vec<AnyNode>)
    ensures
        node_views(copy@) == node_views(nodes@),
    decreases nodes,
{
    let mut copy: Vec<AnyNode> = Vec::with_capacity(nodes.len());
    let mut i: usize = 0;
    while i < nodes.len()
        invariant
            i <= nodes.len(),
            copy@.len() == i,
            forall|j: int| 0 <= j < i ==> node_view(copy@[j]) == node_view(nodes@[j]),
        decreases nodes.len() - i,
    {
        let node = copy_node(&nodes[i]);
        copy.push(node);
        i += 1;
    }
    assert(node_views(copy@) =~= node_views(nodes@));
    copy
}

/// An independent copy of a node and of all below it.
fn copy_node(node: &AnyNode) -> (copy: AnyNode)
    ensures
        copy@ == node@,
    decreases node,
{
    match node {
        AnyNode::Markov(n) => AnyNode::Markov(MarkovNode { children: copy_nodes(&n.children) }),
        AnyNode::Sequence(n) => AnyNode::Sequence(
            SequenceNode { children: copy_nodes(&n.children) },
        ),
        AnyNode::One(n) => AnyNode::One(n.clone()),
        AnyNode::All(n) => AnyNode::All(n.clone()),
        AnyNode::Prl(n) => AnyNode::Prl(n.clone()),
    }
}

/// Independent copies of the states of a list.
fn copy_states(states: &Vec<AnyState>) -> (copy: Vec<AnyState>)
    ensures
        state_views(copy@) == state_views(states@),
    decreases states,
{
    let mut copy: Vec<AnyState> = Vec::with_capacity(states.len());
    let mut i: usize = 0;
    while i < states.len()
        invariant
            i <= states.len(),
            copy@.len() == i,
            forall|j: int| 0 <= j < i ==> state_view(copy@[j]) == state_view(states@[j]),
        decreases states.len() - i,
    {
        let state = copy_state(&states[i]);
        copy.push(state);
        i += 1;
    }
    assert(state_views(copy@) =~= state_views(states@));
    copy
}

/// An independent copy of a state and of all below it.
fn copy_state(state: &AnyState) -> (copy: AnyState)
    ensures
        copy@ == state@,
    decreases state,
{
    match state {
        AnyState::Markov(s) => AnyState::Markov(MarkovState { children: copy_states(&s.children) }),
        AnyState::Sequence(s) => AnyState::Sequence(
            SequenceState { children: copy_states(&s.children), index: s.index },
        ),
        AnyState::One(s) => AnyState::One(s.clone()),
        AnyState::All(s) => AnyState::All(s.clone()),
        AnyState::Prl(s) => AnyState::Prl(s.clone()),
    }
}

impl Clone for AnyNode {
    /// An independent copy of the whole tree.
    fn clone(&self) -> (copy: Self)
        ensures
            copy@ == self@,
    {
        copy_node(self)
    }
}

impl Clone for MarkovNode {
    /// An independent copy of the node and its children.
    fn clone(&self) -> (copy: Self)
        ensures
            node_views(copy.children@) == node_views(self.children@),
    {
        MarkovNode { children: copy_nodes(&self.children) }
    }
}

impl Clone for SequenceNode {
    /// An independent copy of the node and its children.
    fn clone(&self) -> (copy: Self)
        ensures
            node_views(copy.children@) == node_views(self.children@),
    {
        SequenceNode { children: copy_nodes(&self.children) }
    }
}

impl Clone for AnyState {
    /// An independent copy of the whole tree, with its progress.
    fn clone(&self) -> (copy: Self)
        ensures
            copy@ == self@,
    {
        copy_state(self)
    }
}

impl Clone for MarkovState {
    /// An independent copy of the state and its children.
    fn clone(&self) -> (copy: Self)
        ensures
            state_views(copy.children@) == state_views(self.children@),
    {
        MarkovState { children: copy_states(&self.children) }
    }
}

impl Clone for SequenceState {
    /// An independent copy of the state and its children, at the same index.
    fn clone(&self) -> (copy: Self)
        ensures
            state_views(copy.children@) == state_views(self.children@),
            copy.index == self.index,
    {
        SequenceState { children: copy_states(&self.children), index: self.index }
    }
}

} // verus!
