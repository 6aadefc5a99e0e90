use markov_grid::node::{
    AllNode, AllState, AnyNode, AnyState, MarkovNode, MarkovState, OneNode, OneState, PrlNode,
    PrlState, SequenceNode, SequenceState, Step,
};
use markov_grid::{GenericGrid, Grid, Point, Rule, Symbol};
use rand::rngs::SmallRng;
use rand::SeedableRng;

fn make_rng() -> SmallRng {
    SmallRng::seed_from_u64(2)
}

fn lettered(width: usize, height: usize, text: &str) -> Grid {
    let cells: Vec<Symbol> = Symbol::from_string(text)
        .into_iter()
        .map(|cell| cell.unwrap())
        .collect();
    GenericGrid {
        width,
        height,
        grid: cells,
    }
}

fn count(grid: &Grid, symbol: Symbol) -> usize {
    grid.grid.iter().filter(|s| **s == symbol).count()
}

fn one(find: &str, replace: &str, steps: Option<usize>) -> AnyNode {
    AnyNode::One(OneNode {
        rules: vec![Rule::from_strings(find, replace)],
        steps,
    })
}

fn all(find: &str, replace: &str, steps: Option<usize>) -> AnyNode {
    AnyNode::All(AllNode {
        rules: Rule::from_strings(find, replace).make_rotations(),
        steps,
    })
}

fn rotations(pairs: &[(&str, &str)]) -> Vec<Rule> {
    let mut rules = Vec::new();
    for (find, replace) in pairs {
        rules.extend(Rule::from_strings(find, replace).make_rotations());
    }
    rules
}

fn river_model() -> AnyNode {
    AnyNode::Sequence(SequenceNode {
        children: vec![
            one("B", "W", Some(1)),
            one("B", "R", Some(1)),
            AnyNode::One(OneNode {
                rules: rotations(&[("RB", "RR"), ("WB", "WW")]),
                steps: None,
            }),
            all("RW", "UU", None),
            AnyNode::All(AllNode {
                rules: rotations(&[("W", "B"), ("R", "B")]),
                steps: None,
            }),
            all("UB", "UU", Some(1)),
            all("BU/UB", "U*/**", None),
            all("UB", "*G", None),
            one("B", "E", Some(13)),
            AnyNode::One(OneNode {
                rules: rotations(&[("EB", "*E"), ("GB", "*G")]),
                steps: None,
            }),
        ],
    })
}

#[test]
fn make_state_starts_at_zero() {
    let model = AnyNode::Markov(MarkovNode {
        children: vec![
            AnyNode::Sequence(SequenceNode {
                children: vec![one("B", "W", Some(3)), all("W", "R", None)],
            }),
            AnyNode::Prl(PrlNode {
                rules: vec![Rule::from_strings("R", "G")],
            }),
        ],
    });
    let state = model.make_state();
    let expected = AnyState::Markov(MarkovState {
        children: vec![
            AnyState::Sequence(SequenceState {
                children: vec![
                    AnyState::One(OneState {
                        node: OneNode {
                            rules: vec![Rule::from_strings("B", "W")],
                            steps: Some(3),
                        },
                        steps_taken: 0,
                    }),
                    AnyState::All(AllState {
                        node: AllNode {
                            rules: Rule::from_strings("W", "R").make_rotations(),
                            steps: None,
                        },
                        steps_taken: 0,
                    }),
                ],
                index: 0,
            }),
            AnyState::Prl(PrlState {
                node: PrlNode {
                    rules: vec![Rule::from_strings("R", "G")],
                },
            }),
        ],
    });
    assert_eq!(state, expected);
    assert!(state.is_ready());
    assert_eq!(model.make_state(), expected);
}

#[test]
fn one_applies_one_match_per_step() {
    let mut rng = make_rng();
    let mut grid = Grid::new(4, 4);
    let mut state = one("B", "W", None).make_state();
    for done in 1..=16 {
        assert!(state.step(&mut rng, &mut grid));
        assert_eq!(count(&grid, Symbol::White), done);
        assert_eq!(count(&grid, Symbol::Black), 16 - done);
    }
    assert!(!state.step(&mut rng, &mut grid));
    assert_eq!(grid.grid, vec![Symbol::White; 16]);
}

#[test]
fn one_stops_at_its_limit() {
    let mut rng = make_rng();
    let mut grid = Grid::new(4, 4);
    let mut state = OneState {
        node: OneNode {
            rules: vec![Rule::from_strings("B", "W")],
            steps: Some(2),
        },
        steps_taken: 0,
    };
    assert!(state.step(&mut rng, &mut grid));
    assert_eq!(state.steps_taken, 1);
    assert!(state.step(&mut rng, &mut grid));
    assert_eq!(state.steps_taken, 2);
    let before = lettered(4, 4, &grid.to_text().replace('\n', ""));
    for _ in 0..5 {
        assert!(!state.step(&mut rng, &mut grid));
        assert_eq!(state.steps_taken, 2);
        assert_eq!(grid, before);
    }
    assert_eq!(count(&grid, Symbol::White), 2);
}

#[test]
fn one_without_a_match_changes_nothing() {
    let mut rng = make_rng();
    let mut grid = Grid::new(4, 4);
    let mut state = OneState {
        node: OneNode {
            rules: vec![Rule::from_strings("R", "W")],
            steps: Some(2),
        },
        steps_taken: 0,
    };
    assert!(!state.step(&mut rng, &mut grid));
    assert_eq!(state.steps_taken, 0);
    assert_eq!(grid, Grid::new(4, 4));
    let mut unlimited = OneState {
        node: OneNode {
            rules: vec![Rule::from_strings("B", "W")],
            steps: None,
        },
        steps_taken: 0,
    };
    assert!(unlimited.step(&mut rng, &mut grid));
    assert_eq!(unlimited.steps_taken, 0);
}

#[test]
fn one_with_a_zero_limit_never_steps() {
    let mut rng = make_rng();
    let mut grid = Grid::new(2, 2);
    let mut state = one("B", "W", Some(0)).make_state();
    assert!(!state.step(&mut rng, &mut grid));
    assert_eq!(grid, Grid::new(2, 2));
}

#[test]
fn take_choice_follows_the_draw() {
    let mut grid = lettered(3, 1, "BWB");
    let mut state = OneState {
        node: OneNode {
            rules: vec![Rule::from_strings("W", "R"), Rule::from_strings("B", "G")],
            steps: Some(2),
        },
        steps_taken: 0,
    };
    assert!(state.take_choice(&mut grid, Some((1, Point { x: 2, y: 0 }))));
    assert_eq!(grid, lettered(3, 1, "BWG"));
    assert_eq!(state.steps_taken, 1);
    assert!(!state.take_choice(&mut grid, None));
    assert_eq!(state.steps_taken, 1);
    assert!(state.take_choice(&mut grid, Some((0, Point { x: 1, y: 0 }))));
    assert_eq!(grid, lettered(3, 1, "BRG"));
    assert_eq!(state.steps_taken, 2);
    assert!(!state.take_choice(&mut grid, Some((1, Point { x: 0, y: 0 }))));
    assert_eq!(grid, lettered(3, 1, "BRG"));
    assert_eq!(state.steps_taken, 2);
}

#[test]
fn all_applies_every_match_that_still_holds() {
    let mut rng = make_rng();
    let mut grid = Grid::new(5, 5);
    let mut state = AllState {
        node: AllNode {
            rules: vec![Rule::from_strings("B", "W")],
            steps: None,
        },
        steps_taken: 0,
    };
    assert!(state.step(&mut rng, &mut grid));
    assert_eq!(grid.grid, vec![Symbol::White; 25]);
    assert!(!state.step(&mut rng, &mut grid));
    assert_eq!(grid.grid, vec![Symbol::White; 25]);
}

#[test]
fn all_resolves_conflicts_by_testing_again() {
    let rules = vec![Rule::from_strings("BB", "WR")];
    let mut seen: Vec<String> = Vec::new();
    for seed in 0..32 {
        let mut rng = SmallRng::seed_from_u64(seed);
        let mut grid = lettered(4, 1, "BBBB");
        let mut state = AllState {
            node: AllNode {
                rules: rules.clone(),
                steps: Some(3),
            },
            steps_taken: 0,
        };
        assert!(state.step(&mut rng, &mut grid));
        assert_eq!(state.steps_taken, 1);
        let text = grid.to_text();
        assert!(text == "WRWR\n" || text == "BWRB\n", "{}", text);
        assert!(!state.step(&mut rng, &mut grid));
        assert_eq!(state.steps_taken, 1);
        if !seen.contains(&text) {
            seen.push(text);
        }
    }
    // Both orders of the batch come up among the seeds.
    assert_eq!(seen.len(), 2);
}

#[test]
fn all_take_batch_follows_the_order() {
    let mut grid = lettered(4, 1, "BBBB");
    let mut state = AllState {
        node: AllNode {
            rules: vec![Rule::from_strings("BB", "WR")],
            steps: Some(1),
        },
        steps_taken: 0,
    };
    let order = vec![
        (0, Point { x: 2, y: 0 }),
        (0, Point { x: 1, y: 0 }),
        (0, Point { x: 0, y: 0 }),
    ];
    assert!(state.take_batch(&mut grid, &order));
    assert_eq!(grid, lettered(4, 1, "WRWR"));
    assert_eq!(state.steps_taken, 1);
    let mut again = lettered(4, 1, "BBBB");
    assert!(!state.take_batch(&mut again, &order));
    assert_eq!(again, lettered(4, 1, "BBBB"));
    assert_eq!(state.steps_taken, 1);
}

#[test]
fn all_with_a_limit_counts_batches() {
    let mut rng = make_rng();
    let mut grid = lettered(3, 1, "BWB");
    let mut state = AllState {
        node: AllNode {
            rules: vec![Rule::from_strings("B", "W"), Rule::from_strings("W", "R")],
            steps: Some(2),
        },
        steps_taken: 0,
    };
    assert!(state.step(&mut rng, &mut grid));
    assert!(state.step(&mut rng, &mut grid));
    assert_eq!(state.steps_taken, 2);
    let text = grid.to_text();
    assert!(!state.step(&mut rng, &mut grid));
    assert_eq!(grid.to_text(), text);
    assert_eq!(state.steps_taken, 2);
}

#[test]
fn prl_applies_every_match_without_testing_again() {
    let rules = vec![Rule::from_strings("BB", "WR")];
    let mut seen: Vec<String> = Vec::new();
    for seed in 0..32 {
        let mut rng = SmallRng::seed_from_u64(seed);
        let mut grid = lettered(4, 1, "BBBB");
        let mut state = PrlState {
            node: PrlNode {
                rules: rules.clone(),
            },
        };
        assert!(state.step(&mut rng, &mut grid));
        let text = grid.to_text();
        assert!(
            ["WWWR\n", "WRWR\n", "WWRR\n", "WRRR\n"].contains(&text.as_str()),
            "{}",
            text
        );
        assert_eq!(&text[0..1], "W");
        assert_eq!(&text[3..4], "R");
        if !seen.contains(&text) {
            seen.push(text);
        }
    }
    // The order of the batch differs among the seeds.
    assert!(seen.len() >= 2);
}

#[test]
fn prl_take_batch_follows_the_order() {
    let mut grid = lettered(4, 1, "BBBB");
    let mut state = PrlState {
        node: PrlNode {
            rules: vec![Rule::from_strings("BB", "WR")],
        },
    };
    let order = vec![
        (0, Point { x: 2, y: 0 }),
        (0, Point { x: 1, y: 0 }),
        (0, Point { x: 0, y: 0 }),
    ];
    assert!(state.take_batch(&mut grid, &order));
    assert_eq!(grid, lettered(4, 1, "WRRR"));
    assert!(!state.take_batch(&mut grid, &vec![]));
    assert_eq!(grid, lettered(4, 1, "WRRR"));
}

#[test]
fn prl_without_a_match_answers_false() {
    let mut rng = make_rng();
    let mut grid = Grid::new(3, 3);
    let mut state = AnyNode::Prl(PrlNode {
        rules: vec![Rule::from_strings("R", "G")],
    })
    .make_state();
    assert!(!state.step(&mut rng, &mut grid));
    assert_eq!(grid, Grid::new(3, 3));
}

#[test]
fn sequence_spends_the_budget_of_each_child() {
    let mut rng = make_rng();
    let mut grid = Grid::new(4, 4);
    let model = AnyNode::Sequence(SequenceNode {
        children: vec![
            one("B", "W", Some(3)),
            one("B", "R", Some(0)),
            one("W", "G", Some(2)),
            one("B", "U", Some(4)),
        ],
    });
    let mut state = model.make_state();
    let mut progress = 0;
    while state.step(&mut rng, &mut grid) {
        progress += 1;
        assert!(progress <= 9);
    }
    assert_eq!(progress, 3 + 0 + 2 + 4);
    assert_eq!(count(&grid, Symbol::White), 1);
    assert_eq!(count(&grid, Symbol::Green), 2);
    assert_eq!(count(&grid, Symbol::Blue), 4);
    assert_eq!(count(&grid, Symbol::Red), 0);
    let text = grid.to_text();
    for _ in 0..4 {
        assert!(!state.step(&mut rng, &mut grid));
        assert_eq!(grid.to_text(), text);
    }
    match &state {
        AnyState::Sequence(s) => assert_eq!(s.index, 4),
        _ => unreachable!(),
    }
}

#[test]
fn sequence_never_goes_back() {
    let mut rng = make_rng();
    let mut grid = lettered(2, 1, "BW");
    let mut state = SequenceState {
        children: vec![
            one("R", "G", None).make_state(),
            one("B", "R", None).make_state(),
            one("W", "B", None).make_state(),
        ],
        index: 0,
    };
    assert!(state.step(&mut rng, &mut grid));
    assert_eq!(state.index, 1);
    assert_eq!(grid, lettered(2, 1, "RW"));
    // The first child would match now, yet its turn is over.
    assert!(state.step(&mut rng, &mut grid));
    assert_eq!(state.index, 2);
    assert_eq!(grid, lettered(2, 1, "RB"));
    assert!(!state.step(&mut rng, &mut grid));
    assert_eq!(state.index, 3);
    assert_eq!(grid, lettered(2, 1, "RB"));
    assert!(!state.step(&mut rng, &mut grid));
    assert_eq!(state.index, 3);
}

#[test]
fn empty_sequence_and_markov_answer_false() {
    let mut rng = make_rng();
    let mut grid = Grid::new(2, 2);
    let mut sequence = AnyNode::Sequence(SequenceNode { children: vec![] }).make_state();
    assert!(!sequence.step(&mut rng, &mut grid));
    let mut markov = AnyNode::Markov(MarkovNode { children: vec![] }).make_state();
    assert!(!markov.step(&mut rng, &mut grid));
    assert_eq!(grid, Grid::new(2, 2));
}

#[test]
fn markov_prefers_its_first_child() {
    let mut rng = make_rng();
    let mut grid = Grid::new(4, 4);
    let mut state = AnyNode::Markov(MarkovNode {
        children: vec![one("B", "W", None), one("W", "R", None)],
    })
    .make_state();
    for done in 1..=16 {
        assert!(state.step(&mut rng, &mut grid));
        assert_eq!(count(&grid, Symbol::White), done);
        assert_eq!(count(&grid, Symbol::Red), 0);
    }
    // Only now that the first child has no match does the second get its turn.
    assert!(state.step(&mut rng, &mut grid));
    assert_eq!(count(&grid, Symbol::Red), 1);
}

#[test]
fn markov_never_reaches_a_second_child_behind_a_first_that_matches() {
    let mut rng = make_rng();
    let mut grid = lettered(3, 1, "BWB");
    let mut state = MarkovState {
        children: vec![
            one("*", "*", None).make_state(),
            one("E", "R", Some(5)).make_state(),
        ],
    };
    let second = one("E", "R", Some(5)).make_state();
    for _ in 0..20 {
        assert!(state.step(&mut rng, &mut grid));
        assert_eq!(grid, lettered(3, 1, "BWB"));
        assert_eq!(state.children[1], second);
    }
}

#[test]
fn markov_starts_again_at_the_first_child() {
    let mut rng = make_rng();
    let mut grid = lettered(3, 1, "WWW");
    let mut state = AnyNode::Markov(MarkovNode {
        children: vec![one("R", "G", None), one("W", "R", None)],
    })
    .make_state();
    let mut texts = Vec::new();
    while state.step(&mut rng, &mut grid) {
        texts.push(grid.to_text());
        assert!(texts.len() <= 6);
    }
    assert_eq!(texts.len(), 6);
    for (i, text) in texts.iter().enumerate() {
        let reds = text.matches('R').count();
        assert_eq!(reds, if i % 2 == 0 { 1 } else { 0 });
    }
    assert_eq!(grid, lettered(3, 1, "GGG"));
}

#[test]
fn same_seed_gives_the_same_run() {
    let mut traces: Vec<Vec<String>> = Vec::new();
    for _ in 0..2 {
        let mut rng = SmallRng::seed_from_u64(11);
        let mut grid = Grid::new(12, 12);
        let mut state = river_model().make_state();
        let mut trace = Vec::new();
        let mut ticks = 0;
        while state.step(&mut rng, &mut grid) {
            trace.push(grid.to_text());
            ticks += 1;
            assert!(ticks < 10_000);
        }
        trace.push(grid.to_text());
        traces.push(trace);
    }
    assert!(traces[0].len() > 100);
    assert_eq!(traces[0], traces[1]);
}

#[test]
fn river_model_runs_to_its_end() {
    let model = river_model();
    let mut grid = Grid::new(24, 24);
    let mut state = model.make_state();
    let mut rng = make_rng();
    let mut ticks = 0;
    while state.step(&mut rng, &mut grid) {
        ticks += 1;
        assert!(ticks < 20_000);
    }
    assert!(ticks > 24 * 24 - 2);
    assert!(!state.step(&mut rng, &mut grid));
    assert_eq!(count(&grid, Symbol::White), 0);
    assert_eq!(count(&grid, Symbol::Red), 0);
    assert_eq!(count(&grid, Symbol::Black), 0);
    assert!(count(&grid, Symbol::Blue) > 0);
    let frame = grid.render_gif_frame(4);
    assert_eq!((frame.width, frame.height), (96, 96));
}

#[test]
fn step_is_also_a_trait_method() {
    fn drive<S: Step>(state: &mut S, rng: &mut SmallRng, grid: &mut Grid) -> usize {
        let mut ticks = 0;
        while state.step(rng, grid) {
            ticks += 1;
        }
        ticks
    }
    let mut rng = make_rng();
    let mut grid = Grid::new(3, 3);
    let mut state = one("B", "W", Some(4)).make_state();
    assert_eq!(drive(&mut state, &mut rng, &mut grid), 4);
    let mut leaf = PrlState {
        node: PrlNode {
            rules: vec![Rule::from_strings("B", "W")],
        },
    };
    assert_eq!(drive(&mut leaf, &mut rng, &mut grid), 1);
    assert_eq!(count(&grid, Symbol::White), 9);
}

#[test]
fn readiness_sees_a_misshapen_rule() {
    let mut state = AnyNode::Sequence(SequenceNode {
        children: vec![one("B", "W", None), all("BB", "WW", None)],
    })
    .make_state();
    assert!(state.is_ready());
    if let AnyState::Sequence(s) = &mut state {
        if let AnyState::All(a) = &mut s.children[1] {
            a.node.rules[2].replace.width = 7;
        }
    }
    assert!(!state.is_ready());
}

#[test]
fn clone_copies_the_whole_tree() {
    let model = river_model();
    let copy = model.clone();
    assert_eq!(copy, model);
    let mut rng = make_rng();
    let mut grid = Grid::new(6, 6);
    let mut state = model.make_state();
    for _ in 0..5 {
        assert!(state.step(&mut rng, &mut grid));
    }
    let kept = state.clone();
    assert_eq!(kept, state);
    assert!(state.step(&mut rng, &mut grid));
    match (&kept, &state) {
        (AnyState::Sequence(before), AnyState::Sequence(after)) => {
            assert_eq!(before.index, 2);
            assert_eq!(after.index, 2);
            assert_eq!(before.children.len(), after.children.len());
        }
        _ => unreachable!(),
    }
    let mut other_rng = make_rng();
    let mut other_grid = Grid::new(6, 6);
    let mut other = copy.make_state();
    for _ in 0..6 {
        assert!(other.step(&mut other_rng, &mut other_grid));
    }
    assert_eq!(other_grid, grid);
    assert_eq!(other, state);
}
