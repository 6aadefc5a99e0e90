use markov_grid::{Grid, Point, Rule, Step, Symbol};
use rand::rngs::SmallRng;
use rand::SeedableRng;

fn make_rng() -> SmallRng {
    SmallRng::seed_from_u64(2)
}

#[test]
fn rotate_cw() {
    let grid = Grid::new(16, 4);
    let cw = grid.rotate_cw();
    let turn = cw.rotate_cw();
    let ccw = turn.rotate_cw();
    let full = ccw.rotate_cw();
    assert_eq!(full, grid);
}

#[test]
fn maze_backtracker() {
    let mut rng = make_rng();
    let mut grid = Grid::new(16, 16);
    grid.grid[50] = Symbol::Red;

    let rule_one = Rule::from_strings("RBB", "GGR");
    let step_one = Step {
        rules: rule_one.make_rotations(),
    };

    let rule_two = Rule::from_strings("RGG", "WWR");
    let step_two = Step {
        rules: rule_two.make_rotations(),
    };

    let mut matched = true;
    while matched {
        matched = false;

        while grid.run_step(&mut rng, &step_one) {
            matched = true;
        }

        if grid.run_step(&mut rng, &step_two) {
            matched = true;
        }
    }

    println!("{}", grid.to_text());

    for rule in step_one.rules.iter() {
        assert!(grid.find_matches(&rule.find).is_empty());
    }
    for rule in step_two.rules.iter() {
        assert!(grid.find_matches(&rule.find).is_empty());
    }
    assert_eq!(grid.grid.iter().filter(|s| **s == Symbol::Red).count(), 1);
    assert!(grid.test_match(&Rule::from_strings("R", "R").find, Point { x: 2, y: 3 }));
}
