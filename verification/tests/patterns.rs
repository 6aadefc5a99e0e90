use markov_grid::{Pattern, Rule, RuleError, Symbol};

#[test]
fn pattern_text_with_rows() {
    let pattern = Pattern::from_text("BU/UB").unwrap();
    assert_eq!(pattern.width, 2);
    assert_eq!(pattern.height, 2);
    assert_eq!(
        pattern.grid,
        vec![
            Some(Symbol::Black),
            Some(Symbol::Blue),
            Some(Symbol::Blue),
            Some(Symbol::Black),
        ]
    );
    let wild = Pattern::from_text("U*/**").unwrap();
    assert_eq!(wild.grid, vec![Some(Symbol::Blue), None, None, None]);
    let tall = Pattern::from_text("R/G/B").unwrap();
    assert_eq!((tall.width, tall.height), (1, 3));
}

#[test]
fn pattern_text_of_one_row() {
    let pattern = Pattern::from_text("RBB").unwrap();
    assert_eq!((pattern.width, pattern.height), (3, 1));
    assert_eq!(pattern.grid, Symbol::from_string("RBB"));
    assert_eq!(pattern, Pattern::from_string(&Symbol::from_string("RBB")));
}

#[test]
fn empty_pattern_text_is_an_empty_row() {
    let pattern = Pattern::from_text("").unwrap();
    assert_eq!((pattern.width, pattern.height), (0, 1));
    assert!(pattern.grid.is_empty());
    assert!(pattern.well_formed());
}

#[test]
fn pattern_text_is_refused() {
    assert_eq!(Pattern::from_text("BXB"), None);
    assert_eq!(Pattern::from_text("BU/U"), None);
    assert_eq!(Pattern::from_text("B/UU"), None);
    assert_eq!(Pattern::from_text("BU/"), None);
    assert_eq!(Pattern::from_text("BU/UB/"), None);
    assert_eq!(Pattern::from_text("bu"), None);
    assert_eq!(Pattern::from_text("B U"), None);
}

#[test]
fn rule_from_strings() {
    let rule = Rule::from_strings("RBB", "GGR");
    assert_eq!(rule.find.grid, Symbol::from_string("RBB"));
    assert_eq!(rule.replace.grid, Symbol::from_string("GGR"));
    assert_eq!((rule.find.width, rule.find.height), (3, 1));
    assert_eq!((rule.replace.width, rule.replace.height), (3, 1));
    assert!(rule.well_formed());
    let square = Rule::from_strings("BU/UB", "U*/**");
    assert_eq!((square.find.width, square.find.height), (2, 2));
    assert_eq!(square.replace.grid, vec![Some(Symbol::Blue), None, None, None]);
}

#[test]
fn rule_texts_are_checked() {
    assert_eq!(
        Rule::try_from_strings("RBB", "GGR"),
        Ok(Rule::from_strings("RBB", "GGR"))
    );
    assert_eq!(Rule::try_from_strings("RxB", "GGR"), Err(RuleError::Format));
    assert_eq!(Rule::try_from_strings("RBB", "GG/R"), Err(RuleError::Format));
    assert_eq!(Rule::try_from_strings("RBB", "GG"), Err(RuleError::Shape));
    assert_eq!(Rule::try_from_strings("RB/BB", "GGRR"), Err(RuleError::Shape));
    assert_eq!(Rule::try_from_strings("R?", "G"), Err(RuleError::Format));
}

#[test]
fn rule_turns_both_patterns() {
    let rule = Rule::from_strings("RBB", "GGR");
    let turned = rule.rotate_cw();
    assert_eq!((turned.find.width, turned.find.height), (1, 3));
    assert_eq!((turned.replace.width, turned.replace.height), (1, 3));
    assert_eq!(turned.find, rule.find.rotate_cw());
    assert_eq!(turned.replace, rule.replace.rotate_cw());
    assert_eq!(turned.find.grid, Symbol::from_string("RBB"));
    let half = turned.rotate_cw();
    assert_eq!(half.find.grid, Symbol::from_string("BBR"));
    assert_eq!(half.replace.grid, Symbol::from_string("RGG"));
}

#[test]
fn make_rotations_gives_four_rules() {
    let rule = Rule::from_strings("BU/UB", "U*/**");
    let rotations = rule.clone().make_rotations();
    assert_eq!(rotations.len(), 4);
    assert_eq!(rotations[0], rule);
    assert_eq!(rotations[1], rule.rotate_cw());
    assert_eq!(rotations[2], rule.rotate_cw().rotate_cw());
    assert_eq!(rotations[3], rule.rotate_cw().rotate_cw().rotate_cw());
    assert_eq!(rotations[3].rotate_cw(), rule);
    for rotation in rotations.iter() {
        assert!(rotation.well_formed());
        assert_eq!(rotation.find.width, rotation.replace.width);
        assert_eq!(rotation.find.height, rotation.replace.height);
    }
    let long = Rule::from_strings("RBB", "GGR").make_rotations();
    let shapes: Vec<(usize, usize)> = long.iter().map(|r| (r.find.width, r.find.height)).collect();
    assert_eq!(shapes, vec![(3, 1), (1, 3), (3, 1), (1, 3)]);
    assert_eq!(long[1].replace.grid, Symbol::from_string("GGR"));
    assert_eq!(long[2].replace.grid, Symbol::from_string("RGG"));
}

#[test]
fn rule_shape_is_checked() {
    let mut rule = Rule::from_strings("RB", "GG");
    assert!(rule.well_formed());
    assert!(Rule::all_well_formed(&vec![rule.clone(), rule.clone()]));
    rule.replace = Pattern::from_text("G").unwrap();
    assert!(!rule.well_formed());
    assert!(!Rule::all_well_formed(&vec![
        Rule::from_strings("B", "W"),
        rule
    ]));
    assert!(Rule::all_well_formed(&vec![]));
}
