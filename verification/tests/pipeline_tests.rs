use password_chef::candidate_generator::{BuildError, CandidateGenerator};
use password_chef::recipe_step::{CaseModifiers, CommonAttributes, GeneratorModifiers, RecipeStep};

fn attr() -> CommonAttributes {
    CommonAttributes::default()
}

fn attr_id(id: &str) -> CommonAttributes {
    CommonAttributes { id: Some(id.to_string()), classes: Vec::new() }
}

fn mods() -> GeneratorModifiers {
    GeneratorModifiers::default()
}

fn constant(value: &str) -> RecipeStep {
    RecipeStep::Constant { value: value.to_string(), attr: attr(), modifiers: mods() }
}

fn run(recipe: Vec<RecipeStep>, wordlists: Vec<Vec<String>>) -> Vec<String> {
    let mut g = match CandidateGenerator::from_recipe(recipe, wordlists) {
        Ok(g) => g,
        Err(_) => panic!("recipe should build"),
    };
    g.generate_all()
}

#[test]
fn cardinality_is_the_product_of_the_steps() {
    let recipe = vec![
        constant("x"),
        RecipeStep::Mask { mask: "dd".to_string(), attr: attr(), modifiers: mods() },
        RecipeStep::Wordlist { filename: "w".to_string(), attr: attr(), modifiers: mods() },
    ];
    let words = vec![vec!["aa".to_string(), "bb".to_string(), "cc".to_string()]];
    let lines = run(recipe, words);
    assert_eq!(lines.len(), 1 * 100 * 3);
}

#[test]
fn last_variable_step_varies_fastest() {
    let recipe = vec![
        RecipeStep::Mask { mask: "dd".to_string(), attr: attr(), modifiers: mods() },
        constant("x"),
    ];
    let lines = run(recipe, Vec::new());
    assert_eq!(lines.len(), 100);
    assert_eq!(lines[0], "00x");
    assert_eq!(lines[1], "01x");
    assert_eq!(lines[10], "10x");
    assert_eq!(lines[99], "99x");
}

#[test]
fn case_modifier_replaces_the_unmodified_value() {
    let m = GeneratorModifiers {
        case: CaseModifiers { titlecase: false, uppercase: true, lowercase: true, originalcase: false },
        optional: false,
        hidden: false,
    };
    let recipe = vec![RecipeStep::Constant { value: "Ab".to_string(), attr: attr(), modifiers: m }];
    let lines = run(recipe, Vec::new());
    assert_eq!(lines, vec!["ab".to_string(), "AB".to_string()]);
}

#[test]
fn optional_step_emits_value_then_empty() {
    let m = GeneratorModifiers { case: CaseModifiers::default(), optional: true, hidden: false };
    let recipe = vec![RecipeStep::Constant { value: "x".to_string(), attr: attr(), modifiers: m }];
    let lines = run(recipe, Vec::new());
    assert_eq!(lines, vec!["x".to_string(), "".to_string()]);
}

#[test]
fn rearrange_emits_all_permutations_in_order() {
    let recipe = vec![
        constant("a"),
        constant("b"),
        constant("c"),
        RecipeStep::Rearrange {
            target_list: vec!["#1".to_string(), "#2".to_string(), "#3".to_string()],
        },
    ];
    let lines = run(recipe, Vec::new());
    assert_eq!(
        lines,
        vec!["abc", "acb", "bac", "bca", "cab", "cba"]
            .into_iter()
            .map(|x| x.to_string())
            .collect::<Vec<String>>()
    );
}

#[test]
fn duplicate_after_modifier_copies_the_modified_value() {
    let m = GeneratorModifiers {
        case: CaseModifiers { titlecase: false, uppercase: true, lowercase: false, originalcase: false },
        optional: false,
        hidden: false,
    };
    let recipe = vec![
        RecipeStep::Constant { value: "Ab".to_string(), attr: attr_id("#x"), modifiers: m },
        RecipeStep::Duplicate { target_id: "#x".to_string(), attr: attr(), modifiers: mods() },
    ];
    let lines = run(recipe, Vec::new());
    assert_eq!(lines, vec!["ABAB".to_string()]);
}

#[test]
fn concat_joins_its_sources() {
    let recipe = vec![
        constant("ab"),
        constant("cd"),
        RecipeStep::Concat {
            target_list: vec!["#1".to_string(), "#2".to_string()],
            attr: attr(),
            modifiers: mods(),
        },
    ];
    let lines = run(recipe, Vec::new());
    assert_eq!(lines, vec!["abcdabcd".to_string()]);
}

#[test]
fn character_replace_in_a_pipeline_walks_each_substitution() {
    let recipe = vec![
        constant("aba"),
        RecipeStep::ReplaceChar {
            target_id: "#1".to_string(),
            replacements: vec![('a', '0')],
            attr: attr(),
            modifiers: mods(),
        },
    ];
    let mut g = CandidateGenerator::from_recipe(recipe, Vec::new()).ok().unwrap();
    let mut lines: Vec<String> = Vec::new();
    loop {
        let (line, more) = g.next_candidate();
        lines.push(line);
        if !more {
            break;
        }
    }
    assert_eq!(
        lines,
        vec!["abaaba".to_string(), "aba0ba".to_string(), "abaab0".to_string()]
    );
}

#[test]
fn duplicate_of_unknown_id_is_fatal() {
    let recipe = vec![RecipeStep::Duplicate {
        target_id: "#nope".to_string(),
        attr: attr(),
        modifiers: mods(),
    }];
    let r = CandidateGenerator::from_recipe(recipe, Vec::new());
    assert!(matches!(r, Err(BuildError::UnknownId)));
}

#[test]
fn second_binding_of_an_id_is_fatal() {
    let recipe = vec![
        RecipeStep::Constant { value: "a".to_string(), attr: attr_id("#x"), modifiers: mods() },
        RecipeStep::Constant { value: "b".to_string(), attr: attr_id("#x"), modifiers: mods() },
    ];
    let r = CandidateGenerator::from_recipe(recipe, Vec::new());
    assert!(matches!(r, Err(BuildError::DuplicateId)));
}

#[test]
fn unknown_class_is_fatal() {
    let recipe = vec![
        constant("a"),
        RecipeStep::Rearrange { target_list: vec![".nope".to_string()] },
    ];
    let r = CandidateGenerator::from_recipe(recipe, Vec::new());
    assert!(matches!(r, Err(BuildError::UnknownClass)));
}

#[test]
fn invalid_mask_letter_is_fatal() {
    let recipe = vec![RecipeStep::Mask { mask: "dz".to_string(), attr: attr(), modifiers: mods() }];
    let r = CandidateGenerator::from_recipe(recipe, Vec::new());
    assert!(matches!(r, Err(BuildError::InvalidMaskChar)));
}

#[test]
fn classes_expand_in_registration_order() {
    let c = |v: &str| RecipeStep::Constant {
        value: v.to_string(),
        attr: CommonAttributes { id: None, classes: vec![".g".to_string()] },
        modifiers: mods(),
    };
    let recipe = vec![
        c("x"),
        c("y"),
        RecipeStep::Rearrange { target_list: vec![".g".to_string()] },
    ];
    let lines = run(recipe, Vec::new());
    assert_eq!(lines, vec!["xy".to_string(), "yx".to_string()]);
}

#[test]
fn wordlist_lines_are_trimmed_and_combined() {
    let recipe = vec![
        RecipeStep::Wordlist { filename: "w".to_string(), attr: attr(), modifiers: mods() },
        RecipeStep::Mask { mask: "d".to_string(), attr: attr(), modifiers: mods() },
    ];
    let words = vec![vec!["one \n".to_string(), "two".to_string()]];
    let lines = run(recipe, words);
    assert_eq!(lines.len(), 20);
    assert_eq!(lines[0], "one0");
    assert_eq!(lines[9], "one9");
    assert_eq!(lines[10], "two0");
}
