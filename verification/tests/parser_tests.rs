use password_chef::candidate_generator::CandidateGenerator;
use password_chef::recipe_parser::{RecipeParseError, RecipeParser};
use password_chef::recipe_step::RecipeStep;

#[test]
fn parse_reads_keywords_payloads_and_attributes() {
    let text = "c#base.all+ul? hello\nm dd".to_string();
    let recipe = RecipeParser::parse(text).ok().unwrap();
    assert_eq!(recipe.len(), 2);
    match &recipe[0] {
        RecipeStep::Constant { value, attr, modifiers } => {
            assert_eq!(value, "hello");
            assert_eq!(attr.id.as_deref(), Some("#base"));
            assert_eq!(attr.classes, vec![".all".to_string()]);
            assert!(modifiers.case.uppercase);
            assert!(modifiers.case.lowercase);
            assert!(!modifiers.case.originalcase);
            assert!(!modifiers.case.titlecase);
            assert!(modifiers.optional);
        }
        _ => panic!("first step should be a constant"),
    }
    match &recipe[1] {
        RecipeStep::Mask { mask, .. } => assert_eq!(mask, "dd"),
        _ => panic!("second step should be a mask"),
    }
}

#[test]
fn parse_splits_on_commas_and_skips_blanks() {
    let text = "c a, c b\n\n , c c".to_string();
    let recipe = RecipeParser::parse(text).ok().unwrap();
    assert_eq!(recipe.len(), 3);
}

#[test]
fn parse_rejects_an_unknown_keyword() {
    let r = RecipeParser::parse("frobnicate xyz".to_string());
    assert!(matches!(r, Err(RecipeParseError::UnknownStepType)));
}

#[test]
fn parse_rejects_a_malformed_replacement_pair() {
    let r = RecipeParser::parse("rep #1 a".to_string());
    assert!(matches!(r, Err(RecipeParseError::MalformedReplacementPair)));
    let r2 = RecipeParser::parse("rep".to_string());
    assert!(matches!(r2, Err(RecipeParseError::MalformedReplacementPair)));
}

#[test]
fn parsed_recipe_runs_end_to_end() {
    let text = "m dd\nc x".to_string();
    let recipe = RecipeParser::parse(text).ok().unwrap();
    let mut g = CandidateGenerator::from_recipe(recipe, Vec::new()).ok().unwrap();
    let lines = g.generate_all();
    assert_eq!(lines.len(), 100);
    assert_eq!(lines[0], "00x");
    assert_eq!(lines[99], "99x");
}

#[test]
fn parsed_rearrange_step_lists_its_targets() {
    let recipe = RecipeParser::parse("r #1 .grp".to_string()).ok().unwrap();
    match &recipe[0] {
        RecipeStep::Rearrange { target_list } => {
            assert_eq!(target_list, &vec!["#1".to_string(), ".grp".to_string()]);
        }
        _ => panic!("should be a rearrange step"),
    }
}

#[test]
fn space_step_is_a_one_space_constant() {
    let recipe = RecipeParser::parse("sp".to_string()).ok().unwrap();
    match &recipe[0] {
        RecipeStep::Constant { value, .. } => assert_eq!(value, " "),
        _ => panic!("should be a constant"),
    }
}
