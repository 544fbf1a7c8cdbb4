use password_chef::items::case_modifier::CaseModifierIncrementer;
use password_chef::items::mask::{MaskCharType, MaskIncrementer};
use password_chef::items::optional_modifier::OptionalModifierIncrementer;
use password_chef::items::replace::ReplaceIncrementer;
use password_chef::items::wordlist::WordlistIncrementer;
use password_chef::recipe_step::{CaseModifierType, CaseModifiers};

fn chars(s: &str) -> Vec<char> {
    s.chars().collect()
}

fn s(v: &Vec<char>) -> String {
    v.iter().collect()
}

#[test]
fn replace_enumerates_every_occurrence_then_exhausts() {
    let segs = vec![chars("aba")];
    let mut inc = ReplaceIncrementer::new(0, vec![('a', '0')]);
    assert_eq!(s(&inc.output(&segs)[0]), "aba");
    assert!(inc.increment(&segs));
    assert_eq!(s(&inc.output(&segs)[0]), "0ba");
    assert!(inc.increment(&segs));
    assert_eq!(s(&inc.output(&segs)[0]), "ab0");
    assert!(!inc.increment(&segs));
    inc.reset();
    assert_eq!(s(&inc.output(&segs)[0]), "aba");
}

#[test]
fn replace_with_two_rules_takes_rules_in_order() {
    let segs = vec![chars("ab")];
    let mut inc = ReplaceIncrementer::new(0, vec![('a', '4'), ('b', '8')]);
    assert_eq!(s(&inc.output(&segs)[0]), "ab");
    assert!(inc.increment(&segs));
    assert_eq!(s(&inc.output(&segs)[0]), "4b");
    assert!(inc.increment(&segs));
    assert_eq!(s(&inc.output(&segs)[0]), "a8");
    assert!(!inc.increment(&segs));
}

#[test]
fn optional_emits_source_then_empty() {
    let segs = vec![chars("x")];
    let mut inc = OptionalModifierIncrementer::new(0);
    assert_eq!(s(&inc.output(&segs)[0]), "x");
    assert!(inc.increment(&segs));
    assert_eq!(s(&inc.output(&segs)[0]), "");
    assert!(!inc.increment(&segs));
    inc.reset();
    assert_eq!(s(&inc.output(&segs)[0]), "x");
}

#[test]
fn case_modifier_emits_selected_subset_in_order() {
    let segs = vec![chars("Ab")];
    let mods = CaseModifiers { titlecase: false, uppercase: true, lowercase: true, originalcase: false };
    let mut inc = CaseModifierIncrementer::new(0, mods);
    assert_eq!(s(&inc.output(&segs)[0]), "ab");
    assert!(inc.increment(&segs));
    assert_eq!(s(&inc.output(&segs)[0]), "AB");
    assert!(!inc.increment(&segs));
}

#[test]
fn case_modifier_titlecase_lowers_the_rest() {
    let segs = vec![chars("hELLO")];
    let mods = CaseModifiers { titlecase: true, uppercase: false, lowercase: false, originalcase: false };
    let inc = CaseModifierIncrementer::new(0, mods);
    assert_eq!(s(&inc.output(&segs)[0]), "Hello");
}

#[test]
fn includes_case_reads_the_matching_flag() {
    let mods = CaseModifiers { titlecase: true, uppercase: false, lowercase: true, originalcase: false };
    assert!(mods.includes_case(CaseModifierType::TitleCase));
    assert!(mods.includes_case(CaseModifierType::Lowercase));
    assert!(!mods.includes_case(CaseModifierType::Uppercase));
    assert!(!mods.includes_case(CaseModifierType::OriginalCase));
}

#[test]
fn mask_counts_rightmost_position_fastest() {
    let segs: Vec<Vec<char>> = Vec::new();
    let mut inc = MaskIncrementer::new("ld".to_string());
    assert_eq!(s(&inc.output(&segs)[0]), "a0");
    assert!(inc.increment(&segs));
    assert_eq!(s(&inc.output(&segs)[0]), "a1");
    for _ in 0..9 {
        assert!(inc.increment(&segs));
    }
    assert_eq!(s(&inc.output(&segs)[0]), "b0");
}

#[test]
fn mask_exhausts_after_product_of_class_sizes() {
    let segs: Vec<Vec<char>> = Vec::new();
    let mut inc = MaskIncrementer::new("dd".to_string());
    let mut count = 1u32;
    while inc.increment(&segs) {
        count += 1;
    }
    assert_eq!(count, 100);
    assert_eq!(s(&inc.output(&segs)[0]), "00");
}

#[test]
fn mask_type_from_letter_maps_the_letter_table() {
    assert!(matches!(MaskCharType::mask_type_from_letter(&b'l'), Some(MaskCharType::Lowercase)));
    assert!(matches!(MaskCharType::mask_type_from_letter(&b'd'), Some(MaskCharType::Digits)));
    assert!(matches!(MaskCharType::mask_type_from_letter(&b'H'), Some(MaskCharType::HexUpper)));
    assert!(MaskCharType::mask_type_from_letter(&b'z').is_none());
}

#[test]
fn wordlist_trims_and_plays_lines_in_order() {
    let segs: Vec<Vec<char>> = Vec::new();
    let mut inc = WordlistIncrementer::new(vec!["alpha\n".to_string(), "  beta ".to_string()]);
    assert_eq!(s(&inc.output(&segs)[0]), "alpha");
    assert!(inc.increment(&segs));
    assert_eq!(s(&inc.output(&segs)[0]), "beta");
    assert!(!inc.increment(&segs));
}
