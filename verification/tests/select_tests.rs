use demo_launcher::extract::{TargetDescriptor, TargetList};
use demo_launcher::select::{choose_step, menu_lines, select_all, SelectionOutcome};

fn fresh_list(names: &[&str]) -> TargetList {
    let slots = names
        .iter()
        .enumerate()
        .map(|(i, n)| {
            Some(TargetDescriptor {
                name: n.to_string(),
                ordinal: i,
                kinds: vec!["example".to_string()],
            })
        })
        .collect();
    TargetList { slots }
}

fn present_count(targets: &TargetList) -> usize {
    targets.slots.iter().filter(|s| s.is_some()).count()
}

#[test]
fn menu_offers_quit_then_indexed_names() {
    let targets = fresh_list(&["x", "z"]);
    let lines = menu_lines(&targets);
    assert_eq!(lines, vec!["q) Quit".to_string(), "1) x".to_string(), "2) z".to_string()]);
}

#[test]
fn an_empty_menu_offers_only_quit() {
    let targets = fresh_list(&[]);
    assert_eq!(menu_lines(&targets), vec!["q) Quit".to_string()]);
}

#[test]
fn menu_indices_reach_two_digits() {
    let names: Vec<String> = (1..=12).map(|i: usize| format!("t{}", i)).collect();
    let name_refs: Vec<&str> = names.iter().map(|s| s.as_str()).collect();
    let targets = fresh_list(&name_refs);
    let lines = menu_lines(&targets);
    assert_eq!(lines[10], "10) t10");
    assert_eq!(lines[12], "12) t12");
}

#[test]
fn menu_skips_consumed_slots_but_keeps_indices() {
    let mut targets = fresh_list(&["x", "z"]);
    let step = choose_step(&mut targets, "1");
    assert!(matches!(step, Some(SelectionOutcome::Chosen(_))));
    assert_eq!(menu_lines(&targets), vec!["q) Quit".to_string(), "2) z".to_string()]);
}

#[test]
fn entering_two_resolves_to_the_second_target() {
    let mut targets = fresh_list(&["x", "z"]);
    match choose_step(&mut targets, "2") {
        Some(SelectionOutcome::Chosen(name)) => assert_eq!(name, "z"),
        _ => panic!("expected the second target"),
    }
}

#[test]
fn a_choice_resolves_to_the_slot_at_index_minus_one() {
    let mut targets = fresh_list(&["a", "b", "c"]);
    match choose_step(&mut targets, "3") {
        Some(SelectionOutcome::Chosen(name)) => assert_eq!(name, "c"),
        _ => panic!("expected the third target"),
    }
    assert!(targets.slots[2].is_none());
    assert!(targets.slots[0].is_some());
    assert!(targets.slots[1].is_some());
}

#[test]
fn lowercase_quit_cancels() {
    let mut targets = fresh_list(&["x", "z"]);
    assert!(matches!(choose_step(&mut targets, "q"), Some(SelectionOutcome::Cancelled)));
    assert_eq!(present_count(&targets), 2);
}

#[test]
fn uppercase_quit_cancels() {
    let mut targets = fresh_list(&["x", "z"]);
    assert!(matches!(choose_step(&mut targets, "Q"), Some(SelectionOutcome::Cancelled)));
    assert_eq!(present_count(&targets), 2);
}

#[test]
fn padded_quit_cancels() {
    let mut targets = fresh_list(&["x"]);
    assert!(matches!(choose_step(&mut targets, "  q\n"), Some(SelectionOutcome::Cancelled)));
    assert_eq!(present_count(&targets), 1);
}

#[test]
fn a_choice_is_trimmed_before_parsing() {
    let mut targets = fresh_list(&["x", "z"]);
    match choose_step(&mut targets, " 1 \n") {
        Some(SelectionOutcome::Chosen(name)) => assert_eq!(name, "x"),
        _ => panic!("expected the first target"),
    }
}

#[test]
fn leading_zeros_still_name_an_index() {
    let mut targets = fresh_list(&["x", "z"]);
    match choose_step(&mut targets, "02") {
        Some(SelectionOutcome::Chosen(name)) => assert_eq!(name, "z"),
        _ => panic!("expected the second target"),
    }
}

#[test]
fn a_plus_sign_before_the_index_is_accepted() {
    let mut targets = fresh_list(&["x", "z"]);
    match choose_step(&mut targets, "+2") {
        Some(SelectionOutcome::Chosen(name)) => assert_eq!(name, "z"),
        _ => panic!("expected the second target"),
    }
}

#[test]
fn a_lone_plus_sign_re_prompts() {
    let mut targets = fresh_list(&["x"]);
    assert!(choose_step(&mut targets, "+").is_none());
    assert!(choose_step(&mut targets, "++1").is_none());
    assert_eq!(present_count(&targets), 1);
}

#[test]
fn unicode_whitespace_is_trimmed() {
    let mut targets = fresh_list(&["x", "z"]);
    assert!(matches!(
        choose_step(&mut targets, "\u{00A0}q\u{2028}"),
        Some(SelectionOutcome::Cancelled),
    ));
    match choose_step(&mut targets, "\u{3000}2\u{00A0}") {
        Some(SelectionOutcome::Chosen(name)) => assert_eq!(name, "z"),
        _ => panic!("expected the second target"),
    }
}

#[test]
fn non_numeric_input_re_prompts() {
    let mut targets = fresh_list(&["x", "z"]);
    assert!(choose_step(&mut targets, "abc").is_none());
    assert!(choose_step(&mut targets, "1x").is_none());
    assert!(choose_step(&mut targets, "x1").is_none());
    assert_eq!(present_count(&targets), 2);
}

#[test]
fn empty_input_re_prompts() {
    let mut targets = fresh_list(&["x"]);
    assert!(choose_step(&mut targets, "").is_none());
    assert!(choose_step(&mut targets, "   ").is_none());
    assert_eq!(present_count(&targets), 1);
}

#[test]
fn zero_re_prompts() {
    let mut targets = fresh_list(&["x", "z"]);
    assert!(choose_step(&mut targets, "0").is_none());
    assert_eq!(present_count(&targets), 2);
}

#[test]
fn an_out_of_range_index_re_prompts() {
    let mut targets = fresh_list(&["x", "z"]);
    assert!(choose_step(&mut targets, "3").is_none());
    assert_eq!(present_count(&targets), 2);
}

#[test]
fn a_huge_number_re_prompts() {
    let mut targets = fresh_list(&["x"]);
    assert!(choose_step(&mut targets, "18446744073709551616").is_none());
    assert_eq!(present_count(&targets), 1);
}

#[test]
fn a_consumed_slot_cannot_be_chosen_twice() {
    let mut targets = fresh_list(&["x", "z"]);
    assert!(matches!(choose_step(&mut targets, "1"), Some(SelectionOutcome::Chosen(_))));
    assert!(choose_step(&mut targets, "1").is_none());
    match choose_step(&mut targets, "2") {
        Some(SelectionOutcome::Chosen(name)) => assert_eq!(name, "z"),
        _ => panic!("the second slot should still be offered"),
    }
}

#[test]
fn quit_wins_in_any_casing_even_with_targets_left() {
    let mut targets = fresh_list(&["q"]);
    assert!(matches!(choose_step(&mut targets, "Q"), Some(SelectionOutcome::Cancelled)));
    assert_eq!(present_count(&targets), 1);
}

#[test]
fn select_all_yields_every_name_in_order() {
    let targets = fresh_list(&["a", "b", "c"]);
    assert_eq!(
        select_all(&targets),
        vec!["a".to_string(), "b".to_string(), "c".to_string()],
    );
}

#[test]
fn select_all_skips_consumed_slots() {
    let mut targets = fresh_list(&["a", "b", "c"]);
    assert!(matches!(choose_step(&mut targets, "2"), Some(SelectionOutcome::Chosen(_))));
    assert_eq!(select_all(&targets), vec!["a".to_string(), "c".to_string()]);
}

#[test]
fn select_all_of_nothing_is_empty() {
    let targets = fresh_list(&[]);
    assert!(select_all(&targets).is_empty());
}
