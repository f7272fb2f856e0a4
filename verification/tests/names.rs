use std::collections::HashSet;
use zhist::tui::filter::Rank;
use zhist::tui::listing::{rank_matches, toggle_selection, update_generic_filter, OverlayFiltered};
use zhist::tui::matching::{match_texts, TextMatch};
use zhist::tui::names::{position_of, sessions_to_vec, toggle_session, NameSet};

fn strings(names: &[&str]) -> Vec<String> {
    names.iter().map(|s| s.to_string()).collect()
}

fn order(items: &[OverlayFiltered]) -> Vec<usize> {
    items.iter().map(|o| o.idx).collect()
}

#[test]
fn a_set_holds_each_name_once() {
    let mut set = NameSet::new();
    assert!(set.is_empty());
    set.insert("a".to_string());
    set.insert("a".to_string());
    set.insert("b".to_string());
    assert_eq!(set.to_vec(), vec!["a", "b"]);
    set.remove(&"a".to_string());
    assert!(!set.contains(&"a".to_string()));
    assert_eq!(set.to_vec(), vec!["b"]);
}

#[test]
fn toggling_twice_changes_nothing() {
    let mut set = NameSet::new();
    set.toggle("a".to_string());
    assert!(set.contains(&"a".to_string()));
    set.toggle("a".to_string());
    assert!(set.is_empty());
    let mut sessions = HashSet::new();
    toggle_session(&mut sessions, 4);
    toggle_session(&mut sessions, 5);
    toggle_session(&mut sessions, 4);
    assert_eq!(sessions_to_vec(&sessions), vec![5]);
}

#[test]
fn positions_are_the_first() {
    let names = strings(&["x", "y", "x"]);
    assert_eq!(position_of(&names, &"x".to_string()), Some(0));
    assert_eq!(position_of(&names, &"z".to_string()), None);
}

#[test]
fn without_a_filter_chosen_names_come_first() {
    let names = strings(&["a", "b", "c", "d"]);
    let mut chosen = NameSet::new();
    chosen.insert("d".to_string());
    chosen.insert("b".to_string());
    assert_eq!(order(&update_generic_filter("  ", &names, &chosen)), vec![1, 3, 0, 2]);
}

#[test]
fn a_filter_lists_its_matches() {
    let names = strings(&["alpha", "beta", "gamma"]);
    let items = update_generic_filter(" 'ta ", &names, &NameSet::new());
    assert_eq!(order(&items), vec![1]);
    assert_eq!(items[0].match_indices, vec![2, 3]);
    assert!(update_generic_filter("zzz", &names, &NameSet::new()).is_empty());
}

#[test]
fn matches_are_ranked_and_ties_keep_their_order() {
    let m = |score: i32, begin: i32| {
        Some(TextMatch {
            indices: vec![],
            rank: Rank { score, begin, ..Rank::default() },
        })
    };
    let found = vec![m(1, 0), None, m(5, 2), m(5, 1), m(1, 0)];
    assert_eq!(order(&rank_matches(found)), vec![3, 2, 0, 4]);
}

#[test]
fn toggling_needs_an_item() {
    let names = strings(&["a"]);
    let items = vec![
        OverlayFiltered { idx: 0, match_indices: vec![] },
        OverlayFiltered { idx: 9, match_indices: vec![] },
    ];
    let mut set = NameSet::new();
    assert!(!toggle_selection(&items, 1, &names, &mut set));
    assert!(!toggle_selection(&items, 2, &names, &mut set));
    assert!(set.is_empty());
    assert!(toggle_selection(&items, 0, &names, &mut set));
    assert!(set.contains(&"a".to_string()));
}

#[test]
fn every_text_gets_an_answer() {
    let a = "git push".to_string();
    let b = "ls".to_string();
    let found = match_texts("gp", &vec![&a, &b]);
    assert_eq!(found.len(), 2);
    let first = found[0].as_ref().expect("a match");
    assert_eq!(first.indices.len(), 2);
    assert_eq!(first.indices[0], 0);
    assert_eq!(first.rank.length, 8);
    assert!(found[1].is_none());
}

#[test]
fn a_filter_looks_neither_at_choices_nor_at_blanks() {
    let names = strings(&["alpha", "beta", "delta"]);
    let mut chosen = NameSet::new();
    chosen.insert("delta".to_string());
    let plain = order(&update_generic_filter("'ta", &names, &NameSet::new()));
    assert_eq!(order(&update_generic_filter("'ta", &names, &chosen)), plain);
    assert_eq!(order(&update_generic_filter(" 'ta\t", &names, &chosen)), plain);
    assert_eq!(plain, vec![1, 2]);
}
