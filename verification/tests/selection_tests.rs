use muote::authors::{Author, AuthorsConfig};
use muote::selection::{
    any_quote_fits, author_for_weight, named_authors, needs_refetch, pick_fitting_quote,
    remove_quote, take_quote_at, total_weight_of, weighted_author, WeightError,
};

fn author(name: &str, weight: u32) -> Author {
    Author { name: name.to_string(), weight }
}

fn pool(items: &[&str]) -> Vec<String> {
    items.iter().map(|s| s.to_string()).collect()
}

#[test]
fn default_authors_are_marx_engels_lenin() {
    let config = AuthorsConfig::default();
    let names: Vec<&str> = config.authors.iter().map(|a| a.name.as_str()).collect();
    let weights: Vec<u32> = config.authors.iter().map(|a| a.weight).collect();
    assert_eq!(names, vec!["Karl Marx", "Friedrich Engels", "Vladimir Lenin"]);
    assert_eq!(weights, vec![3, 2, 2]);
    assert!(config.show_weight_note);
}

#[test]
fn add_then_remove_author_restores_list() {
    let mut config = AuthorsConfig::default();
    config.add_author();
    assert_eq!(config.authors.len(), 4);
    assert_eq!(config.authors[3].name, "New Author");
    assert_eq!(config.authors[3].weight, 1);
    config.remove_author(3);
    assert_eq!(config.authors.len(), 3);
    assert_eq!(config.authors[2].name, "Vladimir Lenin");
}

#[test]
fn edits_past_the_end_change_nothing() {
    let mut config = AuthorsConfig::default();
    config.set_author_name(7, "Rosa Luxemburg".to_string());
    config.set_author_weight(7, 9);
    config.remove_author(7);
    assert_eq!(config.authors.len(), 3);
    assert_eq!(config.authors[0].name, "Karl Marx");
    assert_eq!(config.authors[0].weight, 3);
}

#[test]
fn set_name_and_weight_keep_the_other_field() {
    let mut config = AuthorsConfig::default();
    config.set_author_name(1, "Rosa Luxemburg".to_string());
    config.set_author_weight(2, 5);
    assert_eq!(config.authors[1].name, "Rosa Luxemburg");
    assert_eq!(config.authors[1].weight, 2);
    assert_eq!(config.authors[2].name, "Vladimir Lenin");
    assert_eq!(config.authors[2].weight, 5);
    config.dismiss_weight_note();
    assert!(!config.show_weight_note);
    assert_eq!(config.authors.len(), 3);
}

#[test]
fn blank_names_are_skipped() {
    let authors = vec![author("Marx", 3), author("   ", 2), author("", 1), author(" Lenin ", 2)];
    let named = named_authors(authors);
    assert_eq!(named.len(), 2);
    assert_eq!(named[0].name, "Marx");
    assert_eq!(named[1].name, " Lenin ");
    assert_eq!(named[1].weight, 2);
}

#[test]
fn weight_line_picks_by_stretch() {
    let authors = vec![author("A", 3), author("B", 0), author("C", 2)];
    assert_eq!(total_weight_of(&authors), 5);
    assert_eq!(author_for_weight(&authors, 0), Some(0));
    assert_eq!(author_for_weight(&authors, 2), Some(0));
    assert_eq!(author_for_weight(&authors, 3), Some(2));
    assert_eq!(author_for_weight(&authors, 4), Some(2));
    assert_eq!(author_for_weight(&authors, 5), None);
}

#[test]
fn zero_total_weight_is_an_error() {
    let authors = vec![author("A", 0), author("B", 0)];
    assert_eq!(weighted_author(&authors), Err(WeightError::ZeroTotalWeight));
    let none: Vec<Author> = Vec::new();
    assert_eq!(weighted_author(&none), Err(WeightError::ZeroTotalWeight));
}

#[test]
fn only_weighted_author_is_drawn() {
    let authors = vec![author("A", 0), author("B", 4), author("C", 0)];
    for _ in 0..50 {
        assert_eq!(weighted_author(&authors), Ok("B"));
    }
}

#[test]
fn take_quote_removes_it_either_way() {
    let mut p = pool(&["short", "a much longer quote"]);
    assert_eq!(take_quote_at(&mut p, 1, 5), None);
    assert_eq!(p, pool(&["short"]));
    assert_eq!(take_quote_at(&mut p, 0, 5), Some("short".to_string()));
    assert!(p.is_empty());
}

#[test]
fn no_fitting_quote_empties_pool() {
    let mut p = pool(&["too long one", "also too long"]);
    assert_eq!(pick_fitting_quote(&mut p, 3), None);
    assert!(p.is_empty());
    let mut empty: Vec<String> = Vec::new();
    assert_eq!(pick_fitting_quote(&mut empty, 100), None);
}

#[test]
fn single_fitting_quote_is_found() {
    let mut p = pool(&["fits"]);
    assert_eq!(pick_fitting_quote(&mut p, 10), Some("fits".to_string()));
    assert!(p.is_empty());
    let mut q = pool(&["way too long quote", "ok", "another long quote"]);
    assert_eq!(pick_fitting_quote(&mut q, 2), Some("ok".to_string()));
    assert!(!q.contains(&"ok".to_string()));
}

#[test]
fn counts_characters_not_bytes() {
    let quotes = pool(&["Ленин"]);
    assert!(any_quote_fits(&quotes, 5));
    assert!(!any_quote_fits(&quotes, 4));
    assert!(!any_quote_fits(&Vec::new(), 10));
}

#[test]
fn refetch_on_layout_change_or_empty_pool() {
    assert!(!needs_refetch("abc", "abc", 3));
    assert!(needs_refetch("abc", "abd", 3));
    assert!(needs_refetch("abc", "abc", 0));
}

#[test]
fn remove_quote_drops_every_copy() {
    let mut p = pool(&["a", "b", "a", "c"]);
    remove_quote(&mut p, "a");
    assert_eq!(p, pool(&["b", "c"]));
    remove_quote(&mut p, "z");
    assert_eq!(p, pool(&["b", "c"]));
}

#[test]
fn remaining_quotes_keep_their_order() {
    for _ in 0..20 {
        let mut p = pool(&["aaaa", "bbbb", "ok", "cccc", "dddd"]);
        assert_eq!(pick_fitting_quote(&mut p, 2), Some("ok".to_string()));
        let order = ["aaaa", "bbbb", "cccc", "dddd"];
        let mut last = 0;
        for q in &p {
            let at = order.iter().position(|o| o == q).unwrap();
            assert!(at >= last);
            last = at;
        }
    }
}
