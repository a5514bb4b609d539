use tagged::tags::db::Database;
use tagged::tags::tag_relations::parse_tags;
use tagged::tags::types::{StoredFile, TagFilter};

fn filter(tokens: &[&str]) -> TagFilter {
    parse_tags(&tokens.iter().map(|s| s.to_string()).collect()).unwrap()
}

fn names(files: &Vec<StoredFile>) -> Vec<String> {
    files.iter().map(|f| f.name.clone()).collect()
}

/// Files one to five; tags a, b and d. one: a. two: a, d. three: d.
/// four: nothing. five: b.
fn store() -> Database {
    let mut db = Database::new();
    for (i, name) in ["one", "two", "three", "four", "five"].iter().enumerate() {
        db.add_file(name.to_string(), format!("/files/{}", name), i as u64).unwrap();
    }
    for tag in ["a", "b", "d"] {
        db.add_tag(tag.to_string()).unwrap();
    }
    for (tag, file) in [("a", "one"), ("a", "two"), ("d", "two"), ("d", "three"), ("b", "five")] {
        db.assign(tag.to_string(), file.to_string()).unwrap();
    }
    db
}

fn resolve(tokens: &[&str]) -> Vec<String> {
    names(&store().get_files(filter(tokens)).unwrap())
}

#[test]
fn the_empty_filter_matches_every_file_in_store_order() {
    let found = store().get_files(filter(&[])).unwrap();
    assert_eq!(names(&found), ["one", "two", "three", "four", "five"]);
    assert_eq!(found[1].path, "/files/two");
    assert_eq!(found[4].last_used, 4);
}

#[test]
fn the_empty_filter_matches_nothing_in_an_empty_store() {
    assert!(Database::new().get_files(filter(&[])).unwrap().is_empty());
    assert!(Database::new().get_files(filter(&["a"])).unwrap().is_empty());
}

#[test]
fn an_allowed_tag_matches_its_files_in_store_order() {
    assert_eq!(resolve(&["a"]), ["one", "two"]);
    assert_eq!(resolve(&["d"]), ["two", "three"]);
    assert_eq!(resolve(&["b", "a"]), ["one", "two", "five"]);
}

#[test]
fn a_file_tied_to_two_allowed_tags_comes_once() {
    assert_eq!(resolve(&["a", "d"]), ["one", "two", "three"]);
}

#[test]
fn an_unknown_tag_matches_nothing() {
    assert!(resolve(&["nope"]).is_empty());
}

#[test]
fn a_lone_denied_tag_leaves_out_its_files() {
    let found = resolve(&["=d"]);
    assert!(!found.contains(&"two".to_string()));
    assert!(!found.contains(&"three".to_string()));
}

#[test]
fn a_filter_that_allows_nothing_matches_nothing() {
    assert!(resolve(&["=d"]).is_empty());
    assert!(resolve(&["=nope"]).is_empty());
}

#[test]
fn a_tag_both_allowed_and_denied_is_denied() {
    assert!(resolve(&["b", "=b"]).is_empty());
    assert_eq!(resolve(&["a", "b", "=b"]), ["one", "two"]);
    assert_eq!(resolve(&["=a", "a", "d"]), ["two", "three"]);
}

#[test]
fn a_file_with_an_allowed_and_no_denied_tag_is_matched() {
    assert_eq!(resolve(&["a", "=b"]), ["one", "two"]);
    assert!(resolve(&["a", "=d"]).contains(&"one".to_string()));
}

#[test]
fn a_denied_tag_does_not_undo_another_allowed_tag_of_the_file() {
    assert_eq!(resolve(&["a", "=d"]), ["one", "two"]);
}

#[test]
fn children_do_not_narrow_the_match() {
    assert_eq!(resolve(&["a/x=y"]), ["one", "two"]);
    assert_eq!(resolve(&["a/x", "=d"]), resolve(&["a", "=d"]));
}

#[test]
fn a_filter_of_pairs_alone_is_not_empty() {
    let mut only_pairs = TagFilter::new();
    only_pairs.allowed_child_tags.push(("a".to_string(), "x".to_string()));
    assert!(store().get_files(only_pairs).unwrap().is_empty());
}

#[test]
fn resolving_twice_gives_the_same_files() {
    for tokens in [vec![], vec!["a"], vec!["a", "=d"], vec!["b", "d", "=a"], vec!["=d"]] {
        let db = store();
        let first = names(&store().get_files(filter(&tokens)).unwrap());
        let second = names(&db.get_files(filter(&tokens)).unwrap());
        assert_eq!(first, second);
    }
}

#[test]
fn resolving_against_the_matched_files_gives_them_back() {
    let found = store().get_files(filter(&["a", "d", "=b"])).unwrap();
    let mut narrowed = store();
    narrowed.files = found.clone();
    assert_eq!(names(&narrowed.get_files(filter(&["a", "d", "=b"])).unwrap()), names(&found));
}

#[test]
fn duplicate_connections_do_not_repeat_a_file() {
    let mut db = store();
    let again = db.connections[0].clone();
    db.connections.push(again);
    assert_eq!(names(&db.get_files(filter(&["a"])).unwrap()), ["one", "two"]);
}

#[test]
fn files_of_one_name_are_all_matched() {
    let mut db = store();
    db.add_file("one".to_string(), "/elsewhere/one".to_string(), 9).unwrap();
    let found = db.get_files(filter(&["a"])).unwrap();
    assert_eq!(names(&found), ["one", "two", "one"]);
    assert_eq!(found[2].path, "/elsewhere/one");
}

#[test]
fn a_query_for_a_file_needs_a_match() {
    let found = store().matching_files(filter(&["a"])).unwrap();
    assert_eq!(names(&found), ["one", "two"]);
    assert_eq!(store().matching_files(filter(&["nope"])).unwrap_err(), "no files match");
    assert_eq!(Database::new().matching_files(filter(&[])).unwrap_err(), "no files match");
    assert_eq!(store().matching_files(filter(&[])).unwrap().len(), 5);
}
