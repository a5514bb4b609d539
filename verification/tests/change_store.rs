use tagged::tags::db::Database;
use tagged::tags::tag_relations::parse_tags;
use tagged::tags::types::{FileTagConnection, TagFilter};

fn filter(tokens: &[&str]) -> TagFilter {
    parse_tags(&tokens.iter().map(|s| s.to_string()).collect()).unwrap()
}

fn ties(db: &Database) -> Vec<(String, String)> {
    db.connections.iter().map(|c| (c.file_name.clone(), c.tag_name.clone())).collect()
}

fn expect(items: &[(&str, &str)]) -> Vec<(String, String)> {
    items.iter().map(|(f, t)| (f.to_string(), t.to_string())).collect()
}

fn store() -> Database {
    let mut db = Database::new();
    db.add_file("one".to_string(), "/f/one".to_string(), 0).unwrap();
    db.add_file("two".to_string(), "/f/two".to_string(), 0).unwrap();
    db.add_tag("a".to_string()).unwrap();
    db.add_tag("b".to_string()).unwrap();
    db.add_tag("c".to_string()).unwrap();
    db.assign("a".to_string(), "one".to_string()).unwrap();
    db.assign("b".to_string(), "one".to_string()).unwrap();
    db.assign("a".to_string(), "two".to_string()).unwrap();
    db
}

#[test]
fn a_new_store_holds_nothing() {
    let db = Database::new();
    assert!(db.files.is_empty());
    assert!(db.tags.is_empty());
    assert!(db.connections.is_empty());
    assert!(db.child_tags.is_empty());
}

#[test]
fn tags_and_files_are_added_behind_the_others() {
    let mut db = store();
    assert!(db.add_tag("z".to_string()).is_ok());
    assert!(db.add_file("three".to_string(), "/f/three".to_string(), 77).is_ok());
    let tags: Vec<String> = db.tags.iter().map(|t| t.name.clone()).collect();
    assert_eq!(tags, ["a", "b", "c", "z"]);
    assert!(db.tags[3].children.is_empty());
    assert_eq!(db.files.len(), 3);
    assert_eq!(db.files[2].name, "three");
    assert_eq!(db.files[2].path, "/f/three");
    assert_eq!(db.files[2].last_used, 77);
    assert_eq!(ties(&db), expect(&[("one", "a"), ("one", "b"), ("two", "a")]));
}

#[test]
fn the_listings_are_in_store_order() {
    let files: Vec<String> = store().list_files().unwrap().iter().map(|f| f.name.clone()).collect();
    assert_eq!(files, ["one", "two"]);
    let tags: Vec<String> = store().list_tags().unwrap().iter().map(|t| t.name.clone()).collect();
    assert_eq!(tags, ["a", "b", "c"]);
    let listed: Vec<FileTagConnection> = store().list_connections().unwrap();
    assert_eq!(listed.len(), 3);
    assert_eq!(listed[1].file_name, "one");
    assert_eq!(listed[1].tag_name, "b");
}

#[test]
fn assigning_twice_ties_once() {
    let mut db = store();
    db.assign("a".to_string(), "one".to_string()).unwrap();
    assert_eq!(ties(&db), expect(&[("one", "a"), ("one", "b"), ("two", "a")]));
    db.assign("c".to_string(), "one".to_string()).unwrap();
    assert_eq!(ties(&db), expect(&[("one", "a"), ("one", "b"), ("two", "a"), ("one", "c")]));
}

#[test]
fn unassigning_removes_the_tie_and_no_other() {
    let mut db = store();
    db.unassign("a".to_string(), "one".to_string()).unwrap();
    assert_eq!(ties(&db), expect(&[("one", "b"), ("two", "a")]));
    db.unassign("c".to_string(), "one".to_string()).unwrap();
    assert_eq!(ties(&db), expect(&[("one", "b"), ("two", "a")]));
}

#[test]
fn unassigning_removes_every_copy_of_the_tie() {
    let mut db = store();
    db.connections.push(FileTagConnection { file_name: "one".to_string(), tag_name: "a".to_string() });
    db.unassign("a".to_string(), "one".to_string()).unwrap();
    assert_eq!(ties(&db), expect(&[("one", "b"), ("two", "a")]));
}

#[test]
fn setting_tags_ties_allowed_and_unties_denied() {
    let mut db = store();
    assert!(db.set_tags("two".to_string(), filter(&["b", "c", "=a"])).is_ok());
    assert_eq!(ties(&db), expect(&[("one", "a"), ("one", "b"), ("two", "b"), ("two", "c")]));
}

#[test]
fn setting_tags_passes_over_unknown_tags() {
    let mut db = store();
    let wanted = filter(&["nope", "c", "other"]);
    assert_eq!(db.unknown_tags(&wanted), ["nope", "other"]);
    db.set_tags("one".to_string(), wanted).unwrap();
    assert_eq!(ties(&db), expect(&[("one", "a"), ("one", "b"), ("two", "a"), ("one", "c")]));
}

#[test]
fn setting_tags_does_not_tie_twice() {
    let mut db = store();
    db.set_tags("one".to_string(), filter(&["a", "c", "c"])).unwrap();
    assert_eq!(ties(&db), expect(&[("one", "a"), ("one", "b"), ("two", "a"), ("one", "c")]));
}

#[test]
fn setting_a_tag_both_allowed_and_denied_unties_it() {
    let mut db = store();
    db.set_tags("two".to_string(), filter(&["c", "=c", "a", "=a"])).unwrap();
    assert_eq!(ties(&db), expect(&[("one", "a"), ("one", "b")]));
}

#[test]
fn setting_tags_with_the_empty_filter_changes_nothing() {
    let mut db = store();
    db.set_tags("one".to_string(), filter(&[])).unwrap();
    assert_eq!(ties(&db), expect(&[("one", "a"), ("one", "b"), ("two", "a")]));
    assert_eq!(db.files.len(), 2);
    assert_eq!(db.tags.len(), 3);
}

#[test]
fn setting_tags_ignores_children() {
    let mut db = store();
    db.set_tags("two".to_string(), filter(&["c/x=y"])).unwrap();
    assert_eq!(ties(&db), expect(&[("one", "a"), ("one", "b"), ("two", "a"), ("two", "c")]));
}

#[test]
fn every_known_tag_is_known() {
    let db = store();
    assert!(db.unknown_tags(&filter(&["a", "b", "=zzz"])).is_empty());
    assert_eq!(Database::new().unknown_tags(&filter(&["a", "a"])), ["a", "a"]);
}

#[test]
fn deleting_a_tag_removes_its_connections() {
    let mut db = store();
    assert!(db.delete_tag("a".to_string()).is_ok());
    let tags: Vec<String> = db.tags.iter().map(|t| t.name.clone()).collect();
    assert_eq!(tags, ["b", "c"]);
    assert_eq!(ties(&db), expect(&[("one", "b")]));
    assert_eq!(db.files.len(), 2);
}

#[test]
fn deleting_an_unknown_tag_is_reported() {
    let mut db = store();
    let res = db.delete_tag("nope".to_string());
    assert_eq!(res.unwrap_err(), "Couldnt find tag with name: nope");
    assert_eq!(db.tags.len(), 3);
    assert_eq!(ties(&db), expect(&[("one", "a"), ("one", "b"), ("two", "a")]));
}

#[test]
fn deleting_a_tag_takes_the_first_of_its_name() {
    let mut db = store();
    db.add_tag("a".to_string()).unwrap();
    db.delete_tag("a".to_string()).unwrap();
    let tags: Vec<String> = db.tags.iter().map(|t| t.name.clone()).collect();
    assert_eq!(tags, ["b", "c", "a"]);
}

#[test]
fn deleting_a_file_removes_its_connections() {
    let mut db = store();
    assert!(db.delete_file("one".to_string()).is_ok());
    let files: Vec<String> = db.files.iter().map(|f| f.name.clone()).collect();
    assert_eq!(files, ["two"]);
    assert_eq!(ties(&db), expect(&[("two", "a")]));
    assert_eq!(db.tags.len(), 3);
}

#[test]
fn deleting_an_unknown_file_is_reported() {
    let mut db = store();
    let res = db.delete_file("nope".to_string());
    assert_eq!(res.unwrap_err(), "Couldnt find file with name: nope");
    assert_eq!(db.files.len(), 2);
    assert_eq!(ties(&db), expect(&[("one", "a"), ("one", "b"), ("two", "a")]));
}

#[test]
fn a_deleted_tag_matches_nothing() {
    let mut db = store();
    db.delete_tag("a".to_string()).unwrap();
    assert!(db.get_files(filter(&["a"])).unwrap().is_empty());
}

#[test]
fn clones_keep_every_field() {
    let db = store();
    let file = db.files[1].clone();
    assert_eq!(file.name, "two");
    assert_eq!(file.path, "/f/two");
    assert_eq!(file.last_used, 0);
    let tie = db.connections[1].clone();
    assert_eq!((tie.file_name.as_str(), tie.tag_name.as_str()), ("one", "b"));
}

#[test]
fn a_file_is_shown_by_its_name() {
    let db = store();
    assert_eq!(db.files[0].to_string(), "one");
    assert_eq!(db.files[1].to_string(), "two");
}
