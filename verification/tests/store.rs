use notes_service::models::NoteCreator;
use notes_service::service::NoteStore;

fn payload(title: &str, text: &str) -> NoteCreator {
    NoteCreator { title: title.to_string(), text: text.to_string() }
}

#[test]
fn created_note_is_found_by_its_id() {
    let mut store = NoteStore::new();
    let created = store.create(&payload("shopping", "milk and eggs"));
    let found = store.get_by_id(created.id).expect("the created note must be found");
    assert_eq!(found.id, created.id);
    assert_eq!(found.title, created.title);
    assert_eq!(found.text, created.text);
}

#[test]
fn absent_ids_report_absence_not_errors() {
    let mut store = NoteStore::new();
    assert!(store.get_by_id(42).is_none());
    assert!(store.update(42, &payload("t", "x")).is_none());
    assert_eq!(store.delete(42), 0);
}

#[test]
fn update_never_changes_the_id() {
    let mut store = NoteStore::new();
    let created = store.create(&payload("old title", "old text"));
    let updated = store.update(created.id, &payload("new title", "new text"))
        .expect("the note exists");
    assert_eq!(updated.id, created.id);
    assert_eq!(updated.title, "new title");
    assert_eq!(updated.text, "new text");
    let found = store.get_by_id(created.id).unwrap();
    assert_eq!(found.id, created.id);
    assert_eq!(found.title, "new title");
}

#[test]
fn update_leaves_other_notes_alone() {
    let mut store = NoteStore::new();
    let a = store.create(&payload("a", "1"));
    let b = store.create(&payload("b", "2"));
    store.update(a.id, &payload("a2", "12")).unwrap();
    let other = store.get_by_id(b.id).unwrap();
    assert_eq!(other.title, "b");
    assert_eq!(other.text, "2");
}

#[test]
fn delete_then_get_yields_absence() {
    let mut store = NoteStore::new();
    let created = store.create(&payload("gone soon", "bye"));
    assert_eq!(store.delete(created.id), 1);
    assert!(store.get_by_id(created.id).is_none());
    assert_eq!(store.delete(created.id), 0);
}

#[test]
fn listing_after_three_creates_returns_exactly_them() {
    let mut store = NoteStore::new();
    let a = store.create(&payload("a", "1"));
    let b = store.create(&payload("b", "2"));
    let c = store.create(&payload("c", "3"));
    let all = store.search();
    assert_eq!(all.len(), 3);
    let mut ids: Vec<i32> = all.iter().map(|n| n.id).collect();
    ids.sort();
    let mut expected = vec![a.id, b.id, c.id];
    expected.sort();
    assert_eq!(ids, expected);
    for n in &all {
        let (t, x) = if n.id == a.id {
            ("a", "1")
        } else if n.id == b.id {
            ("b", "2")
        } else {
            ("c", "3")
        };
        assert_eq!(n.title, t);
        assert_eq!(n.text, x);
    }
}

#[test]
fn ids_are_assigned_in_sequence_and_not_reused() {
    let mut store = NoteStore::new();
    let a = store.create(&payload("a", "1"));
    let b = store.create(&payload("b", "2"));
    assert_eq!(a.id, 1);
    assert_eq!(b.id, 2);
    store.delete(b.id);
    let c = store.create(&payload("c", "3"));
    assert_eq!(c.id, 3);
}
