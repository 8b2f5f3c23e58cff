use notes_service::models::{NoteCreator, NoteSerializer};
use notes_service::router::{
    create_note, delete_note, edit_note, get_note_by_id, get_notes, parse_note_id, render_create,
    render_delete, render_get, render_list, render_update, unprocessable_reply, BodyKind, DbFault,
    HttpReply,
};
use notes_service::service::NoteStore;

fn fault() -> DbFault {
    DbFault { detail: "connection lost".to_string() }
}

fn assert_reply(r: &HttpReply, status: u16, kind: BodyKind, body: &str) {
    assert_eq!(r.status, status);
    assert_eq!(r.kind, kind);
    assert_eq!(r.body, body);
}

#[test]
fn post_create_returns_201_with_the_record() {
    let mut store = NoteStore::new();
    let r = create_note(&mut store, "{\"title\":\"a\",\"text\":\"b\"}");
    assert_reply(&r, 201, BodyKind::Json, "{\"id\":1,\"title\":\"a\",\"text\":\"b\"}");
    assert!(store.get_by_id(1).is_some());
}

#[test]
fn get_of_a_missing_note_returns_404_with_the_id_in_the_text() {
    let store = NoteStore::new();
    let r = get_note_by_id(&store, "999");
    assert_reply(&r, 404, BodyKind::Text, "No note found with ID: 999");
}

#[test]
fn get_with_a_non_integer_id_returns_422_with_a_json_detail() {
    let store = NoteStore::new();
    let r = get_note_by_id(&store, "abc");
    assert_reply(&r, 422, BodyKind::Json, "{\"detail\": \"invalid note id: abc\"}");
}

#[test]
fn delete_of_an_existing_note_returns_204_then_get_returns_404() {
    let mut store = NoteStore::new();
    let r1 = create_note(&mut store, "{\"title\":\"a\",\"text\":\"b\"}");
    assert_eq!(r1.status, 201);
    let r2 = delete_note(&mut store, "1");
    assert_reply(&r2, 204, BodyKind::Empty, "");
    let r3 = get_note_by_id(&store, "1");
    assert_reply(&r3, 404, BodyKind::Text, "No note found with ID: 1");
}

#[test]
fn get_of_an_existing_note_returns_200_with_the_record() {
    let mut store = NoteStore::new();
    create_note(&mut store, "{\"title\":\"a\",\"text\":\"b\"}");
    let r = get_note_by_id(&store, "1");
    assert_reply(&r, 200, BodyKind::Json, "{\"id\":1,\"title\":\"a\",\"text\":\"b\"}");
}

#[test]
fn put_updates_an_existing_note_and_keeps_its_id() {
    let mut store = NoteStore::new();
    create_note(&mut store, "{\"title\":\"a\",\"text\":\"b\"}");
    let r = edit_note(&mut store, "1", "{\"title\":\"c\",\"text\":\"d\"}");
    assert_reply(&r, 200, BodyKind::Json, "{\"id\":1,\"title\":\"c\",\"text\":\"d\"}");
}

#[test]
fn put_on_a_missing_note_returns_404_and_creates_nothing() {
    let mut store = NoteStore::new();
    let r = edit_note(&mut store, "5", "{\"title\":\"c\",\"text\":\"d\"}");
    assert_reply(&r, 404, BodyKind::Text, "No note found with ID: 5");
    assert_eq!(store.search().len(), 0);
}

#[test]
fn put_with_a_malformed_body_returns_422() {
    let mut store = NoteStore::new();
    create_note(&mut store, "{\"title\":\"a\",\"text\":\"b\"}");
    let r = edit_note(&mut store, "1", "{\"nope\":true}");
    assert_reply(&r, 422, BodyKind::Json, "{\"detail\": \"invalid note payload\"}");
}

#[test]
fn post_with_a_malformed_body_returns_422_and_stores_nothing() {
    let mut store = NoteStore::new();
    let r = create_note(&mut store, "{\"title\":1,\"text\":\"b\"}");
    assert_reply(&r, 422, BodyKind::Json, "{\"detail\": \"invalid note payload\"}");
    assert_eq!(store.search().len(), 0);
}

#[test]
fn delete_with_a_non_integer_id_returns_422() {
    let mut store = NoteStore::new();
    let r = delete_note(&mut store, "1x");
    assert_reply(&r, 422, BodyKind::Json, "{\"detail\": \"invalid note id: 1x\"}");
}

#[test]
fn list_returns_every_note_as_a_json_array() {
    let mut store = NoteStore::new();
    let r0 = get_notes(&store);
    assert_reply(&r0, 200, BodyKind::Json, "[]");
    create_note(&mut store, "{\"title\":\"a\",\"text\":\"b\"}");
    create_note(&mut store, "{\"title\":\"c\",\"text\":\"d\"}");
    let r = get_notes(&store);
    assert_reply(
        &r,
        200,
        BodyKind::Json,
        "[{\"id\":1,\"title\":\"a\",\"text\":\"b\"},{\"id\":2,\"title\":\"c\",\"text\":\"d\"}]",
    );
}

#[test]
fn store_failures_render_as_opaque_500() {
    let r1 = render_list(Err(fault()));
    assert_reply(&r1, 500, BodyKind::Text, "Internal Server Error");
    let r2 = render_get(1, Err(fault()));
    assert_reply(&r2, 500, BodyKind::Text, "Internal Server Error");
    let r3 = render_create(Err(fault()));
    assert_reply(&r3, 500, BodyKind::Text, "Internal Server Error");
    let r4 = render_update(1, Err(fault()));
    assert_reply(&r4, 500, BodyKind::Text, "Internal Server Error");
    let r5 = render_delete(1, Err(fault()));
    assert_reply(&r5, 500, BodyKind::Text, "Internal Server Error");
}

#[test]
fn delete_outcomes_render_by_affected_count() {
    let r0 = render_delete(9, Ok(0));
    assert_reply(&r0, 404, BodyKind::Text, "No note found with ID: 9");
    let r1 = render_delete(9, Ok(1));
    assert_reply(&r1, 204, BodyKind::Empty, "");
}

#[test]
fn render_get_carries_the_record_or_the_absence_text() {
    let n = NoteSerializer { id: 3, title: "t".to_string(), text: "x".to_string() };
    let r = render_get(3, Ok(Some(n)));
    assert_reply(&r, 200, BodyKind::Json, "{\"id\":3,\"title\":\"t\",\"text\":\"x\"}");
    let r2 = render_get(3, Ok(None));
    assert_reply(&r2, 404, BodyKind::Text, "No note found with ID: 3");
}

#[test]
fn render_create_reassembles_the_full_record() {
    let payload = NoteCreator { title: "t".to_string(), text: "x".to_string() };
    let full = notes_service::models::assemble_note(10, &payload);
    let r = render_create(Ok(full));
    assert_reply(&r, 201, BodyKind::Json, "{\"id\":10,\"title\":\"t\",\"text\":\"x\"}");
}

#[test]
fn parse_note_id_accepts_integers_and_names_bad_segments() {
    assert_eq!(parse_note_id("0").unwrap(), 0);
    assert_eq!(parse_note_id("123").unwrap(), 123);
    assert_eq!(parse_note_id("-5").unwrap(), -5);
    assert_eq!(parse_note_id("+7").unwrap(), 7);
    assert_eq!(parse_note_id("007").unwrap(), 7);
    assert_eq!(parse_note_id("2147483647").unwrap(), 2147483647);
    assert_eq!(parse_note_id("-2147483648").unwrap(), -2147483648);
    assert_eq!(parse_note_id("2147483648").unwrap_err(), "invalid note id: 2147483648");
    assert_eq!(parse_note_id("99999999999999999999").unwrap_err(),
        "invalid note id: 99999999999999999999");
    assert_eq!(parse_note_id("abc").unwrap_err(), "invalid note id: abc");
    assert_eq!(parse_note_id("").unwrap_err(), "invalid note id: ");
    assert_eq!(parse_note_id("1.5").unwrap_err(), "invalid note id: 1.5");
}

#[test]
fn post_accepts_json_whitespace_in_the_body() {
    let mut store = NoteStore::new();
    let r = create_note(&mut store, "{\"title\": \"a\", \"text\": \"b\"}");
    assert_reply(&r, 201, BodyKind::Json, "{\"id\":1,\"title\":\"a\",\"text\":\"b\"}");
}

#[test]
fn unprocessable_detail_escapes_control_characters() {
    let store = NoteStore::new();
    let r = get_note_by_id(&store, "a\u{1}b");
    assert_reply(&r, 422, BodyKind::Json, "{\"detail\": \"invalid note id: a\\u0001b\"}");
}

#[test]
fn unprocessable_detail_is_json_escaped() {
    let r = unprocessable_reply("bad \"id\" \\ here");
    assert_reply(
        &r,
        422,
        BodyKind::Json,
        "{\"detail\": \"bad \\\"id\\\" \\\\ here\"}",
    );
}
