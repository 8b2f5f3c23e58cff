use notes_service::json::{decode_note, decode_note_creator, encode_note, encode_note_list};
use notes_service::models::{NoteCreator, NoteSerializer};

fn note(id: i32, title: &str, text: &str) -> NoteSerializer {
    NoteSerializer { id, title: title.to_string(), text: text.to_string() }
}

#[test]
fn encoding_is_the_canonical_record_text() {
    let n = note(1, "a", "b");
    assert_eq!(encode_note(&n), "{\"id\":1,\"title\":\"a\",\"text\":\"b\"}");
}

#[test]
fn encoding_escapes_quotes_backslashes_and_control_characters() {
    let n = note(7, "say \"hi\"", "a\\b\nc\td\re");
    assert_eq!(
        encode_note(&n),
        "{\"id\":7,\"title\":\"say \\\"hi\\\"\",\"text\":\"a\\\\b\\nc\\td\\re\"}"
    );
}

#[test]
fn round_trip_plain_record() {
    let n = note(12, "title", "text");
    let decoded = decode_note(&encode_note(&n)).expect("canonical text must decode");
    assert_eq!(decoded.id, n.id);
    assert_eq!(decoded.title, n.title);
    assert_eq!(decoded.text, n.text);
}

#[test]
fn round_trip_with_escapes_and_unicode() {
    let n = note(-3, "q\"uo\\te", "line\nbreak\ttab\rret \u{e9}\u{4e16}");
    let decoded = decode_note(&encode_note(&n)).expect("canonical text must decode");
    assert_eq!(decoded.id, n.id);
    assert_eq!(decoded.title, n.title);
    assert_eq!(decoded.text, n.text);
}

#[test]
fn round_trip_empty_strings() {
    let n = note(0, "", "");
    let decoded = decode_note(&encode_note(&n)).expect("canonical text must decode");
    assert_eq!(decoded.id, 0);
    assert_eq!(decoded.title, "");
    assert_eq!(decoded.text, "");
}

#[test]
fn decode_rejects_malformed_records() {
    assert!(decode_note("").is_none());
    assert!(decode_note("{\"id\":1,\"title\":\"a\",\"text\":\"b\"").is_none());
    assert!(decode_note("{\"id\":,\"title\":\"a\",\"text\":\"b\"}").is_none());
    assert!(decode_note("{\"id\":1,\"title\":\"a\",\"text\":\"b\"}x").is_none());
    assert!(decode_note("{\"id\":1,\"titel\":\"a\",\"text\":\"b\"}").is_none());
    assert!(decode_note("{\"id\":1,\"title\":\"a\\q\",\"text\":\"b\"}").is_none());
    assert!(decode_note("{\"id\":99999999999,\"title\":\"a\",\"text\":\"b\"}").is_none());
}

#[test]
fn decode_creator_accepts_the_canonical_payload() {
    let c = decode_note_creator("{\"title\":\"a\",\"text\":\"b\"}").expect("well-formed");
    assert_eq!(c.title, "a");
    assert_eq!(c.text, "b");
}

#[test]
fn decode_creator_undoes_escapes() {
    let c = decode_note_creator("{\"title\":\"a\\\"b\\\\c\",\"text\":\"x\\ny\"}")
        .expect("well-formed");
    assert_eq!(c.title, "a\"b\\c");
    assert_eq!(c.text, "x\ny");
}

#[test]
fn decode_creator_accepts_whitespace_and_either_member_order() {
    let c = decode_note_creator("{\"title\": \"a\", \"text\": \"b\"}").expect("spaced");
    assert_eq!(c.title, "a");
    assert_eq!(c.text, "b");
    let c2 = decode_note_creator(" { \"text\" : \"b\" , \"title\" : \"a\" } ")
        .expect("reordered and spaced");
    assert_eq!(c2.title, "a");
    assert_eq!(c2.text, "b");
    let c3 = decode_note_creator("{\n  \"title\": \"a\",\n  \"text\": \"b\"\n}\n")
        .expect("pretty-printed");
    assert_eq!(c3.title, "a");
    assert_eq!(c3.text, "b");
}

#[test]
fn decode_creator_accepts_the_json_string_escapes() {
    let c = decode_note_creator("{\"title\":\"a\\/b\",\"text\":\"\\u0041\\u00e9\\u4E16\"}")
        .expect("escapes");
    assert_eq!(c.title, "a/b");
    assert_eq!(c.text, "A\u{e9}\u{4e16}");
    let c2 = decode_note_creator("{\"title\":\"x\\by\\fz\",\"text\":\"\\u0000\"}")
        .expect("control escapes");
    assert_eq!(c2.title, "x\u{8}y\u{c}z");
    assert_eq!(c2.text, "\u{0}");
}

#[test]
fn decode_creator_rejects_malformed_payloads() {
    assert!(decode_note_creator("").is_none());
    assert!(decode_note_creator("{\"title\":\"a\"}").is_none());
    assert!(decode_note_creator("{\"title\":\"a\",\"text\":\"b\"}x").is_none());
    assert!(decode_note_creator("{\"title\":1,\"text\":\"b\"}").is_none());
    assert!(decode_note_creator("{\"title\":\"a\",\"text\":\"b\",\"x\":\"y\"}").is_none());
    assert!(decode_note_creator("{\"title\":\"a\",\"body\":\"b\"}").is_none());
    assert!(decode_note_creator("{\"title\":\"a\",\"text\":\"\\ud800\"}").is_none());
    assert!(decode_note_creator("{\"title\":\"a\",\"text\":\"\\u12g4\"}").is_none());
    assert!(decode_note_creator("not json at all").is_none());
}

#[test]
fn decode_note_requires_the_canonical_id_token() {
    assert!(decode_note("{\"id\":+7,\"title\":\"a\",\"text\":\"b\"}").is_none());
    assert!(decode_note("{\"id\":007,\"title\":\"a\",\"text\":\"b\"}").is_none());
    let n = decode_note("{\"id\":0,\"title\":\"a\",\"text\":\"b\"}").expect("zero is canonical");
    assert_eq!(n.id, 0);
}

#[test]
fn control_characters_encode_as_json_escapes() {
    let n = note(5, "a\u{8}b\u{c}c", "x\u{1}y\u{1f}z");
    assert_eq!(
        encode_note(&n),
        "{\"id\":5,\"title\":\"a\\bb\\fc\",\"text\":\"x\\u0001y\\u001fz\"}"
    );
    let decoded = decode_note(&encode_note(&n)).expect("canonical text must decode");
    assert_eq!(decoded.title, n.title);
    assert_eq!(decoded.text, n.text);
}

#[test]
fn list_encoding_is_bracketed_and_comma_separated() {
    let empty: Vec<NoteSerializer> = Vec::new();
    assert_eq!(encode_note_list(&empty), "[]");
    let one = vec![note(1, "a", "b")];
    assert_eq!(encode_note_list(&one), "[{\"id\":1,\"title\":\"a\",\"text\":\"b\"}]");
    let two = vec![note(1, "a", "b"), note(2, "c", "d")];
    assert_eq!(
        encode_note_list(&two),
        "[{\"id\":1,\"title\":\"a\",\"text\":\"b\"},{\"id\":2,\"title\":\"c\",\"text\":\"d\"}]"
    );
}

#[test]
fn negative_ids_encode_with_a_sign() {
    let n = note(-42, "t", "x");
    assert_eq!(encode_note(&n), "{\"id\":-42,\"title\":\"t\",\"text\":\"x\"}");
}
