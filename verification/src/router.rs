//! Request handling: parsing path and body parameters, and translating
//! data-access outcomes into HTTP replies. Each endpoint follows one
//! contract: a parameter parse failure ends in 422 with a JSON detail
//! body; an absent note in 404 with a plain-text message; a store
//! failure in an opaque 500; success in 200, 201 or 204 with the JSON
//! record, array or an empty body.

use vstd::prelude::*;
use vstd::string::StringExecFns;

use crate::json::{enc_note, enc_note_list, spec_dec_creator};
use crate::models::{NoteSerializer, NoteView};
use crate::service::{find_note, has_id, views_of, NoteStore};
use crate::text::{int_chars, spec_parse_i32};

verus! {

/// The body kind of a reply.
#[derive(Clone, Copy, PartialEq, Eq, Structural, Debug)]
pub enum BodyKind {
    Json,
    Text,
    Empty,
}

/// An HTTP reply: status code, body kind and body text.
pub struct HttpReply {
    pub status: u16,
    pub kind: BodyKind,
    pub body: String,
}

/// An opaque store or pool failure: its detail is logged server-side
/// only and never leaks into a reply body.
pub struct DbFault {
    pub detail: String,
}

/// The plain-text body reporting an absent note.
pub open spec fn not_found_text(id: int) -> Seq<char> {
    "No note found with ID: "@ + int_chars(id)
}

/// The generic body of an internal error reply.
pub open spec fn internal_error_text() -> Seq<char> {
    "Internal Server Error"@
}

/// The JSON error body of an unprocessable request, with the parse-error
/// text escaped.
pub open spec fn detail_body(detail: Seq<char>) -> Seq<char> {
    "{\"detail\": \""@ + crate::json::esc(detail) + "\"}"@
}

/// The parse-error text for a path id segment, naming the segment.
pub open spec fn id_error_text(raw: Seq<char>) -> Seq<char> {
    "invalid note id: "@ + raw
}

/// The parse-error text for a creation payload.
pub open spec fn payload_error_text() -> Seq<char> {
    "invalid note payload"@
}

/// The 404 reply for an absent note id.
fn not_found_reply(note_id: i32) -> (r: HttpReply)
    ensures
        r.status == 404,
        r.kind == BodyKind::Text,
        r.body@ == not_found_text(note_id as int),
{
    let mut b = "No note found with ID: ".to_owned();
    let ds = crate::text::i32_to_chars(note_id);
    let dstr = crate::text::chars_to_string(&ds);
    b.append(dstr.as_str());
    HttpReply { status: 404, kind: BodyKind::Text, body: b }
}

/// The opaque 500 reply for a store or pool failure.
fn internal_error_reply() -> (r: HttpReply)
    ensures
        r.status == 500,
        r.kind == BodyKind::Text,
        r.body@ == internal_error_text(),
{
    HttpReply { status: 500, kind: BodyKind::Text, body: "Internal Server Error".to_owned() }
}

/// The 422 reply for a parameter parse failure, carrying the failure
/// text in a JSON detail body.
pub fn unprocessable_reply(detail: &str) -> (r: HttpReply)
    ensures
        r.status == 422,
        r.kind == BodyKind::Json,
        r.body@ == detail_body(detail@),
{
    let mut b = "{\"detail\": \"".to_owned();
    let dc = crate::text::str_chars(detail);
    let mut ec: Vec<char> = Vec::new();
    crate::json::push_escaped(&dc, &mut ec);
    let estr = crate::text::chars_to_string(&ec);
    b.append(estr.as_str());
    b.append("\"}");
    HttpReply { status: 422, kind: BodyKind::Json, body: b }
}

/// Parses a path id segment as an integer; a failure is reported with a
/// message that names the segment.
pub fn parse_note_id(raw: &str) -> (r: Result<i32, String>)
    ensures
        match r {
            Ok(v) => spec_parse_i32(raw@) == Some(v as int),
            Err(m) => spec_parse_i32(raw@) is None && m@ == id_error_text(raw@),
        },
{
    let cs = crate::text::str_chars(raw);
    match crate::text::parse_i32_chars(&cs) {
        Some(v) => Ok(v),
        None => {
            let mut m = "invalid note id: ".to_owned();
            m.append(raw);
            Err(m)
        },
    }
}

/// Translates a list outcome: 200 with the JSON array of every record,
/// 500 on a store failure.
pub fn render_list(outcome: Result<Vec<NoteSerializer>, DbFault>) -> (r: HttpReply)
    ensures
        match outcome {
            Ok(ns) => r.status == 200 && r.kind == BodyKind::Json && r.body@ == enc_note_list(
                views_of(ns@),
            ),
            Err(_) => r.status == 500 && r.kind == BodyKind::Text && r.body@
                == internal_error_text(),
        },
{
    match outcome {
        Ok(ns) => HttpReply {
            status: 200,
            kind: BodyKind::Json,
            body: crate::json::encode_note_list(&ns),
        },
        Err(_) => internal_error_reply(),
    }
}

/// Translates a lookup outcome: 200 with the record, 404 when absent,
/// 500 on a store failure.
pub fn render_get(note_id: i32, outcome: Result<Option<NoteSerializer>, DbFault>) -> (r:
    HttpReply)
    ensures
        match outcome {
            Ok(Some(n)) => r.status == 200 && r.kind == BodyKind::Json && r.body@ == enc_note(
                n@,
            ),
            Ok(None) => r.status == 404 && r.kind == BodyKind::Text && r.body@ == not_found_text(
                note_id as int,
            ),
            Err(_) => r.status == 500 && r.kind == BodyKind::Text && r.body@
                == internal_error_text(),
        },
{
    match outcome {
        Ok(Some(n)) => HttpReply {
            status: 200,
            kind: BodyKind::Json,
            body: crate::json::encode_note(&n),
        },
        Ok(None) => not_found_reply(note_id),
        Err(_) => internal_error_reply(),
    }
}

/// Translates a create outcome: 201 with the new record, 500 on a store
/// failure.
pub fn render_create(outcome: Result<NoteSerializer, DbFault>) -> (r: HttpReply)
    ensures
        match outcome {
            Ok(n) => r.status == 201 && r.kind == BodyKind::Json && r.body@ == enc_note(n@),
            Err(_) => r.status == 500 && r.kind == BodyKind::Text && r.body@
                == internal_error_text(),
        },
{
    match outcome {
        Ok(n) => HttpReply {
            status: 201,
            kind: BodyKind::Json,
            body: crate::json::encode_note(&n),
        },
        Err(_) => internal_error_reply(),
    }
}

/// Translates an update outcome: 200 with the updated record, 404 when
/// absent, 500 on a store failure.
pub fn render_update(note_id: i32, outcome: Result<Option<NoteSerializer>, DbFault>) -> (r:
    HttpReply)
    ensures
        match outcome {
            Ok(Some(n)) => r.status == 200 && r.kind == BodyKind::Json && r.body@ == enc_note(
                n@,
            ),
            Ok(None) => r.status == 404 && r.kind == BodyKind::Text && r.body@ == not_found_text(
                note_id as int,
            ),
            Err(_) => r.status == 500 && r.kind == BodyKind::Text && r.body@
                == internal_error_text(),
        },
{
    match outcome {
        Ok(Some(n)) => HttpReply {
            status: 200,
            kind: BodyKind::Json,
            body: crate::json::encode_note(&n),
        },
        Ok(None) => not_found_reply(note_id),
        Err(_) => internal_error_reply(),
    }
}

/// Translates a delete outcome: 204 with an empty body when one row was
/// deleted, 404 when none was, 500 on a store failure.
pub fn render_delete(note_id: i32, outcome: Result<usize, DbFault>) -> (r: HttpReply)
    ensures
        match outcome {
            Ok(count) => if count == 1 {
                r.status == 204 && r.kind == BodyKind::Empty && r.body@ == Seq::<char>::empty()
            } else {
                r.status == 404 && r.kind == BodyKind::Text && r.body@ == not_found_text(
                    note_id as int,
                )
            },
            Err(_) => r.status == 500 && r.kind == BodyKind::Text && r.body@
                == internal_error_text(),
        },
{
    match outcome {
        Ok(count) => {
            if count == 1 {
                HttpReply { status: 204, kind: BodyKind::Empty, body: String::new() }
            } else {
                not_found_reply(note_id)
            }
        },
        Err(_) => internal_error_reply(),
    }
}

/// The list endpoint over the store: every note as a JSON array.
pub fn get_notes(store: &NoteStore) -> (r: HttpReply)
    requires
        store.wf(),
    ensures
        r.status == 200,
        r.kind == BodyKind::Json,
        r.body@ == enc_note_list(store@),
{
    let records = store.search();
    render_list(Ok(records))
}

/// The single-note endpoint: 200 with the record, 404 when the id is
/// absent, 422 when the path segment is not an integer.
pub fn get_note_by_id(store: &NoteStore, raw_id: &str) -> (r: HttpReply)
    requires
        store.wf(),
    ensures
        match spec_parse_i32(raw_id@) {
            Some(id) => match find_note(store@, id) {
                Some(v) => r.status == 200 && r.kind == BodyKind::Json && r.body@ == enc_note(v),
                None => r.status == 404 && r.kind == BodyKind::Text && r.body@ == not_found_text(
                    id,
                ),
            },
            None => r.status == 422 && r.kind == BodyKind::Json && r.body@ == detail_body(
                id_error_text(raw_id@),
            ),
        },
{
    match parse_note_id(raw_id) {
        Ok(id) => {
            let rec = store.get_by_id(id);
            render_get(id, Ok(rec))
        },
        Err(m) => unprocessable_reply(m.as_str()),
    }
}

/// The create endpoint: 201 with the stored record on a well-formed
/// payload, 422 otherwise; the store grows by exactly the new note.
pub fn create_note(store: &mut NoteStore, body: &str) -> (r: HttpReply)
    requires
        old(store).wf(),
        spec_dec_creator(body@) is Some ==> old(store).next_id_spec() < i32::MAX,
    ensures
        final(store).wf(),
        match spec_dec_creator(body@) {
            Some(c) => {
                let v = (NoteView {
                    id: old(store).next_id_spec(),
                    title: c.title,
                    text: c.text,
                });
                &&& r.status == 201
                &&& r.kind == BodyKind::Json
                &&& r.body@ == enc_note(v)
                &&& final(store)@ == old(store)@.push(v)
                &&& final(store).next_id_spec() == old(store).next_id_spec() + 1
            },
            None => {
                &&& r.status == 422
                &&& r.kind == BodyKind::Json
                &&& r.body@ == detail_body(payload_error_text())
                &&& final(store)@ == old(store)@
                &&& final(store).next_id_spec() == old(store).next_id_spec()
            },
        },
{
    match crate::json::decode_note_creator(body) {
        Some(payload) => {
            let rec = store.create(&payload);
            proof {
                assert(store@ =~= old(store)@.push(rec@));
            }
            render_create(Ok(rec))
        },
        None => unprocessable_reply("invalid note payload"),
    }
}

/// The update endpoint: 200 with the updated record, 404 when the id is
/// absent (nothing is created), 422 on a malformed id or payload; the
/// id of a note never changes.
pub fn edit_note(store: &mut NoteStore, raw_id: &str, body: &str) -> (r: HttpReply)
    requires
        old(store).wf(),
    ensures
        final(store).wf(),
        final(store).next_id_spec() == old(store).next_id_spec(),
        match spec_parse_i32(raw_id@) {
            None => r.status == 422 && r.kind == BodyKind::Json && r.body@ == detail_body(
                id_error_text(raw_id@),
            ) && final(store)@ == old(store)@,
            Some(id) => match spec_dec_creator(body@) {
                None => r.status == 422 && r.kind == BodyKind::Json && r.body@ == detail_body(
                    payload_error_text(),
                ) && final(store)@ == old(store)@,
                Some(c) => if has_id(old(store)@, id) {
                    let v = (NoteView { id: id, title: c.title, text: c.text });
                    &&& r.status == 200
                    &&& r.kind == BodyKind::Json
                    &&& r.body@ == enc_note(v)
                    &&& final(store)@.len() == old(store)@.len()
                    &&& find_note(final(store)@, id) == Some(v)
                    &&& forall|j: int|
                        0 <= j < old(store)@.len() && old(store)@[j].id != id
                            ==> final(store)@[j] == old(store)@[j]
                    &&& forall|j: int|
                        0 <= j < old(store)@.len() && old(store)@[j].id == id
                            ==> final(store)@[j] == v
                } else {
                    r.status == 404 && r.kind == BodyKind::Text && r.body@ == not_found_text(id)
                        && final(store)@ == old(store)@
                },
            },
        },
{
    match parse_note_id(raw_id) {
        Ok(id) => {
            match crate::json::decode_note_creator(body) {
                Some(payload) => {
                    let rec = store.update(id, &payload);
                    render_update(id, Ok(rec))
                },
                None => unprocessable_reply("invalid note payload"),
            }
        },
        Err(m) => unprocessable_reply(m.as_str()),
    }
}

/// The delete endpoint: 204 with an empty body when the note existed,
/// 404 when it did not, 422 on a malformed id; afterwards no note
/// carries the id.
pub fn delete_note(store: &mut NoteStore, raw_id: &str) -> (r: HttpReply)
    requires
        old(store).wf(),
    ensures
        final(store).wf(),
        final(store).next_id_spec() == old(store).next_id_spec(),
        match spec_parse_i32(raw_id@) {
            None => r.status == 422 && r.kind == BodyKind::Json && r.body@ == detail_body(
                id_error_text(raw_id@),
            ) && final(store)@ == old(store)@,
            Some(id) => {
                &&& !has_id(final(store)@, id)
                &&& if has_id(old(store)@, id) {
                    r.status == 204 && r.kind == BodyKind::Empty && r.body@
                        == Seq::<char>::empty() && exists|k: int|
                        0 <= k < old(store)@.len() && old(store)@[k].id == id && final(store)@
                            =~= old(store)@.remove(k)
                } else {
                    r.status == 404 && r.kind == BodyKind::Text && r.body@ == not_found_text(id)
                        && final(store)@ == old(store)@
                }
            },
        },
{
    match parse_note_id(raw_id) {
        Ok(id) => {
            let count = store.delete(id);
            render_delete(id, Ok(count))
        },
        Err(m) => unprocessable_reply(m.as_str()),
    }
}

} // verus!

