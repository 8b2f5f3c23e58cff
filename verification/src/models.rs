//! The note entity: the stored record shape and the creation payload,
//! with their mathematical views.

use vstd::prelude::*;

verus! {

/// Mathematical view of a stored note: the id and the character
/// sequences of its title and text.
#[verifier::ext_equal]
pub ghost struct NoteView {
    pub id: int,
    pub title: Seq<char>,
    pub text: Seq<char>,
}

/// Mathematical view of a creation payload: title and text only,
/// since the store assigns the id.
#[verifier::ext_equal]
pub ghost struct CreatorView {
    pub title: Seq<char>,
    pub text: Seq<char>,
}

/// A stored note record, as returned to clients: a unique store-assigned
/// id plus the caller-supplied title and text.
#[derive(Debug)]
pub struct NoteSerializer {
    pub id: i32,
    pub title: String,
    pub text: String,
}

/// A creation payload: the client-supplied part of a note, without an id.
#[derive(Debug)]
pub struct NoteCreator {
    pub title: String,
    pub text: String,
}

impl View for NoteSerializer {
    type V = NoteView;

    open spec fn view(&self) -> NoteView {
        NoteView { id: self.id as int, title: self.title@, text: self.text@ }
    }
}

impl View for NoteCreator {
    type V = CreatorView;

    open spec fn view(&self) -> CreatorView {
        CreatorView { title: self.title@, text: self.text@ }
    }
}

impl Clone for NoteSerializer {
    fn clone(&self) -> (r: Self)
        ensures
            r@ == self@,
    {
        NoteSerializer { id: self.id, title: self.title.clone(), text: self.text.clone() }
    }
}

impl Clone for NoteCreator {
    fn clone(&self) -> (r: Self)
        ensures
            r@ == self@,
    {
        NoteCreator { title: self.title.clone(), text: self.text.clone() }
    }
}

/// Combines a store-assigned id with the caller-supplied title and text
/// into a full record. The store's result projection on insert or update
/// may be partial, so the record handed back to clients is always
/// reassembled this way rather than read back column by column.
pub fn assemble_note(note_id: i32, payload: &NoteCreator) -> (r: NoteSerializer)
    ensures
        r@.id == note_id as int,
        r@.title == payload@.title,
        r@.text == payload@.text,
{
    NoteSerializer { id: note_id, title: payload.title.clone(), text: payload.text.clone() }
}

} // verus!
