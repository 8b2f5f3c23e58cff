//! The data access layer: an in-memory model of the `notes` table with the
//! five store operations (get by id, list, create, update, delete) and the
//! laws that relate them. The file-backed relational store realizes the
//! same table outside this library; its connection handling and failure
//! modes stay at that edge.

use vstd::prelude::*;

use crate::models::{NoteCreator, NoteSerializer, NoteView};

verus! {

/// The views of a sequence of records.
pub open spec fn views_of(ns: Seq<NoteSerializer>) -> Seq<NoteView> {
    ns.map_values(|n: NoteSerializer| n@)
}

/// True when no two rows carry the same id.
pub open spec fn ids_unique(rows: Seq<NoteView>) -> bool {
    forall|i: int, j: int| 0 <= i < j < rows.len() ==> rows[i].id != rows[j].id
}

/// True when some row carries the given id.
pub open spec fn has_id(rows: Seq<NoteView>, id: int) -> bool {
    exists|i: int| 0 <= i < rows.len() && rows[i].id == id
}

/// The row carrying the given id, or absence when no row matches.
pub open spec fn find_note(rows: Seq<NoteView>, id: int) -> Option<NoteView> {
    if has_id(rows, id) {
        let i = choose|i: int| 0 <= i < rows.len() && rows[i].id == id;
        Some(rows[i])
    } else {
        None
    }
}

/// The table of notes plus the store's id counter. Rows are kept in
/// insertion order; ids are assigned by the store, unique, and never
/// reused within one store's lifetime.
pub struct NoteStore {
    notes: Vec<NoteSerializer>,
    next_id: i32,
}

impl View for NoteStore {
    type V = Seq<NoteView>;

    closed spec fn view(&self) -> Seq<NoteView> {
        views_of(self.notes@)
    }
}

impl NoteStore {
    /// The id the store will assign to the next created note.
    pub closed spec fn next_id_spec(&self) -> int {
        self.next_id as int
    }

    /// Store invariant: the id counter is positive, every row's id is
    /// positive and below the counter, and no two rows share an id.
    pub open spec fn wf(&self) -> bool {
        &&& 1 <= self.next_id_spec()
        &&& forall|i: int| 0 <= i < self@.len() ==> 1 <= (#[trigger] self@[i]).id
            < self.next_id_spec()
        &&& ids_unique(self@)
    }

    /// An empty store whose first assigned id will be 1.
    pub fn new() -> (s: NoteStore)
        ensures
            s.wf(),
            s@ =~= Seq::<NoteView>::empty(),
            s.next_id_spec() == 1,
    {
        NoteStore { notes: Vec::new(), next_id: 1 }
    }

    /// Single-row lookup by primary key; absence is a normal outcome,
    /// not an error.
    pub fn get_by_id(&self, note_id: i32) -> (r: Option<NoteSerializer>)
        requires
            self.wf(),
        ensures
            match r {
                Some(n) => find_note(self@, note_id as int) == Some(n@),
                None => !has_id(self@, note_id as int),
            },
    {
        let mut i: usize = 0;
        while i < self.notes.len()
            invariant
                self.wf(),
                i <= self.notes.len(),
                forall|j: int| 0 <= j < i ==> (#[trigger] self@[j]).id != note_id as int,
            decreases self.notes.len() - i,
        {
            if self.notes[i].id == note_id {
                let n = self.notes[i].clone();
                proof {
                    assert(self@[i as int].id == note_id as int);
                    assert(has_id(self@, note_id as int));
                    let k = choose|k: int| 0 <= k < self@.len() && self@[k].id == note_id as int;
                    assert(k == i as int);
                }
                return Some(n);
            }
            i += 1;
        }
        None
    }

    /// Inserts a new row; the store assigns the id. The returned record
    /// combines the assigned id with the caller-supplied title and text.
    pub fn create(&mut self, new_note: &NoteCreator) -> (r: NoteSerializer)
        requires
            old(self).wf(),
            old(self).next_id_spec() < i32::MAX,
        ensures
            final(self).wf(),
            r@.id == old(self).next_id_spec(),
            r@.title == new_note@.title,
            r@.text == new_note@.text,
            !has_id(old(self)@, r@.id),
            final(self)@ =~= old(self)@.push(r@),
            final(self).next_id_spec() == old(self).next_id_spec() + 1,
    {
        let record = crate::models::assemble_note(self.next_id, new_note);
        let r = record.clone();
        self.notes.push(record);
        self.next_id = self.next_id + 1;
        proof {
            let rows = self@;
            let prev = old(self)@;
            assert(rows =~= prev.push(r@));
            assert forall|i: int| 0 <= i < prev.len() implies (#[trigger] prev[i]).id != r@.id by {
                assert(prev[i].id < old(self).next_id_spec());
            }
            assert(ids_unique(rows)) by {
                assert forall|i: int, j: int| 0 <= i < j < rows.len() implies rows[i].id
                    != rows[j].id by {
                    if j < prev.len() {
                        assert(prev[i].id != prev[j].id);
                    } else {
                        assert(rows[j] == r@);
                        assert(prev[i].id < old(self).next_id_spec());
                    }
                }
            }
        }
        r
    }

    /// Overwrites title and text of the row with the given id and returns
    /// the updated record; reports absence, creating nothing, when no row
    /// matches. The id of a row never changes.
    pub fn update(&mut self, note_id: i32, new_note: &NoteCreator) -> (r: Option<
        NoteSerializer,
    >)
        requires
            old(self).wf(),
        ensures
            final(self).wf(),
            final(self).next_id_spec() == old(self).next_id_spec(),
            final(self)@.len() == old(self)@.len(),
            forall|j: int|
                0 <= j < final(self)@.len() ==> (#[trigger] final(self)@[j]).id
                    == old(self)@[j].id,
            match r {
                Some(n) => {
                    &&& has_id(old(self)@, note_id as int)
                    &&& n@.id == note_id as int
                    &&& n@.title == new_note@.title
                    &&& n@.text == new_note@.text
                    &&& find_note(final(self)@, note_id as int) == Some(n@)
                    &&& forall|j: int|
                        0 <= j < final(self)@.len() && old(self)@[j].id != note_id as int
                            ==> final(self)@[j] == old(self)@[j]
                    &&& forall|j: int|
                        0 <= j < final(self)@.len() && old(self)@[j].id == note_id as int
                            ==> final(self)@[j] == n@
                },
                None => !has_id(old(self)@, note_id as int) && final(self)@ =~= old(self)@,
            },
    {
        let mut i: usize = 0;
        while i < self.notes.len()
            invariant
                self == old(self),
                self.wf(),
                i <= self.notes.len(),
                forall|j: int| 0 <= j < i ==> (#[trigger] self@[j]).id != note_id as int,
            decreases self.notes.len() - i,
        {
            if self.notes[i].id == note_id {
                let record = crate::models::assemble_note(note_id, new_note);
                let r = record.clone();
                let ghost prev = self@;
                self.notes.remove(i);
                self.notes.insert(i, record);
                proof {
                    let rows = self@;
                    assert(rows =~= prev.update(i as int, r@));
                    assert forall|j: int| 0 <= j < rows.len() implies (#[trigger] rows[j]).id
                        == prev[j].id by {}
                    assert(ids_unique(rows)) by {
                        assert forall|p: int, q: int| 0 <= p < q < rows.len() implies rows[p].id
                            != rows[q].id by {
                            assert(prev[p].id != prev[q].id);
                        }
                    }
                    assert(has_id(rows, note_id as int)) by {
                        assert(rows[i as int].id == note_id as int);
                    }
                    let k = choose|k: int| 0 <= k < rows.len() && rows[k].id == note_id as int;
                    if k != i as int {
                        assert(rows[k].id == rows[i as int].id);
                        assert(false);
                    }
                }
                return Some(r);
            }
            i += 1;
        }
        proof {
            assert(self@ =~= old(self)@);
        }
        None
    }

    /// Deletes the row matching the id; returns the number of rows
    /// affected (0 or 1, since the id is a primary key). Afterwards no
    /// row carries the id.
    pub fn delete(&mut self, note_id: i32) -> (r: usize)
        requires
            old(self).wf(),
        ensures
            final(self).wf(),
            final(self).next_id_spec() == old(self).next_id_spec(),
            !has_id(final(self)@, note_id as int),
            if has_id(old(self)@, note_id as int) {
                r == 1 && exists|k: int|
                    0 <= k < old(self)@.len() && old(self)@[k].id == note_id as int
                        && final(self)@ =~= old(self)@.remove(k)
            } else {
                r == 0 && final(self)@ =~= old(self)@
            },
    {
        let mut i: usize = 0;
        while i < self.notes.len()
            invariant
                self == old(self),
                self.wf(),
                i <= self.notes.len(),
                forall|j: int| 0 <= j < i ==> (#[trigger] self@[j]).id != note_id as int,
            decreases self.notes.len() - i,
        {
            if self.notes[i].id == note_id {
                let ghost prev = self@;
                self.notes.remove(i);
                proof {
                    let rows = self@;
                    assert(rows =~= prev.remove(i as int));
                    assert forall|j: int| 0 <= j < rows.len() implies (#[trigger] rows[j]).id
                        != note_id as int by {
                        if j < i as int {
                            assert(rows[j] == prev[j]);
                        } else {
                            assert(rows[j] == prev[j + 1]);
                            assert(prev[i as int].id != prev[j + 1].id);
                        }
                    }
                    assert(ids_unique(rows)) by {
                        assert forall|p: int, q: int| 0 <= p < q < rows.len() implies rows[p].id
                            != rows[q].id by {
                            let p0 = if p < i as int { p } else { p + 1 };
                            let q0 = if q < i as int { q } else { q + 1 };
                            assert(rows[p] == prev[p0]);
                            assert(rows[q] == prev[q0]);
                            assert(prev[p0].id != prev[q0].id);
                        }
                    }
                }
                return 1;
            }
            i += 1;
        }
        proof {
            assert(self@ =~= old(self)@);
        }
        0
    }

    /// Returns every row, materialized at call time; this model hands
    /// them out in insertion order (the store guarantees no order).
    pub fn search(&self) -> (r: Vec<NoteSerializer>)
        requires
            self.wf(),
        ensures
            views_of(r@) =~= self@,
    {
        let mut out: Vec<NoteSerializer> = Vec::new();
        let mut i: usize = 0;
        while i < self.notes.len()
            invariant
                i <= self.notes.len(),
                views_of(out@) =~= self@.subrange(0, i as int),
            decreases self.notes.len() - i,
        {
            let ghost prev_out = out@;
            out.push(self.notes[i].clone());
            i += 1;
            proof {
                assert(out@.len() == prev_out.len() + 1);
                assert(views_of(prev_out).len() == i - 1);
                assert forall|j: int| 0 <= j < out@.len() implies (#[trigger] views_of(out@)[j])
                    == self@.subrange(0, i as int)[j] by {
                    if j < i - 1 {
                        assert(out@[j] == prev_out[j]);
                        assert(views_of(prev_out)[j] == self@.subrange(0, i - 1)[j]);
                    } else {
                        assert(out@[j]@ == self.notes@[j]@);
                    }
                }
                assert(views_of(out@) =~= self@.subrange(0, i as int));
            }
        }
        proof {
            assert(self@.subrange(0, self.notes@.len() as int) =~= self@);
        }
        out
    }
}

/// Law: a note absent from the table is reported as absent, never as an
/// error, by an id-keyed lookup. In particular, since delete ensures
/// that afterwards no row carries the deleted id, a delete followed by a
/// lookup of the same id always yields absence.
pub proof fn lemma_absent_id_not_found(rows: Seq<NoteView>, id: int)
    requires
        !has_id(rows, id),
    ensures
        find_note(rows, id) is None,
{
}

/// Law: a freshly created note is found by its assigned id, and what is
/// found equals what create returned.
pub proof fn lemma_created_note_found(rows: Seq<NoteView>, n: NoteView)
    requires
        !has_id(rows, n.id),
    ensures
        find_note(rows.push(n), n.id) == Some(n),
{
    let rows2 = rows.push(n);
    assert(rows2[rows.len() as int] == n);
    assert(has_id(rows2, n.id));
    let k = choose|k: int| 0 <= k < rows2.len() && rows2[k].id == n.id;
    if k < rows.len() {
        assert(rows[k] == rows2[k]);
        assert(has_id(rows, n.id));
    }
}

/// The table state after creating a batch of notes, one push per create.
pub open spec fn after_creates(rows: Seq<NoteView>, created: Seq<NoteView>) -> Seq<NoteView>
    decreases created.len(),
{
    if created.len() == 0 {
        rows
    } else {
        after_creates(rows.push(created[0]), created.skip(1))
    }
}

/// Law: creating a batch of N notes appends exactly those N notes, so a
/// listing afterwards returns every prior row plus each created note,
/// nothing else.
pub proof fn lemma_list_after_creates(rows: Seq<NoteView>, created: Seq<NoteView>)
    ensures
        after_creates(rows, created) =~= rows + created,
        after_creates(rows, created).len() == rows.len() + created.len(),
        forall|i: int|
            0 <= i < created.len() ==> after_creates(rows, created)[rows.len() + i]
                == created[i],
    decreases created.len(),
{
    if created.len() == 0 {
        assert(rows + created =~= rows);
    } else {
        lemma_list_after_creates(rows.push(created[0]), created.skip(1));
        assert(rows.push(created[0]) + created.skip(1) =~= rows + created);
    }
}

} // verus!
