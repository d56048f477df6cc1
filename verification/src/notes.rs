//! Notes: the data type and an explicit note store with the repository's
//! contract — create rejects a duplicate id, update and delete key on the id
//! and tolerate absence.

use vstd::prelude::*;

use crate::error::AppError;
use crate::pathname::str_eq;

verus! {

/// One note.
pub struct Note {
    pub id: String,
    pub title: String,
    pub content: String,
    pub created_at: i64,
    pub updated_at: i64,
}

/// Whether some note carries `id`.
pub open spec fn spec_note_has_id(s: Seq<Note>, id: Seq<char>) -> bool {
    exists|i: int| 0 <= i < s.len() && (#[trigger] s[i]).id@ == id
}

/// The index of the note carrying `id`; meaningful only under uniqueness.
pub open spec fn spec_note_idx(s: Seq<Note>, id: Seq<char>) -> int {
    choose|i: int| 0 <= i < s.len() && (#[trigger] s[i]).id@ == id
}

/// The note store: notes with unique ids, in creation order.
pub struct NoteService {
    notes: Vec<Note>,
}

impl View for NoteService {
    type V = Seq<Note>;

    closed spec fn view(&self) -> Seq<Note> {
        self.notes@
    }
}

impl NoteService {
    /// No two notes share an id.
    pub closed spec fn wf(self) -> bool {
        forall|i: int, j: int|
            0 <= i < j < self.notes@.len() ==> (#[trigger] self.notes@[i]).id@ != (
            #[trigger] self.notes@[j]).id@
    }

    /// An empty store.
    pub fn new() -> (r: NoteService)
        ensures
            r.wf(),
            r@ == Seq::<Note>::empty(),
    {
        NoteService { notes: Vec::new() }
    }

    /// Store a new note; a duplicate id is rejected unchanged.
    pub fn create_note(&mut self, note: Note) -> (r: Result<(), AppError>)
        requires
            old(self).wf(),
        ensures
            final(self).wf(),
            r is Ok <==> !spec_note_has_id(old(self)@, note.id@),
            r is Ok ==> final(self)@ == old(self)@.push(note),
            r is Err ==> final(self)@ == old(self)@,
    {
        let ghost nid = note.id@;
        let mut i: usize = 0;
        while i < self.notes.len()
            invariant
                nid == note.id@,
                self.wf(),
                self@ == old(self)@,
                i <= self.notes@.len(),
                forall|j: int| 0 <= j < i ==> (#[trigger] self.notes@[j]).id@ != nid,
            decreases self.notes@.len() - i,
        {
            if str_eq(self.notes[i].id.as_str(), note.id.as_str()) {
                proof {
                    assert(self.notes@[i as int].id@ == nid);
                }
                return Err(AppError::Generic("note id already exists".to_owned()));
            }
            i += 1;
        }
        proof {
            if spec_note_has_id(self@, nid) {
                let k = spec_note_idx(self@, nid);
                assert(0 <= k < self@.len() && self@[k].id@ == nid);
            }
        }
        let ghost s0 = self.notes@;
        self.notes.push(note);
        proof {
            assert forall|i2: int, j2: int|
                0 <= i2 < j2 < self.notes@.len() implies (#[trigger] self.notes@[i2]).id@ != (
            #[trigger] self.notes@[j2]).id@ by {
                if j2 == s0.len() {
                    assert(self.notes@[i2] == s0[i2]);
                }
            }
        }
        Ok(())
    }

    /// All stored notes, in storage order.
    pub fn get_notes(&self) -> (r: &Vec<Note>)
        ensures
            r@ == self@,
    {
        &self.notes
    }

    /// Rewrite the title, content and update time of the note carrying `id`;
    /// an absent id changes nothing and still succeeds.
    pub fn update_note(&mut self, id: String, title: String, content: String, updated_at: i64) -> (r:
        Result<(), AppError>)
        requires
            old(self).wf(),
        ensures
            final(self).wf(),
            r is Ok,
            spec_note_has_id(old(self)@, id@) ==> {
                let k = spec_note_idx(old(self)@, id@);
                final(self)@ == old(self)@.update(
                    k,
                    Note {
                        id: old(self)@[k].id,
                        title: title,
                        content: content,
                        created_at: old(self)@[k].created_at,
                        updated_at: updated_at,
                    },
                )
            },
            !spec_note_has_id(old(self)@, id@) ==> final(self)@ == old(self)@,
    {
        let mut i: usize = 0;
        while i < self.notes.len()
            invariant
                self.wf(),
                self@ == old(self)@,
                i <= self.notes@.len(),
                forall|j: int| 0 <= j < i ==> (#[trigger] self.notes@[j]).id@ != id@,
            decreases self.notes@.len() - i,
        {
            if str_eq(self.notes[i].id.as_str(), id.as_str()) {
                proof {
                    assert(self.notes@[i as int].id@ == id@);
                    assert(spec_note_idx(self@, id@) == i as int) by {
                        let k = spec_note_idx(self@, id@);
                        assert(0 <= k < self@.len() && self@[k].id@ == id@);
                    }
                }
                let old_note = &self.notes[i];
                let new_note = Note {
                    id: old_note.id.clone(),
                    title,
                    content,
                    created_at: old_note.created_at,
                    updated_at,
                };
                let ghost s0 = self.notes@;
                self.notes[i] = new_note;
                proof {
                    assert forall|i2: int, j2: int|
                        0 <= i2 < j2 < self.notes@.len() implies (#[trigger] self.notes@[i2]).id@
                        != (#[trigger] self.notes@[j2]).id@ by {
                        assert(self.notes@[i2].id@ == s0[i2].id@);
                        assert(self.notes@[j2].id@ == s0[j2].id@);
                    }
                }
                return Ok(());
            }
            i += 1;
        }
        proof {
            if spec_note_has_id(self@, id@) {
                let k = spec_note_idx(self@, id@);
                assert(0 <= k < self@.len() && self@[k].id@ == id@);
            }
        }
        Ok(())
    }

    /// Drop the note carrying `id`; an absent id is a no-op.
    pub fn delete_note(&mut self, id: String) -> (r: Result<(), AppError>)
        requires
            old(self).wf(),
        ensures
            final(self).wf(),
            r is Ok,
            spec_note_has_id(old(self)@, id@) ==> final(self)@ == old(self)@.remove(
                spec_note_idx(old(self)@, id@),
            ),
            !spec_note_has_id(old(self)@, id@) ==> final(self)@ == old(self)@,
    {
        let mut i: usize = 0;
        while i < self.notes.len()
            invariant
                self.wf(),
                self@ == old(self)@,
                i <= self.notes@.len(),
                forall|j: int| 0 <= j < i ==> (#[trigger] self.notes@[j]).id@ != id@,
            decreases self.notes@.len() - i,
        {
            if str_eq(self.notes[i].id.as_str(), id.as_str()) {
                proof {
                    assert(self.notes@[i as int].id@ == id@);
                    assert(spec_note_idx(self@, id@) == i as int) by {
                        let k = spec_note_idx(self@, id@);
                        assert(0 <= k < self@.len() && self@[k].id@ == id@);
                    }
                }
                let ghost s0 = self.notes@;
                self.notes.remove(i);
                proof {
                    assert forall|i2: int, j2: int|
                        0 <= i2 < j2 < self.notes@.len() implies (#[trigger] self.notes@[i2]).id@
                        != (#[trigger] self.notes@[j2]).id@ by {
                        let a0: int = if i2 < i {
                            i2
                        } else {
                            i2 + 1
                        };
                        let b0: int = if j2 < i {
                            j2
                        } else {
                            j2 + 1
                        };
                        assert(self.notes@[i2] == s0[a0] && self.notes@[j2] == s0[b0]);
                    }
                }
                return Ok(());
            }
            i += 1;
        }
        proof {
            if spec_note_has_id(self@, id@) {
                let k = spec_note_idx(self@, id@);
                assert(0 <= k < self@.len() && self@[k].id@ == id@);
            }
        }
        Ok(())
    }
}

/// The notes feature: its note store.
pub struct NoteFeature {
    pub service: NoteService,
}

impl NoteFeature {
    /// Wrap a note store as the notes feature.
    pub fn new(service: NoteService) -> (r: NoteFeature)
        ensures
            r.service == service,
    {
        NoteFeature { service }
    }
}

} // verus!
