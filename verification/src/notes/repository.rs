//! Storage of notes by id, behind the `NoteRepository` trait, with the
//! in-memory repository that the file-backed one builds on.
use vstd::prelude::*;
use std::collections::HashMap;
use crate::notes::model::Note;

verus! {

/// Every stored note sits under its own id.
pub open spec fn keyed_by_id(m: Map<u64, Note>) -> bool {
    forall|k: u64| m.dom().contains(k) ==> #[trigger] m[k].id == k
}

/// `list` holds, in increasing id order, exactly the notes of `m` that
/// satisfy `keep`.
pub open spec fn lists_by_id(list: Seq<Note>, m: Map<u64, Note>, keep: spec_fn(Note) -> bool) -> bool {
    &&& forall|i: int, j: int| 0 <= i < j < list.len() ==> list[i].id < list[j].id
    &&& forall|i: int|
        0 <= i < list.len() ==> {
            &&& m.dom().contains(#[trigger] list[i].id)
            &&& m[list[i].id] == list[i]
            &&& keep(list[i])
        }
    &&& forall|k: u64|
        m.dom().contains(k) && keep(m[k]) ==> exists|i: int|
            0 <= i < list.len() && #[trigger] list[i].id == k
}

/// Any note at all.
pub open spec fn every_note() -> spec_fn(Note) -> bool {
    |n: Note| true
}

/// The notes of `m`, then those of `notes` inserted in order under their ids.
pub open spec fn insert_all(m: Map<u64, Note>, notes: Seq<Note>) -> Map<u64, Note>
    decreases notes.len(),
{
    if notes.len() == 0 {
        m
    } else {
        insert_all(m, notes.drop_last()).insert(notes.last().id, notes.last())
    }
}

/// The next free id after loading `notes`: above every loaded id and `next`.
pub open spec fn next_after(next: u64, notes: Seq<Note>) -> u64
    decreases notes.len(),
{
    if notes.len() == 0 {
        next
    } else {
        let before = next_after(next, notes.drop_last());
        if before >= notes.last().id + 1 {
            before
        } else {
            (notes.last().id + 1) as u64
        }
    }
}

/// A store of notes by id. A note saved with id `0` is new: it gets the next
/// free id; any other note is stored under its own id, replacing the note
/// stored there.
pub trait NoteRepository {
    /// The stored notes, by id.
    spec fn stored(&self) -> Map<u64, Note>;

    /// The id that the next new note gets.
    spec fn next_note_id(&self) -> u64;

    fn save(&mut self, note: Note) -> (saved: Note)
        requires
            note.id == 0 ==> old(self).next_note_id() < u64::MAX,
        ensures
            note.id == 0 ==> saved == (Note { id: old(self).next_note_id(), ..note })
                && final(self).next_note_id() == old(self).next_note_id() + 1,
            note.id != 0 ==> saved == note && final(self).next_note_id()
                == old(self).next_note_id(),
            final(self).stored() == old(self).stored().insert(saved.id, saved),
    ;

    fn find_all(&self) -> (notes: Vec<Note>)
        ensures
            lists_by_id(notes@, self.stored(), every_note()),
    ;

    fn find_by_id(&self, id: u64) -> (found: Option<Note>)
        ensures
            found == (if self.stored().dom().contains(id) {
                Some(self.stored()[id])
            } else {
                None
            }),
    ;

    fn delete_by_id(&mut self, id: u64) -> (removed: bool)
        ensures
            removed == old(self).stored().dom().contains(id),
            final(self).stored() == old(self).stored().remove(id),
            final(self).next_note_id() == old(self).next_note_id(),
    ;

    /// The id that the next new note gets.
    fn next_id(&self) -> (id: u64)
        ensures
            id == self.next_note_id(),
    ;
}

/// Notes held in memory, keyed by id; new notes are numbered from 1.
pub struct InMemoryNoteRepository {
    notes: HashMap<u64, Note>,
    next_id: u64,
}

impl InMemoryNoteRepository {
    #[verifier::type_invariant]
    spec fn inv(self) -> bool {
        keyed_by_id(self.notes@)
    }

    pub fn new() -> (r: InMemoryNoteRepository)
        ensures
            r.stored() == Map::<u64, Note>::empty(),
            r.next_note_id() == 1,
    {
        let r = InMemoryNoteRepository { notes: HashMap::new(), next_id: 1 };
        assert(r.notes@ =~= Map::<u64, Note>::empty());
        r
    }

    /// Adds notes read back from storage, each under its own id (a later note
    /// replaces an earlier one with the same id), and moves the next free id
    /// above every loaded id.
    pub fn load_notes(&mut self, notes: Vec<Note>)
        requires
            forall|i: int| 0 <= i < notes@.len() ==> #[trigger] notes@[i].id < u64::MAX,
        ensures
            final(self).stored() == insert_all(old(self).stored(), notes@),
            final(self).next_note_id() == next_after(old(self).next_note_id(), notes@),
    {
        proof {
            use_type_invariant(&*self);
        }
        let mut map: HashMap<u64, Note> = HashMap::new();
        std::mem::swap(&mut map, &mut self.notes);
        let ghost m0 = map@;
        let mut next = self.next_id;
        let mut i: usize = 0;
        while i < notes.len()
            invariant
                i <= notes@.len(),
                forall|j: int| 0 <= j < notes@.len() ==> #[trigger] notes@[j].id < u64::MAX,
                map@ == insert_all(m0, notes@.take(i as int)),
                next == next_after(old(self).next_id, notes@.take(i as int)),
                keyed_by_id(map@),
            decreases notes.len() - i,
        {
            let note = notes[i].clone();
            let id = note.id;
            if next < id + 1 {
                next = id + 1;
            }
            map.insert(id, note);
            proof {
                let t = notes@.take(i + 1);
                assert(t.drop_last() =~= notes@.take(i as int));
                assert(t.last() == notes@[i as int]);
            }
            i = i + 1;
        }
        assert(notes@.take(notes@.len() as int) =~= notes@);
        self.notes = map;
        self.next_id = next;
    }
}

/// Sorts `keys` into increasing order without repeats.
fn sorted_unique(keys: &Vec<u64>) -> (r: Vec<u64>)
    ensures
        forall|i: int, j: int| 0 <= i < j < r@.len() ==> r@[i] < r@[j],
        forall|k: u64| r@.contains(k) <==> keys@.contains(k),
{
    let mut r: Vec<u64> = Vec::new();
    let mut i: usize = 0;
    while i < keys.len()
        invariant
            i <= keys@.len(),
            forall|a: int, b: int| 0 <= a < b < r@.len() ==> r@[a] < r@[b],
            forall|k: u64| r@.contains(k) <==> keys@.take(i as int).contains(k),
        decreases keys.len() - i,
    {
        let k = keys[i];
        let mut p: usize = 0;
        while p < r.len() && r[p] < k
            invariant
                p <= r@.len(),
                forall|a: int| 0 <= a < p ==> r@[a] < k,
            decreases r.len() - p,
        {
            p = p + 1;
        }
        let ghost before = r@;
        if p < r.len() && r[p] == k {
        } else {
            r.insert(p, k);
            assert forall|a: int, b: int| 0 <= a < b < r@.len() implies r@[a] < r@[b] by {
                if b < p {
                    assert(r@[a] == before[a] && r@[b] == before[b]);
                } else if b == p {
                    assert(r@[a] == before[a]);
                } else if a == p {
                    assert(r@[b] == before[b - 1]);
                    if p < before.len() {
                        assert(before[p as int] >= k);
                        assert(before[p as int] != k);
                        if b - 1 > p {
                            assert(before[p as int] < before[b - 1]);
                        }
                    }
                } else if a < p {
                    assert(r@[a] == before[a] && r@[b] == before[b - 1]);
                    assert(before[a] < k);
                    if p < before.len() {
                        assert(before[p as int] > k);
                        if b - 1 > p {
                            assert(before[p as int] < before[b - 1]);
                        }
                    }
                } else {
                    assert(r@[a] == before[a - 1] && r@[b] == before[b - 1]);
                }
            }
        }
        proof {
            assert(keys@.take(i + 1) =~= keys@.take(i as int).push(k));
            assert forall|x: u64| r@.contains(x) <==> keys@.take(i + 1).contains(x) by {
                if x == k {
                    if r@.contains(x) {
                    } else {
                        assert(r@[p as int] == k);
                    }
                    assert(keys@.take(i + 1)[i as int] == k);
                } else {
                    if before.contains(x) {
                        let a = choose|a: int| 0 <= a < before.len() && before[a] == x;
                        if r@ != before {
                            if a < p {
                                assert(r@[a] == x);
                            } else {
                                assert(r@[a + 1] == x);
                            }
                        }
                    }
                    if r@.contains(x) {
                        let a = choose|a: int| 0 <= a < r@.len() && r@[a] == x;
                        if r@ != before {
                            if a < p {
                                assert(before[a] == x);
                            } else {
                                assert(a != p);
                                assert(before[a - 1] == x);
                            }
                        }
                    }
                    if keys@.take(i + 1).contains(x) {
                        let a = choose|a: int| 0 <= a < i + 1 && #[trigger] keys@.take(i + 1)[a] == x;
                        assert(keys@.take(i as int)[a] == x);
                    }
                    if keys@.take(i as int).contains(x) {
                        let a = choose|a: int| 0 <= a < i && #[trigger] keys@.take(i as int)[a] == x;
                        assert(keys@.take(i + 1)[a] == x);
                    }
                }
            }
        }
        i = i + 1;
    }
    assert(keys@.take(keys@.len() as int) =~= keys@);
    r
}

impl InMemoryNoteRepository {
    /// The ids of the stored notes, in the map's own order.
    fn key_list(&self) -> (keys: Vec<u64>)
        ensures
            forall|k: u64| keys@.contains(k) <==> self.notes@.dom().contains(k),
    {
        let mut keys: Vec<u64> = Vec::new();
        let ghost s = vstd::std_specs::iter::IteratorSpec::remaining(
            &vstd::std_specs::hash::spec_keys_iter(&self.notes),
        );
        for k in it: self.notes.keys()
            invariant
                it.seq() == s,
                keys@.len() == it.index(),
                forall|j: int| 0 <= j < it.index() ==> keys@[j] == *it.seq()[j],
        {
            keys.push(*k);
        }
        proof {
            assert(keys@.len() == s.len());
            assert(s.unref().to_set() == self.notes@.dom());
            assert forall|k: u64| keys@.contains(k) <==> self.notes@.dom().contains(k) by {
                if keys@.contains(k) {
                    let j = choose|j: int| 0 <= j < keys@.len() && keys@[j] == k;
                    assert(s.unref()[j] == k);
                    assert(s.unref().to_set().contains(k));
                }
                if self.notes@.dom().contains(k) {
                    assert(s.unref().to_set().contains(k));
                    let j = choose|j: int| 0 <= j < s.unref().len() && s.unref()[j] == k;
                    assert(keys@[j] == k);
                }
            }
        }
        keys
    }
}

impl NoteRepository for InMemoryNoteRepository {
    closed spec fn stored(&self) -> Map<u64, Note> {
        self.notes@
    }

    closed spec fn next_note_id(&self) -> u64 {
        self.next_id
    }

    fn save(&mut self, note: Note) -> (saved: Note) {
        proof {
            use_type_invariant(&*self);
        }
        let persisted = if note.id == 0 {
            let id = self.next_id;
            self.next_id = self.next_id + 1;
            note.with_id(id)
        } else {
            note
        };
        let mut map: HashMap<u64, Note> = HashMap::new();
        std::mem::swap(&mut map, &mut self.notes);
        map.insert(persisted.id, persisted.clone());
        self.notes = map;
        persisted
    }

    fn find_all(&self) -> (notes: Vec<Note>) {
        proof {
            use_type_invariant(self);
        }
        let keys = self.key_list();
        let ids = sorted_unique(&keys);
        let mut all: Vec<Note> = Vec::new();
        let mut i: usize = 0;
        while i < ids.len()
            invariant
                i <= ids@.len(),
                all@.len() == i,
                keyed_by_id(self.notes@),
                forall|a: int, b: int| 0 <= a < b < ids@.len() ==> ids@[a] < ids@[b],
                forall|k: u64| ids@.contains(k) <==> self.notes@.dom().contains(k),
                forall|a: int| 0 <= a < i ==> #[trigger] all@[a] == self.notes@[ids@[a]],
            decreases ids.len() - i,
        {
            let id = ids[i];
            assert(ids@.contains(id));
            let note = self.notes.get(&id).unwrap().clone();
            all.push(note);
            i = i + 1;
        }
        proof {
            assert forall|a: int| 0 <= a < all@.len() implies all@[a].id == ids@[a] by {
                assert(ids@.contains(ids@[a]));
            }
            assert forall|k: u64|
                self.notes@.dom().contains(k) && every_note()(self.notes@[k]) implies exists|a: int|
                0 <= a < all@.len() && #[trigger] all@[a].id == k by {
                assert(ids@.contains(k));
                let a = choose|a: int| 0 <= a < ids@.len() && ids@[a] == k;
                assert(all@[a].id == k);
            }
            assert forall|a: int| 0 <= a < all@.len() implies {
                &&& self.notes@.dom().contains(#[trigger] all@[a].id)
                &&& self.notes@[all@[a].id] == all@[a]
                &&& every_note()(all@[a])
            } by {
                assert(ids@.contains(ids@[a]));
            }
        }
        all
    }

    fn find_by_id(&self, id: u64) -> (found: Option<Note>) {
        match self.notes.get(&id) {
            Some(note) => Some(note.clone()),
            None => None,
        }
    }

    fn delete_by_id(&mut self, id: u64) -> (removed: bool) {
        proof {
            use_type_invariant(&*self);
        }
        let mut map: HashMap<u64, Note> = HashMap::new();
        std::mem::swap(&mut map, &mut self.notes);
        let removed = map.remove(&id).is_some();
        self.notes = map;
        removed
    }

    fn next_id(&self) -> (id: u64) {
        self.next_id
    }
}

} // verus!
