//! What the notes library promises across calls: a saved note is found
//! again, a deleted one is gone, writes leave other notes alone, search is the
//! full list filtered in order, and a saved list loads back as the same store.
use vstd::prelude::*;
use crate::notes::model::Note;
use crate::notes::repository::{every_note, insert_all, keyed_by_id, lists_by_id};

verus! {

/// What `find_by_id` answers for `id` in a store holding `m`.
pub open spec fn lookup(m: Map<u64, Note>, id: u64) -> Option<Note> {
    if m.dom().contains(id) {
        Some(m[id])
    } else {
        None
    }
}

/// A saved note is what a lookup of its id then gives back.
pub proof fn lemma_saved_note_is_found(before: Map<u64, Note>, saved: Note)
    ensures
        lookup(before.insert(saved.id, saved), saved.id) == Some(saved),
{
}

/// After a delete the note is gone, and deleting it again reports nothing
/// removed.
pub proof fn lemma_deleted_note_is_gone(before: Map<u64, Note>, id: u64)
    ensures
        lookup(before.remove(id), id) is None,
        !before.remove(id).dom().contains(id),
{
}

/// Saving or deleting one note leaves every other note as it was.
pub proof fn lemma_writes_touch_one_note(before: Map<u64, Note>, saved: Note, id: u64, other: u64)
    requires
        other != saved.id,
        other != id,
    ensures
        lookup(before.insert(saved.id, saved), other) == lookup(before, other),
        lookup(before.remove(id), other) == lookup(before, other),
{
}

/// Two lists of the same notes in increasing id order are the same list.
pub proof fn lemma_listing_is_unique(
    a: Seq<Note>,
    b: Seq<Note>,
    m: Map<u64, Note>,
    keep: spec_fn(Note) -> bool,
)
    requires
        lists_by_id(a, m, keep),
        lists_by_id(b, m, keep),
    ensures
        a == b,
{
    assert forall|i: int| 0 <= i < a.len() && i < b.len() implies a[i] == b[i] by {
        lemma_listing_agrees_at(a, b, m, keep, i);
    }
    if a.len() < b.len() {
        let k = b[a.len() as int].id;
        assert(m.dom().contains(k) && keep(m[k]));
        let t = choose|t: int| 0 <= t < a.len() && #[trigger] a[t].id == k;
        lemma_listing_agrees_at(a, b, m, keep, t);
        assert(b[t].id < b[a.len() as int].id);
    }
    if b.len() < a.len() {
        let k = a[b.len() as int].id;
        assert(m.dom().contains(k) && keep(m[k]));
        let t = choose|t: int| 0 <= t < b.len() && #[trigger] b[t].id == k;
        lemma_listing_agrees_at(a, b, m, keep, t);
        assert(a[t].id < a[b.len() as int].id);
    }
    assert(a =~= b);
}

proof fn lemma_listing_agrees_at(
    a: Seq<Note>,
    b: Seq<Note>,
    m: Map<u64, Note>,
    keep: spec_fn(Note) -> bool,
    i: int,
)
    requires
        lists_by_id(a, m, keep),
        lists_by_id(b, m, keep),
        0 <= i < a.len(),
        i < b.len(),
    ensures
        a[i] == b[i],
    decreases i,
{
    if i > 0 {
        lemma_listing_agrees_at(a, b, m, keep, i - 1);
    }
    assert forall|j: int| 0 <= j < i implies a[j] == b[j] by {
        lemma_listing_agrees_at(a, b, m, keep, j);
    }
    // where a[i] sits in b
    let ka = a[i].id;
    assert(m.dom().contains(ka) && keep(m[ka]));
    let t = choose|t: int| 0 <= t < b.len() && #[trigger] b[t].id == ka;
    // where b[i] sits in a
    let kb = b[i].id;
    assert(m.dom().contains(kb) && keep(m[kb]));
    let s = choose|s: int| 0 <= s < a.len() && #[trigger] a[s].id == kb;
    if t < i {
        assert(a[t] == b[t]);
        assert(a[t].id < a[i].id);
    }
    if s < i {
        assert(a[s] == b[s]);
        assert(b[s].id < b[i].id);
    }
    if t > i && s > i {
        assert(b[i].id < b[t].id);
        assert(a[i].id < a[s].id);
    }
    if t > i && s == i {
        assert(b[i].id < b[t].id);
    }
    if s > i && t == i {
        assert(a[i].id < a[s].id);
    }
    assert(a[i].id == b[i].id);
    assert(a[i] == m[ka]);
    assert(b[i] == m[kb]);
}

/// Search gives exactly the full listing filtered by the query, in order.
pub proof fn lemma_search_filters_listing(
    all: Seq<Note>,
    found: Seq<Note>,
    m: Map<u64, Note>,
    matches: spec_fn(Note) -> bool,
)
    requires
        lists_by_id(all, m, every_note()),
        lists_by_id(found, m, matches),
    ensures
        found == all.filter(matches),
{
    lemma_filter_lists(all, m, matches);
    lemma_listing_is_unique(found, all.filter(matches), m, matches);
}

proof fn lemma_filter_lists(all: Seq<Note>, m: Map<u64, Note>, matches: spec_fn(Note) -> bool)
    requires
        lists_by_id(all, m, every_note()),
    ensures
        lists_by_id(all.filter(matches), m, matches),
    decreases all.len(),
{
    reveal(Seq::filter);
    if all.len() == 0 {
        assert(all.filter(matches) =~= Seq::<Note>::empty());
    } else {
        let p = all.drop_last();
        let last = all.last();
        let mp = Map::new(|k: u64| m.dom().contains(k) && k != last.id, |k: u64| m[k]);
        assert forall|i: int| 0 <= i < p.len() implies {
            &&& mp.dom().contains(#[trigger] p[i].id)
            &&& mp[p[i].id] == p[i]
            &&& every_note()(p[i])
        } by {
            assert(all[i] == p[i]);
            assert(all[i].id < all[all.len() - 1].id);
        }
        assert forall|k: u64| mp.dom().contains(k) && every_note()(mp[k]) implies exists|i: int|
            0 <= i < p.len() && #[trigger] p[i].id == k by {
            let i = choose|i: int| 0 <= i < all.len() && #[trigger] all[i].id == k;
            assert(i != all.len() - 1);
            assert(p[i].id == k);
        }
        lemma_filter_lists(p, mp, matches);
        let fp = p.filter(matches);
        assert forall|i: int| 0 <= i < fp.len() implies #[trigger] fp[i].id < last.id by {
            assert(fp.contains(fp[i]));
            p.lemma_filter_contains_rev(matches, fp[i]);
            assert(p.contains(fp[i]));
            let j = choose|j: int| 0 <= j < p.len() && p[j] == fp[i];
            assert(all[j] == p[j]);
        }
        let f = all.filter(matches);
        assert(f == if matches(last) { fp.push(last) } else { fp });
        assert forall|i: int| 0 <= i < f.len() implies {
            &&& m.dom().contains(#[trigger] f[i].id)
            &&& m[f[i].id] == f[i]
            &&& matches(f[i])
        } by {
            if i < fp.len() {
                assert(f[i] == fp[i]);
            }
        }
        assert forall|k: u64| m.dom().contains(k) && matches(m[k]) implies exists|i: int|
            0 <= i < f.len() && #[trigger] f[i].id == k by {
            if k == last.id {
                assert(f[f.len() - 1].id == k);
            } else {
                assert(mp.dom().contains(k));
                let i = choose|i: int| 0 <= i < fp.len() && #[trigger] fp[i].id == k;
                assert(f[i] == fp[i]);
            }
        }
    }
}

/// Loading a store's full listing into an empty store rebuilds the same store:
/// what the file repository writes out is what it reads back in.
pub proof fn lemma_listing_reloads(list: Seq<Note>, m: Map<u64, Note>)
    requires
        lists_by_id(list, m, every_note()),
    ensures
        insert_all(Map::empty(), list) == m,
{
    lemma_insert_all_listing(list);
    assert(insert_all(Map::empty(), list).dom() =~= m.dom()) by {
        assert forall|k: u64| m.dom().contains(k) implies insert_all(Map::empty(), list).dom().contains(k) by {
            assert(every_note()(m[k]));
            let i = choose|i: int| 0 <= i < list.len() && #[trigger] list[i].id == k;
        }
    }
    assert(insert_all(Map::empty(), list) =~= m);
}

/// Inserting notes with increasing ids into an empty store maps each id to
/// its note and nothing else.
proof fn lemma_insert_all_listing(list: Seq<Note>)
    requires
        forall|i: int, j: int| 0 <= i < j < list.len() ==> list[i].id < list[j].id,
    ensures
        forall|k: u64|
            insert_all(Map::empty(), list).dom().contains(k) <==> exists|i: int|
                0 <= i < list.len() && #[trigger] list[i].id == k,
        forall|i: int|
            0 <= i < list.len() ==> insert_all(Map::empty(), list)[#[trigger] list[i].id]
                == list[i],
    decreases list.len(),
{
    if list.len() > 0 {
        let p = list.drop_last();
        lemma_insert_all_listing(p);
        assert forall|k: u64|
            insert_all(Map::empty(), list).dom().contains(k) <==> exists|i: int|
                0 <= i < list.len() && #[trigger] list[i].id == k by {
            if insert_all(Map::empty(), p).dom().contains(k) {
                let i = choose|i: int| 0 <= i < p.len() && #[trigger] p[i].id == k;
                assert(list[i].id == k);
            }
            if exists|i: int| 0 <= i < list.len() && #[trigger] list[i].id == k {
                let i = choose|i: int| 0 <= i < list.len() && #[trigger] list[i].id == k;
                if i < list.len() - 1 {
                    assert(p[i].id == k);
                }
            }
        }
        assert forall|i: int|
            0 <= i < list.len() implies insert_all(Map::empty(), list)[#[trigger] list[i].id]
            == list[i] by {
            if i < list.len() - 1 {
                assert(p[i] == list[i]);
                assert(list[i].id < list[list.len() - 1].id);
            }
        }
    }
}

} // verus!
