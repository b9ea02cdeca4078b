//! What the edits promise together: taking an edit back restores the document
//! that it was made on, and the history replays what it took back.
use vstd::prelude::*;
use super::commands::{
    first_above, first_with_id, frames_set, depths_set, id_is_not, id_not_among, ids_of,
    lemma_first_above, lemma_first_with_id, moved, set_frame, z_sorted, DeleteElements,
    set_kind, set_z, slide_id_is_not, update_first, AddElement, AddSlide, ChangeFrames,
    ChangeTransition, ChangeZ, Command, DeleteSlide, Edit, EditElement, EditNotes, ReorderSlide,
};
use super::document::{elements_model, DocumentModel, ElementModel, Frame, SlideModel};
use super::undo::{History, HISTORY_LIMIT};

verus! {

broadcast use vstd::seq_lib::group_seq_properties;

/// Whether `s` keeps every element of `t`'s shape apart from frames.
pub open spec fn same_but_frames(s: Seq<ElementModel>, t: Seq<ElementModel>) -> bool {
    &&& s.len() == t.len()
    &&& forall|j: int| 0 <= j < s.len() ==> #[trigger] t[j] == ElementModel { frame: t[j].frame, ..s[j] }
}

/// Whether `s` keeps every element of `t`'s shape apart from depths.
pub open spec fn same_but_depths(s: Seq<ElementModel>, t: Seq<ElementModel>) -> bool {
    &&& s.len() == t.len()
    &&& forall|j: int| 0 <= j < s.len() ==> #[trigger] t[j] == ElementModel { z: t[j].z, ..s[j] }
}

/// Where the identifiers agree, so does the first position of each identifier.
pub proof fn lemma_first_with_id_by_ids(s: Seq<ElementModel>, t: Seq<ElementModel>, id: Seq<char>)
    requires
        s.len() == t.len(),
        forall|j: int| 0 <= j < s.len() ==> #[trigger] s[j].id == t[j].id,
    ensures
        first_with_id(s, id) == first_with_id(t, id),
    decreases s.len(),
{
    if s.len() > 0 {
        assert forall|j: int| 0 <= j < s.len() - 1 implies #[trigger] s.drop_first()[j].id
            == t.drop_first()[j].id by {
            assert(s[j + 1].id == t[j + 1].id);
        }
        lemma_first_with_id_by_ids(s.drop_first(), t.drop_first(), id);
    }
}

/// What setting frames does, position by position: only frames change; a position
/// that no change names keeps its frame; a position that some change names gets the
/// frame of one of the changes that name it.
pub proof fn lemma_frames_set(s: Seq<ElementModel>, cs: Seq<(String, Frame, Frame)>, after: bool)
    ensures
        same_but_frames(s, frames_set(s, cs, after)),
        forall|j: int|
            0 <= j < s.len() && (forall|k: int| 0 <= k < cs.len() ==> first_with_id(s, #[trigger] cs[k].0@) != j)
                ==> #[trigger] frames_set(s, cs, after)[j].frame == s[j].frame,
        forall|j: int, k: int|
            0 <= j < s.len() && 0 <= k < cs.len() && first_with_id(s, #[trigger] cs[k].0@) == j
                ==> exists|k2: int|
                0 <= k2 < cs.len() && first_with_id(s, #[trigger] cs[k2].0@) == j
                    && #[trigger] frames_set(s, cs, after)[j].frame == (if after { cs[k2].2 } else { cs[k2].1 }),
    decreases cs.len(),
{
    let r = frames_set(s, cs, after);
    if cs.len() > 0 {
        let prev = cs.drop_last();
        let c = cs.last();
        let r0 = frames_set(s, prev, after);
        lemma_frames_set(s, prev, after);
        let f = if after { c.2 } else { c.1 };
        assert forall|j: int| 0 <= j < s.len() implies #[trigger] s[j].id == r0[j].id by {
            assert(r0[j] == ElementModel { frame: r0[j].frame, ..s[j] });
        }
        lemma_first_with_id_by_ids(s, r0, c.0@);
        lemma_first_with_id(r0, c.0@);
        let p = first_with_id(s, c.0@);
        assert(r == update_first(r0, c.0@, set_frame(f)));
        assert forall|j: int| 0 <= j < s.len() implies #[trigger] r[j] == ElementModel { frame: r[j].frame, ..s[j] } by {
            assert(r0[j] == ElementModel { frame: r0[j].frame, ..s[j] });
        }
        assert forall|j: int|
            0 <= j < s.len() && (forall|k: int| 0 <= k < cs.len() ==> first_with_id(s, #[trigger] cs[k].0@) != j)
            implies #[trigger] r[j].frame == s[j].frame by {
            assert(first_with_id(s, cs[cs.len() - 1].0@) != j);
            assert forall|k: int| 0 <= k < prev.len() implies first_with_id(s, #[trigger] prev[k].0@) != j by {
                assert(prev[k] == cs[k]);
                assert(first_with_id(s, cs[k].0@) != j);
            }
        }
        assert forall|j: int, k: int|
            0 <= j < s.len() && 0 <= k < cs.len() && first_with_id(s, #[trigger] cs[k].0@) == j
            implies exists|k2: int|
                0 <= k2 < cs.len() && first_with_id(s, #[trigger] cs[k2].0@) == j
                    && #[trigger] r[j].frame == (if after { cs[k2].2 } else { cs[k2].1 }) by {
            if j == p {
                assert(cs[cs.len() - 1] == c);
                assert(r[j].frame == f);
            } else {
                assert(r[j] == r0[j]);
                if k == cs.len() - 1 {
                    assert(false);
                } else {
                    assert(prev[k] == cs[k]);
                    assert(first_with_id(s, prev[k].0@) == j);
                    let k2 = choose|k2: int|
                        0 <= k2 < prev.len() && first_with_id(s, #[trigger] prev[k2].0@) == j
                            && #[trigger] r0[j].frame == (if after { prev[k2].2 } else { prev[k2].1 });
                    assert(prev[k2] == cs[k2]);
                }
            }
        }
    }
}

/// What setting depths does, position by position, as for frames.
pub proof fn lemma_depths_set(s: Seq<ElementModel>, cs: Seq<(String, i32, i32)>, after: bool)
    ensures
        same_but_depths(s, depths_set(s, cs, after)),
        forall|j: int|
            0 <= j < s.len() && (forall|k: int| 0 <= k < cs.len() ==> first_with_id(s, #[trigger] cs[k].0@) != j)
                ==> #[trigger] depths_set(s, cs, after)[j].z == s[j].z,
        forall|j: int, k: int|
            0 <= j < s.len() && 0 <= k < cs.len() && first_with_id(s, #[trigger] cs[k].0@) == j
                ==> exists|k2: int|
                0 <= k2 < cs.len() && first_with_id(s, #[trigger] cs[k2].0@) == j
                    && #[trigger] depths_set(s, cs, after)[j].z == (if after { cs[k2].2 } else { cs[k2].1 }),
    decreases cs.len(),
{
    let r = depths_set(s, cs, after);
    if cs.len() > 0 {
        let prev = cs.drop_last();
        let c = cs.last();
        let r0 = depths_set(s, prev, after);
        lemma_depths_set(s, prev, after);
        let f = if after { c.2 } else { c.1 };
        assert forall|j: int| 0 <= j < s.len() implies #[trigger] s[j].id == r0[j].id by {
            assert(r0[j] == ElementModel { z: r0[j].z, ..s[j] });
        }
        lemma_first_with_id_by_ids(s, r0, c.0@);
        lemma_first_with_id(r0, c.0@);
        let p = first_with_id(s, c.0@);
        assert(r == update_first(r0, c.0@, set_z(f)));
        assert forall|j: int| 0 <= j < s.len() implies #[trigger] r[j] == ElementModel { z: r[j].z, ..s[j] } by {
            assert(r0[j] == ElementModel { z: r0[j].z, ..s[j] });
        }
        assert forall|j: int|
            0 <= j < s.len() && (forall|k: int| 0 <= k < cs.len() ==> first_with_id(s, #[trigger] cs[k].0@) != j)
            implies #[trigger] r[j].z == s[j].z by {
            assert(first_with_id(s, cs[cs.len() - 1].0@) != j);
            assert forall|k: int| 0 <= k < prev.len() implies first_with_id(s, #[trigger] prev[k].0@) != j by {
                assert(prev[k] == cs[k]);
                assert(first_with_id(s, cs[k].0@) != j);
            }
        }
        assert forall|j: int, k: int|
            0 <= j < s.len() && 0 <= k < cs.len() && first_with_id(s, #[trigger] cs[k].0@) == j
            implies exists|k2: int|
                0 <= k2 < cs.len() && first_with_id(s, #[trigger] cs[k2].0@) == j
                    && #[trigger] r[j].z == (if after { cs[k2].2 } else { cs[k2].1 }) by {
            if j == p {
                assert(cs[cs.len() - 1] == c);
                assert(r[j].z == f);
            } else {
                assert(r[j] == r0[j]);
                if k == cs.len() - 1 {
                    assert(false);
                } else {
                    assert(prev[k] == cs[k]);
                    assert(first_with_id(s, prev[k].0@) == j);
                    let k2 = choose|k2: int|
                        0 <= k2 < prev.len() && first_with_id(s, #[trigger] prev[k2].0@) == j
                            && #[trigger] r0[j].z == (if after { prev[k2].2 } else { prev[k2].1 });
                    assert(prev[k2] == cs[k2]);
                }
            }
        }
    }
}


/// Every change names, by its identifier, an element of `s` whose frame is the
/// change's frame before (or names none).
pub open spec fn frames_match_befores(s: Seq<ElementModel>, cs: Seq<(String, Frame, Frame)>) -> bool {
    forall|k: int|
        0 <= k < cs.len() && first_with_id(s, #[trigger] cs[k].0@) >= 0 ==> s[first_with_id(
            s,
            cs[k].0@,
        )].frame == cs[k].1
}

/// Every change names, by its identifier, an element of `s` whose depth is the
/// change's depth before (or names none).
pub open spec fn depths_match_befores(s: Seq<ElementModel>, cs: Seq<(String, i32, i32)>) -> bool {
    forall|k: int|
        0 <= k < cs.len() && first_with_id(s, #[trigger] cs[k].0@) >= 0 ==> s[first_with_id(
            s,
            cs[k].0@,
        )].z == cs[k].1
}

/// Setting the frames after a change and then those before it gives back the
/// elements, where the changes' frames before are those of the elements.
pub proof fn lemma_frames_round_trip(s: Seq<ElementModel>, cs: Seq<(String, Frame, Frame)>)
    requires
        frames_match_befores(s, cs),
    ensures
        frames_set(frames_set(s, cs, true), cs, false) == s,
{
    let t = frames_set(s, cs, true);
    let u = frames_set(t, cs, false);
    lemma_frames_set(s, cs, true);
    lemma_frames_set(t, cs, false);
    assert forall|j: int| 0 <= j < s.len() implies #[trigger] s[j].id == t[j].id by {
        assert(t[j] == ElementModel { frame: t[j].frame, ..s[j] });
    }
    assert forall|k: int| 0 <= k < cs.len() implies first_with_id(t, #[trigger] cs[k].0@) == first_with_id(s, cs[k].0@) by {
        lemma_first_with_id_by_ids(s, t, cs[k].0@);
    }
    assert forall|j: int| 0 <= j < s.len() implies #[trigger] u[j] == s[j] by {
        assert(t[j] == ElementModel { frame: t[j].frame, ..s[j] });
        assert(u[j] == ElementModel { frame: u[j].frame, ..t[j] });
        if exists|k: int| 0 <= k < cs.len() && first_with_id(s, #[trigger] cs[k].0@) == j {
            let k = choose|k: int| 0 <= k < cs.len() && first_with_id(s, #[trigger] cs[k].0@) == j;
            assert(first_with_id(t, cs[k].0@) == j);
            let k2 = choose|k2: int|
                0 <= k2 < cs.len() && first_with_id(t, #[trigger] cs[k2].0@) == j
                    && #[trigger] u[j].frame == cs[k2].1;
            assert(first_with_id(s, cs[k2].0@) == j);
        } else {
            assert forall|k: int| 0 <= k < cs.len() implies first_with_id(t, #[trigger] cs[k].0@) != j by {
                assert(first_with_id(s, cs[k].0@) != j);
            }
        }
    }
    assert(u =~= s);
}

/// As `lemma_frames_round_trip`, for depths.
pub proof fn lemma_depths_round_trip(s: Seq<ElementModel>, cs: Seq<(String, i32, i32)>)
    requires
        depths_match_befores(s, cs),
    ensures
        depths_set(depths_set(s, cs, true), cs, false) == s,
{
    let t = depths_set(s, cs, true);
    let u = depths_set(t, cs, false);
    lemma_depths_set(s, cs, true);
    lemma_depths_set(t, cs, false);
    assert forall|j: int| 0 <= j < s.len() implies #[trigger] s[j].id == t[j].id by {
        assert(t[j] == ElementModel { z: t[j].z, ..s[j] });
    }
    assert forall|k: int| 0 <= k < cs.len() implies first_with_id(t, #[trigger] cs[k].0@) == first_with_id(s, cs[k].0@) by {
        lemma_first_with_id_by_ids(s, t, cs[k].0@);
    }
    assert forall|j: int| 0 <= j < s.len() implies #[trigger] u[j] == s[j] by {
        assert(t[j] == ElementModel { z: t[j].z, ..s[j] });
        assert(u[j] == ElementModel { z: u[j].z, ..t[j] });
        if exists|k: int| 0 <= k < cs.len() && first_with_id(s, #[trigger] cs[k].0@) == j {
            let k = choose|k: int| 0 <= k < cs.len() && first_with_id(s, #[trigger] cs[k].0@) == j;
            assert(first_with_id(t, cs[k].0@) == j);
            let k2 = choose|k2: int|
                0 <= k2 < cs.len() && first_with_id(t, #[trigger] cs[k2].0@) == j
                    && #[trigger] u[j].z == cs[k2].1;
            assert(first_with_id(s, cs[k2].0@) == j);
        } else {
            assert forall|k: int| 0 <= k < cs.len() implies first_with_id(t, #[trigger] cs[k].0@) != j by {
                assert(first_with_id(s, cs[k].0@) != j);
            }
        }
    }
    assert(u =~= s);
}


/// A filter that every item passes keeps the sequence.
pub proof fn lemma_filter_keeps_all<A>(s: Seq<A>, p: spec_fn(A) -> bool)
    requires
        forall|i: int| 0 <= i < s.len() ==> p(#[trigger] s[i]),
    ensures
        s.filter(p) == s,
    decreases s.len(),
{
    if s.len() > 0 {
        lemma_filter_keeps_all(s.drop_last(), p);
        s.drop_last().lemma_filter_push(s.last(), p);
        assert(s.drop_last().push(s.last()) =~= s);
    }
}

/// Whether taking back the deletion of `gone` from `s` gives `s` back: taking it
/// back puts the slide in order of depth with the deleted elements after the kept
/// ones of their depth, so `s` must be in order of depth with, at each depth, the
/// deleted elements after the kept ones.
pub open spec fn deletion_restorable(s: Seq<ElementModel>, gone: Seq<ElementModel>) -> bool {
    let kept = s.filter(id_not_among(ids_of(gone)));
    &&& z_ordered(s)
    &&& forall|k: i32| #[trigger] s.filter(at_depth(k)) == kept.filter(at_depth(k)) + gone.filter(at_depth(k))
}

/// The documents on which taking `c` back after applying it gives them back
/// exactly: those on which the edit's record of the state before it is true.
pub open spec fn reversible_on(c: Edit, d: DocumentModel) -> bool {
    match c {
        Edit::AddElement(c) => c.slide < d.slides.len() && forall|j: int|
            0 <= j < d.slides[c.slide as int].elements.len()
                ==> #[trigger] d.slides[c.slide as int].elements[j].id != c.element@.id,
        Edit::DeleteElements(c) => c.slide < d.slides.len() && deletion_restorable(
            d.slides[c.slide as int].elements,
            elements_model(c.elements@),
        ),
        Edit::ChangeFrames(c) => c.slide < d.slides.len() && frames_match_befores(
            d.slides[c.slide as int].elements,
            c.changes@,
        ),
        Edit::AddSlide(c) => forall|k: int| 0 <= k < d.slides.len() ==> #[trigger] d.slides[k].id != c.slide@.id,
        Edit::DeleteSlide(c) => c.index < d.slides.len() && d.slides[c.index as int] == c.slide@,
        Edit::ReorderSlide(c) => c.from < d.slides.len() && c.to < d.slides.len(),
        Edit::EditNotes(c) => c.slide < d.slides.len() && d.slides[c.slide as int].notes == c.before@,
        Edit::ChangeZ(c) => c.slide < d.slides.len() && depths_match_befores(
            d.slides[c.slide as int].elements,
            c.changes@,
        ),
        Edit::EditElement(c) => c.slide < d.slides.len() && (first_with_id(
            d.slides[c.slide as int].elements,
            c.id@,
        ) >= 0 ==> d.slides[c.slide as int].elements[first_with_id(
            d.slides[c.slide as int].elements,
            c.id@,
        )].kind == c.before@),
        Edit::ChangeTransition(c) => c.slide < d.slides.len() && d.slides[c.slide as int].transition
            == c.before,
    }
}

/// Reverting an edit right after applying it gives back the document it was
/// applied to, wherever the edit's record of the state before it is true; and
/// applying it again gives back the edited document.
pub proof fn lemma_revert_undoes_apply(c: Edit, d: DocumentModel)
    requires
        c.can_apply(d),
        reversible_on(c, d),
    ensures
        c.can_revert(c.applied(d)),
        c.reverted(c.applied(d)) == d,
        c.can_apply(c.reverted(c.applied(d))),
        c.applied(c.reverted(c.applied(d))) == c.applied(d),
{
    match c {
        Edit::AddElement(a) => {
            let i = a.slide as int;
            let s = d.slides[i].elements;
            s.lemma_filter_push(a.element@, id_is_not(a.element@.id));
            lemma_filter_keeps_all(s, id_is_not(a.element@.id));
            assert(d.with_elements(i, s) =~= d);
        },
        Edit::DeleteElements(a) => {
            lemma_deletion_restored(a, d);
        },
        Edit::ChangeFrames(a) => {
            let i = a.slide as int;
            lemma_frames_round_trip(d.slides[i].elements, a.changes@);
            assert(d.with_elements(i, d.slides[i].elements) =~= d);
        },
        Edit::AddSlide(a) => {
            let s = d.slides;
            let at = if a.index < s.len() { a.index as int } else { s.len() as int };
            let p = slide_id_is_not(a.slide@.id);
            let one = Seq::<SlideModel>::empty().push(a.slide@);
            assert(s.insert(at, a.slide@) =~= s.take(at) + one + s.skip(at));
            Seq::filter_distributes_over_add(s.take(at) + one, s.skip(at), p);
            Seq::filter_distributes_over_add(s.take(at), one, p);
            Seq::<SlideModel>::empty().lemma_filter_push(a.slide@, p);
            reveal(Seq::filter);
            assert(Seq::<SlideModel>::empty().filter(p) =~= Seq::<SlideModel>::empty());
            lemma_filter_keeps_all(s.take(at), p);
            lemma_filter_keeps_all(s.skip(at), p);
            assert(s.take(at) + s.skip(at) =~= s);
            assert(d.with_slides(s) =~= d);
        },
        Edit::DeleteSlide(a) => {
            assert(d.slides.remove(a.index as int).insert(a.index as int, a.slide@) =~= d.slides);
            assert(d.with_slides(d.slides) =~= d);
        },
        Edit::ReorderSlide(a) => {
            let f = a.from as int;
            let t = a.to as int;
            assert(moved(moved(d.slides, f, t), t, f) =~= d.slides);
            assert(d.with_slides(d.slides) =~= d);
        },
        Edit::EditNotes(a) => {
            let i = a.slide as int;
            assert(d.with_slide(i, SlideModel { notes: a.before@, ..d.with_slide(i, SlideModel { notes: a.after@, ..d.slides[i] }).slides[i] }) =~= d);
        },
        Edit::ChangeZ(a) => {
            let i = a.slide as int;
            lemma_depths_round_trip(d.slides[i].elements, a.changes@);
            assert(d.with_elements(i, d.slides[i].elements) =~= d);
        },
        Edit::EditElement(a) => {
            let i = a.slide as int;
            let s = d.slides[i].elements;
            let t = update_first(s, a.id@, set_kind(a.after@));
            lemma_first_with_id(s, a.id@);
            assert forall|j: int| 0 <= j < s.len() implies #[trigger] s[j].id == t[j].id by {}
            lemma_first_with_id_by_ids(s, t, a.id@);
            assert(update_first(t, a.id@, set_kind(a.before@)) =~= s);
            assert(d.with_elements(i, s) =~= d);
        },
        Edit::ChangeTransition(a) => {
            let i = a.slide as int;
            assert(d.with_slide(i, SlideModel { transition: a.before, ..d.with_slide(i, SlideModel { transition: a.after, ..d.slides[i] }).slides[i] }) =~= d);
        },
    }
}

/// Undo after execute gives back the document and the history as they were (while
/// the history is under its limit), with the edit ready to redo; redo then gives
/// back the edited document and the history after the execute.
pub proof fn lemma_execute_undo_redo(h: History, c: Edit, d: DocumentModel)
    requires
        c.can_apply(d),
        reversible_on(c, d),
        h.undo.len() < HISTORY_LIMIT,
    ensures
        h.executed(c).undo.len() > 0,
        h.executed(c).undo.last() == c,
        c.can_revert(c.applied(d)),
        c.reverted(c.applied(d)) == d,
        h.executed(c).undone() == (History { undo: h.undo, redo: seq![c] }),
        h.executed(c).undone().redo.last().can_apply(d),
        h.executed(c).undone().redo.last().applied(d) == c.applied(d),
        h.executed(c).undone().redone() == h.executed(c),
{
    lemma_revert_undoes_apply(c, d);
    let h1 = h.executed(c);
    assert(h1.undo == h.undo.push(c));
    assert(h1.undone().undo =~= h.undo);
    assert(h1.undone().redo =~= seq![c]);
    assert(h1.undone().redone().undo =~= h1.undo);
    assert(h1.undone().redone().redo =~= h1.redo);
}

/// The undo and redo lists together never hold more edits than the limit.
pub proof fn lemma_history_bounded(h: History, c: Edit)
    requires
        h.undo.len() + h.redo.len() <= HISTORY_LIMIT,
    ensures
        h.executed(c).undo.len() + h.executed(c).redo.len() <= HISTORY_LIMIT,
        h.undo.len() > 0 ==> h.undone().undo.len() + h.undone().redo.len() <= HISTORY_LIMIT,
        h.redo.len() > 0 ==> h.redone().undo.len() + h.redone().redo.len() <= HISTORY_LIMIT,
{
}

/// Moving a slide keeps every slide, and puts the moved one at its new position.
pub proof fn lemma_reorder_keeps_slides(c: ReorderSlide, d: DocumentModel)
    requires
        c.can_apply(d),
    ensures
        c.applied(d).slides.len() == d.slides.len(),
        c.applied(d).slides[c.to as int] == d.slides[c.from as int],
        c.applied(d).slides.to_multiset() == d.slides.to_multiset(),
{
    broadcast use vstd::seq_lib::group_to_multiset_ensures;
    let s = d.slides;
    let f = c.from as int;
    vstd::seq_lib::to_multiset_remove(s, f);
    vstd::seq_lib::to_multiset_insert(s.remove(f), c.to as int, s[f]);
    assert(s.to_multiset().remove(s[f]).insert(s[f]) =~= s.to_multiset());
}

/// Whether the elements are in order of depth.
pub open spec fn z_ordered(s: Seq<ElementModel>) -> bool {
    forall|i: int, j: int| 0 <= i <= j < s.len() ==> #[trigger] s[i].z <= #[trigger] s[j].z
}

/// Putting elements in order of depth orders them and keeps each of them.
pub proof fn lemma_z_sorted(s: Seq<ElementModel>)
    ensures
        z_ordered(z_sorted(s)),
        z_sorted(s).to_multiset() == s.to_multiset(),
    decreases s.len(),
{
    broadcast use vstd::seq_lib::group_to_multiset_ensures;
    if s.len() > 0 {
        let x = s.last();
        let sorted = z_sorted(s.drop_last());
        lemma_z_sorted(s.drop_last());
        lemma_first_above(sorted, x.z);
        let p = first_above(sorted, x.z);
        let r = sorted.insert(p, x);
        assert forall|i: int, j: int| 0 <= i <= j < r.len() implies #[trigger] r[i].z <= #[trigger] r[j].z by {
            if i < p && j < p {
                assert(r[i] == sorted[i] && r[j] == sorted[j]);
            } else if i < p && j == p {
                assert(r[i] == sorted[i]);
            } else if i < p {
                assert(r[i] == sorted[i] && r[j] == sorted[j - 1]);
            } else if i == p && j == p {
            } else if i == p {
                assert(r[j] == sorted[j - 1]);
                assert(sorted[p].z > x.z);
                assert(sorted[p].z <= sorted[j - 1].z);
            } else {
                assert(r[i] == sorted[i - 1] && r[j] == sorted[j - 1]);
            }
        }
        assert(s.drop_last().push(x) =~= s);
    }
}

/// The elements that a filter keeps and those it drops are, together, the elements.
pub proof fn lemma_filter_split(s: Seq<ElementModel>, p: spec_fn(ElementModel) -> bool)
    ensures
        s.filter(p).to_multiset().add(s.filter(|e: ElementModel| !p(e)).to_multiset())
            == s.to_multiset(),
    decreases s.len(),
{
    broadcast use vstd::seq_lib::group_to_multiset_ensures;
    broadcast use vstd::multiset::group_multiset_axioms;
    let q = |e: ElementModel| !p(e);
    if s.len() == 0 {
        reveal(Seq::filter);
        assert(s.filter(p) =~= s);
        assert(s.filter(q) =~= s);
        assert(s.to_multiset().add(s.to_multiset()) =~= s.to_multiset());
    } else {
        let t = s.drop_last();
        let x = s.last();
        lemma_filter_split(t, p);
        t.lemma_filter_push(x, p);
        t.lemma_filter_push(x, q);
        assert(t.push(x) =~= s);
        if p(x) {
            assert(s.filter(p).to_multiset().add(s.filter(q).to_multiset()) =~= t.to_multiset().insert(x));
        } else {
            assert(s.filter(p).to_multiset().add(s.filter(q).to_multiset()) =~= t.to_multiset().insert(x));
        }
    }
}

/// Taking back a deletion of the elements of a slide that have some identifiers,
/// where `elements` are those elements in slide order, gives back every element of
/// the slide, in order of depth.
pub proof fn lemma_delete_elements_round_trip(c: DeleteElements, d: DocumentModel)
    requires
        c.can_apply(d),
        elements_model(c.elements@) == d.slides[c.slide as int].elements.filter(
            |e: ElementModel| !id_not_among(ids_of(elements_model(c.elements@)))(e),
        ),
    ensures
        c.can_revert(c.applied(d)),
        c.reverted(c.applied(d)).slides.len() == d.slides.len(),
        forall|k: int| 0 <= k < d.slides.len() && k != c.slide ==> #[trigger] c.reverted(c.applied(d)).slides[k] == d.slides[k],
        z_ordered(c.reverted(c.applied(d)).slides[c.slide as int].elements),
        c.reverted(c.applied(d)).slides[c.slide as int].elements.to_multiset()
            == d.slides[c.slide as int].elements.to_multiset(),
        c.reverted(c.applied(d)).slides[c.slide as int] == (SlideModel {
            elements: c.reverted(c.applied(d)).slides[c.slide as int].elements,
            ..d.slides[c.slide as int]
        }),
{
    broadcast use vstd::seq_lib::group_to_multiset_ensures;
    let i = c.slide as int;
    let s = d.slides[i].elements;
    let p = id_not_among(ids_of(elements_model(c.elements@)));
    let kept = s.filter(p);
    let gone = elements_model(c.elements@);
    lemma_filter_split(s, p);
    lemma_z_sorted(kept + gone);
    vstd::seq_lib::lemma_multiset_commutative(kept, gone);
}

/// Elements already in order of depth stay as they are.
pub proof fn lemma_z_sorted_keeps_ordered(s: Seq<ElementModel>)
    requires
        z_ordered(s),
    ensures
        z_sorted(s) == s,
    decreases s.len(),
{
    if s.len() > 0 {
        let t = s.drop_last();
        assert(z_ordered(t));
        lemma_z_sorted_keeps_ordered(t);
        lemma_first_above(t, s.last().z);
        let p = first_above(t, s.last().z);
        if p < t.len() {
            assert(t[p].z <= s.last().z);
        }
        assert(t.insert(t.len() as int, s.last()) =~= s);
    }
}

/// The elements at depth `k`.
pub open spec fn at_depth(k: i32) -> spec_fn(ElementModel) -> bool {
    |e: ElementModel| e.z == k
}

/// A filter that no item passes keeps nothing.
proof fn lemma_filter_keeps_none<A>(s: Seq<A>, p: spec_fn(A) -> bool)
    requires
        forall|i: int| 0 <= i < s.len() ==> !p(#[trigger] s[i]),
    ensures
        s.filter(p) == Seq::<A>::empty(),
{
    s.lemma_all_neg_filter_empty(p);
    assert(s.filter(p) =~= Seq::<A>::empty());
}

/// Putting elements in order of depth keeps the order of the elements of each depth.
pub proof fn lemma_z_sorted_stable(x: Seq<ElementModel>, k: i32)
    ensures
        z_sorted(x).filter(at_depth(k)) == x.filter(at_depth(k)),
    decreases x.len(),
{
    if x.len() > 0 {
        let t = x.drop_last();
        let e = x.last();
        let r = z_sorted(t);
        let p = first_above(r, e.z);
        let pred = at_depth(k);
        lemma_z_sorted_stable(t, k);
        lemma_z_sorted(t);
        lemma_first_above(r, e.z);
        let one = Seq::<ElementModel>::empty().push(e);
        assert(r.insert(p, e) =~= r.take(p) + one + r.skip(p));
        assert(r =~= r.take(p) + r.skip(p));
        Seq::filter_distributes_over_add(r.take(p) + one, r.skip(p), pred);
        Seq::filter_distributes_over_add(r.take(p), one, pred);
        Seq::filter_distributes_over_add(r.take(p), r.skip(p), pred);
        Seq::<ElementModel>::empty().lemma_filter_push(e, pred);
        lemma_filter_keeps_none(Seq::<ElementModel>::empty(), pred);
        t.lemma_filter_push(e, pred);
        assert(t.push(e) =~= x);
        if e.z == k {
            assert forall|i: int| 0 <= i < r.skip(p).len() implies !pred(#[trigger] r.skip(p)[i]) by {
                assert(r.skip(p)[i] == r[p + i]);
                assert(r[p].z <= r[p + i].z);
            }
            lemma_filter_keeps_none(r.skip(p), pred);
            assert(r.filter(pred) =~= r.take(p).filter(pred));
        }
    }
}

/// Where the elements at each depth agree, an empty sequence faces an empty one.
proof fn lemma_same_depths_empty(a: Seq<ElementModel>, b: Seq<ElementModel>)
    requires
        a.len() == 0,
        forall|k: i32| #[trigger] a.filter(at_depth(k)) == b.filter(at_depth(k)),
    ensures
        b.len() == 0,
{
    if b.len() > 0 {
        let k = b[0].z;
        b.lemma_filter_contains(at_depth(k), 0);
        assert(a.filter(at_depth(k)) == b.filter(at_depth(k)));
        a.lemma_filter_len(at_depth(k));
    }
}

/// Where the elements at each depth agree, two sequences in order of depth end with
/// the same element.
proof fn lemma_same_depths_last(a: Seq<ElementModel>, b: Seq<ElementModel>)
    requires
        a.len() > 0,
        b.len() > 0,
        z_ordered(a),
        z_ordered(b),
        forall|k: i32| #[trigger] a.filter(at_depth(k)) == b.filter(at_depth(k)),
    ensures
        a.last() == b.last(),
{
    let ma = a.last().z;
    let mb = b.last().z;
    a.lemma_filter_contains(at_depth(ma), a.len() - 1);
    assert(a.filter(at_depth(ma)) == b.filter(at_depth(ma)));
    b.lemma_filter_contains_rev(at_depth(ma), a.last());
    let i = choose|i: int| 0 <= i < b.len() && b[i] == a.last();
    assert(b[i].z <= b[b.len() - 1].z);
    b.lemma_filter_contains(at_depth(mb), b.len() - 1);
    assert(a.filter(at_depth(mb)) == b.filter(at_depth(mb)));
    a.lemma_filter_contains_rev(at_depth(mb), b.last());
    let j = choose|j: int| 0 <= j < a.len() && a[j] == b.last();
    assert(a[j].z <= a[a.len() - 1].z);
    let ta = a.drop_last();
    let tb = b.drop_last();
    assert(ta.push(a.last()) =~= a);
    assert(tb.push(b.last()) =~= b);
    assert(ma == mb);
    ta.lemma_filter_push(a.last(), at_depth(ma));
    tb.lemma_filter_push(b.last(), at_depth(ma));
    assert(at_depth(ma)(a.last()));
    assert(at_depth(ma)(b.last()));
    assert(a.filter(at_depth(ma)) == ta.filter(at_depth(ma)).push(a.last()));
    assert(b.filter(at_depth(ma)) == tb.filter(at_depth(ma)).push(b.last()));
    assert(a.filter(at_depth(ma)).last() == a.last());
    assert(b.filter(at_depth(ma)).last() == b.last());
}

/// Dropping the same last element keeps the elements at each depth in agreement.
proof fn lemma_same_depths_drop_last(a: Seq<ElementModel>, b: Seq<ElementModel>)
    requires
        a.len() > 0,
        b.len() > 0,
        a.last() == b.last(),
        forall|k: i32| #[trigger] a.filter(at_depth(k)) == b.filter(at_depth(k)),
    ensures
        forall|k: i32| #[trigger] a.drop_last().filter(at_depth(k)) == b.drop_last().filter(at_depth(k)),
{
    let ta = a.drop_last();
    let tb = b.drop_last();
    let x = a.last();
    assert(ta.push(x) =~= a);
    assert(tb.push(x) =~= b);
    assert forall|k: i32| #[trigger] ta.filter(at_depth(k)) == tb.filter(at_depth(k)) by {
        ta.lemma_filter_push(x, at_depth(k));
        tb.lemma_filter_push(x, at_depth(k));
        assert(a.filter(at_depth(k)) == b.filter(at_depth(k)));
        if x.z == k {
            assert(ta.filter(at_depth(k)) =~= a.filter(at_depth(k)).drop_last());
            assert(tb.filter(at_depth(k)) =~= b.filter(at_depth(k)).drop_last());
        }
    }
}

/// Two sequences in order of depth with the same elements, in the same order, at
/// each depth are the same sequence.
pub proof fn lemma_z_ordered_unique(a: Seq<ElementModel>, b: Seq<ElementModel>)
    requires
        z_ordered(a),
        z_ordered(b),
        forall|k: i32| #[trigger] a.filter(at_depth(k)) == b.filter(at_depth(k)),
    ensures
        a == b,
    decreases a.len(),
{
    if a.len() == 0 {
        lemma_same_depths_empty(a, b);
        assert(a =~= b);
    } else {
        assert forall|k: i32| #[trigger] b.filter(at_depth(k)) == a.filter(at_depth(k)) by {
            assert(a.filter(at_depth(k)) == b.filter(at_depth(k)));
        }
        if b.len() == 0 {
            lemma_same_depths_empty(b, a);
        }
        lemma_same_depths_last(a, b);
        lemma_same_depths_drop_last(a, b);
        lemma_z_ordered_unique(a.drop_last(), b.drop_last());
        assert(a.drop_last().push(a.last()) =~= a);
        assert(b.drop_last().push(b.last()) =~= b);
    }
}

/// Taking back a deletion restores the slide where `deletion_restorable` holds.
pub proof fn lemma_deletion_restored(c: DeleteElements, d: DocumentModel)
    requires
        c.slide < d.slides.len(),
        deletion_restorable(d.slides[c.slide as int].elements, elements_model(c.elements@)),
    ensures
        c.reverted(c.applied(d)) == d,
{
    let i = c.slide as int;
    let s = d.slides[i].elements;
    let gone = elements_model(c.elements@);
    let kept = s.filter(id_not_among(ids_of(gone)));
    let r = z_sorted(kept + gone);
    let a = c.applied(d);
    assert(a == d.with_elements(i, kept));
    assert(a.slides[i].elements == kept);
    assert(c.reverted(a) == a.with_elements(i, r));
    lemma_z_sorted(kept + gone);
    assert forall|k: i32| #[trigger] r.filter(at_depth(k)) == s.filter(at_depth(k)) by {
        lemma_z_sorted_stable(kept + gone, k);
        Seq::filter_distributes_over_add(kept, gone, at_depth(k));
    }
    lemma_z_ordered_unique(r, s);
    assert(a.with_elements(i, s) =~= d);
}

/// Every edit, applied or taken back, leaves the theme as it was, so a well-formed
/// document stays well formed.
pub proof fn lemma_edits_keep_theme(c: Edit, d: DocumentModel)
    ensures
        c.applied(d).theme == d.theme,
        c.reverted(d).theme == d.theme,
        d.well_formed() ==> c.applied(d).well_formed() && c.reverted(d).well_formed(),
{
}

} // verus!
