//! The editor window's decisions: which slide stays active, what a click selects,
//! which edits the selection makes, and the window's title.
use vstd::prelude::*;
use crate::io::pulso_file::media_entry;
use crate::model::commands::{
    find_first, first_with_id, frames_set, lemma_first_with_id, moved, AddSlide, ChangeFrames,
    ChangeZ, Command,
    DeleteElements, DeleteSlide, Edit, EditElement, ReorderSlide,
};
use crate::canvas::text_overlay::{plain_update, update_from_plain};
use crate::model::laws::{lemma_frames_set, reversible_on, same_but_frames};
use crate::model::document::{
    DocumentModel, elements_model, is_generated_id, is_new_element, is_new_slide, Document, Element,
    ElementKind,
    ElementModel, Frame, ImageFit, KindModel, Scalar, ShapeType, Slide, SlideModel,
    TransitionType,
};
use crate::show::{KEY_DOWN, KEY_LEFT, KEY_RIGHT, KEY_UP};
use crate::text::{push_decimal, same_text};

verus! {

broadcast use vstd::seq_lib::group_seq_properties;

// ---------------------------------------------------------------------------
// The active slide
// ---------------------------------------------------------------------------

/// Whether the slide at `index` of `len` slides can be deleted: the last slide stays.
pub fn can_delete_slide(index: usize, len: usize) -> (r: bool)
    ensures
        r == (len > 1 && index < len),
{
    len > 1 && index < len
}

/// The active slide after the slide at `index` of `len` slides is deleted: the
/// same slide where it stays, else the one that takes the deleted one's place
/// (or the new last one).
pub open spec fn active_after_delete_spec(active: int, index: int, len: int) -> int {
    if active == index {
        if index < len - 2 { index } else { len - 2 }
    } else if active > index {
        active - 1
    } else {
        active
    }
}

pub fn active_after_delete(active: usize, index: usize, len: usize) -> (r: usize)
    requires
        len > 1,
        index < len,
        active < len,
    ensures
        r == active_after_delete_spec(active as int, index as int, len as int),
        r < len - 1,
{
    if active == index {
        if index < len - 2 { index } else { len - 2 }
    } else if active > index {
        active - 1
    } else {
        active
    }
}

/// Deleting a slide other than the active one leaves the same slide active, at
/// its place among the remaining slides; deleting the active slide makes active
/// the slide that took its place, or the one before where it was the last. The
/// active position is always a slide that remains.
pub proof fn lemma_delete_keeps_active<T>(slides: Seq<T>, active: int, index: int)
    requires
        slides.len() > 1,
        0 <= index < slides.len(),
        0 <= active < slides.len(),
    ensures
        0 <= active_after_delete_spec(active, index, slides.len() as int) < slides.remove(index).len(),
        active != index ==> slides.remove(index)[active_after_delete_spec(
            active,
            index,
            slides.len() as int,
        )] == slides[active],
        active == index && index + 1 < slides.len() ==> slides.remove(index)[active_after_delete_spec(
            active,
            index,
            slides.len() as int,
        )] == slides[index + 1],
        active == index && index + 1 == slides.len() ==> slides.remove(index)[active_after_delete_spec(
            active,
            index,
            slides.len() as int,
        )] == slides[index - 1],
{
}

/// The active slide after slide `from` moves to position `to`: it follows the
/// slide that was active.
pub open spec fn active_after_reorder_spec(active: int, from: int, to: int) -> int {
    if active == from {
        to
    } else if from < active && to >= active {
        active - 1
    } else if from > active && to <= active {
        active + 1
    } else {
        active
    }
}

pub fn active_after_reorder(active: usize, from: usize, to: usize, len: usize) -> (r: usize)
    requires
        active < len,
        from < len,
        to < len,
    ensures
        r == active_after_reorder_spec(active as int, from as int, to as int),
        r < len,
{
    if active == from {
        to
    } else if from < active && to >= active {
        active - 1
    } else if from > active && to <= active {
        active + 1
    } else {
        active
    }
}

/// Whether a slide move from `from` to `to` among `len` slides is made at all.
pub fn can_reorder(from: usize, to: usize, len: usize) -> (r: bool)
    ensures
        r == (from != to && from < len && to < len),
{
    from != to && from < len && to < len
}

/// After a move of slide `from` to `to`, the active position still shows the
/// slide that was active.
pub proof fn lemma_reorder_follows_active(s: Seq<SlideModel>, active: int, from: int, to: int)
    requires
        0 <= active < s.len(),
        0 <= from < s.len(),
        0 <= to < s.len(),
    ensures
        moved(s, from, to)[active_after_reorder_spec(active, from, to)] == s[active],
{
    let r = s.remove(from);
    let m = r.insert(to, s[from]);
    if active == from {
    } else if from < active {
        assert(r[active - 1] == s[active]);
        if to >= active {
            assert(m[active - 1] == r[active - 1]);
        } else {
            assert(m[active] == r[active - 1]);
        }
    } else {
        assert(r[active] == s[active]);
        if to <= active {
            assert(m[active + 1] == r[active]);
        } else {
            assert(m[active] == r[active]);
        }
    }
}

// ---------------------------------------------------------------------------
// Selection
// ---------------------------------------------------------------------------

/// The identifiers other than `id`.
pub open spec fn other_than(id: Seq<char>) -> spec_fn(Seq<char>) -> bool {
    |x: Seq<char>| x != id
}

/// The selection after a click that found `found` (the topmost element under the
/// pointer, if any), with or without Shift: without Shift the selection starts
/// afresh; with Shift a found element that was selected leaves the selection;
/// otherwise a found element not yet selected joins it at the end.
pub open spec fn clicked(selected: Seq<Seq<char>>, found: Option<Seq<char>>, shift: bool) -> Seq<
    Seq<char>,
> {
    let base = if shift { selected } else { Seq::empty() };
    match found {
        Some(id) => if shift && base.contains(id) {
            base.filter(other_than(id))
        } else if !base.contains(id) {
            base.push(id)
        } else {
            base
        },
        None => base,
    }
}

/// Whether `id` is among `selected`.
pub fn is_selected(selected: &Vec<String>, id: &String) -> (r: bool)
    ensures
        r == selected@.map_values(|s: String| s@).contains(id@),
{
    let ghost ids = selected@.map_values(|s: String| s@);
    let n = selected.len();
    let mut i: usize = 0;
    while i < n
        invariant
            n == selected@.len(),
            ids == selected@.map_values(|s: String| s@),
            i <= n,
            forall|k: int| 0 <= k < i ==> ids[k] != id@,
        decreases n - i,
    {
        if selected[i] == *id {
            assert(ids[i as int] == id@);
            return true;
        }
        i = i + 1;
    }
    false
}

/// Applies a click to the selection.
pub fn click(selected: &mut Vec<String>, found: Option<String>, shift: bool)
    ensures
        final(selected)@.map_values(|s: String| s@) == clicked(
            old(selected)@.map_values(|s: String| s@),
            match found {
                Some(f) => Some(f@),
                None => None,
            },
            shift,
        ),
        !shift ==> final(selected)@.map_values(|s: String| s@) == (match found {
            Some(f) => seq![f@],
            None => Seq::<Seq<char>>::empty(),
        }),
{
    proof {
        let fm: Option<Seq<char>> = if found is Some {
            Some(found->0@)
        } else {
            None
        };
        lemma_click_selects(old(selected)@.map_values(|s: String| s@), fm, shift);
    }
    if !shift {
        selected.clear();
    }
    let ghost base = selected@.map_values(|s: String| s@);
    assert(base =~= (if shift { old(selected)@.map_values(|s: String| s@) } else { Seq::empty() }));
    match found {
        Some(id) => {
            let present = is_selected(selected, &id);
            if shift && present {
                let mut kept: Vec<String> = Vec::new();
                let n = selected.len();
                let mut i: usize = 0;
                let ghost p = other_than(id@);
                while i < n
                    invariant
                        n == selected@.len(),
                        i <= n,
                        base == selected@.map_values(|s: String| s@),
                        p == other_than(id@),
                        kept@.map_values(|s: String| s@) == base.take(i as int).filter(p),
                    decreases n - i,
                {
                    let ghost before = kept@.map_values(|s: String| s@);
                    assert(base.take(i + 1) =~= base.take(i as int).push(base[i as int]));
                    proof {
                        base.take(i as int).lemma_filter_push(base[i as int], p);
                    }
                    if !(selected[i] == id) {
                        kept.push(selected[i].clone());
                        assert(kept@.map_values(|s: String| s@) =~= before.push(base[i as int]));
                    }
                    i = i + 1;
                }
                assert(base.take(n as int) =~= base);
                *selected = kept;
            } else if !present {
                selected.push(id);
                assert(selected@.map_values(|s: String| s@) =~= base.push(id@));
            }
        },
        None => {},
    }
}

/// What a click does to the selection: without Shift it holds just the element
/// found, or nothing where the click found none; with Shift a found element that
/// was selected leaves the selection and every other element stays, a found
/// element not yet selected joins it at the end, and a click on nothing keeps it.
pub proof fn lemma_click_selects(selected: Seq<Seq<char>>, found: Option<Seq<char>>, shift: bool)
    ensures
        !shift ==> clicked(selected, found, shift) == (match found {
            Some(id) => seq![id],
            None => Seq::<Seq<char>>::empty(),
        }),
        shift && found is None ==> clicked(selected, found, shift) == selected,
        found matches Some(id) ==> (shift && !selected.contains(id) ==> clicked(selected, found, shift)
            == selected.push(id)),
        found matches Some(id) ==> (shift && selected.contains(id) ==> !clicked(
            selected,
            found,
            shift,
        ).contains(id) && forall|x: Seq<char>|
            x != id ==> (#[trigger] clicked(selected, found, shift).contains(x) <==> selected.contains(
                x,
            ))),
{
    broadcast use vstd::seq_lib::group_filter_ensures;

    if !shift {
        match found {
            Some(id) => {
                assert(Seq::<Seq<char>>::empty().push(id) =~= seq![id]);
            },
            None => {},
        }
    }
    if shift {
        match found {
            Some(id) => {
                if selected.contains(id) {
                    let r = selected.filter(other_than(id));
                    assert forall|x: Seq<char>| x != id implies (#[trigger] r.contains(x) <==> selected.contains(x)) by {
                        if selected.contains(x) {
                            let k = choose|k: int| 0 <= k < selected.len() && selected[k] == x;
                            assert(other_than(id)(selected[k]));
                        }
                        if r.contains(x) {
                            selected.lemma_filter_contains_rev(other_than(id), x);
                        }
                    }
                    if r.contains(id) {
                        let k = choose|k: int| 0 <= k < r.len() && r[k] == id;
                        assert(other_than(id)(r[k]));
                    }
                }
            },
            None => {},
        }
    }
}

/// Whether the `i`-th element is the one a click finds, where `hits[j]` says whether
/// the pointer lies on the `j`-th element: an element hit, of the highest depth
/// among those hit, and the last such one in slide order.
pub open spec fn is_topmost_hit(elements: Seq<ElementModel>, hits: Seq<bool>, i: int) -> bool {
    &&& 0 <= i < elements.len()
    &&& hits[i]
    &&& forall|j: int| 0 <= j < elements.len() && hits[j] ==> elements[j].z <= elements[i].z
    &&& forall|j: int| i < j < elements.len() && hits[j] ==> elements[j].z < elements[i].z
}

/// The position of the element a click finds among those under the pointer, or
/// none where the pointer is on no element.
pub fn topmost_hit(elements: &Vec<Element>, hits: &Vec<bool>) -> (r: Option<usize>)
    requires
        hits@.len() == elements@.len(),
    ensures
        r is None <==> forall|j: int| 0 <= j < hits@.len() ==> !hits@[j],
        r matches Some(i) ==> is_topmost_hit(elements_model(elements@), hits@, i as int),
{
    let ghost m = elements_model(elements@);
    let n = elements.len();
    let mut best: Option<usize> = None;
    let mut i: usize = 0;
    while i < n
        invariant
            n == elements@.len(),
            n == hits@.len(),
            m == elements_model(elements@),
            i <= n,
            best is None <==> forall|j: int| 0 <= j < i ==> !hits@[j],
            best matches Some(b) ==> {
                &&& b < i
                &&& hits@[b as int]
                &&& forall|j: int| 0 <= j < i && hits@[j] ==> m[j].z <= m[b as int].z
                &&& forall|j: int| b < j < i && hits@[j] ==> m[j].z < m[b as int].z
            },
        decreases n - i,
    {
        if hits[i] {
            match best {
                Some(b) => {
                    if elements[b].z <= elements[i].z {
                        best = Some(i);
                    }
                },
                None => {
                    best = Some(i);
                },
            }
        }
        i = i + 1;
    }
    best
}

// ---------------------------------------------------------------------------
// Edits made from the selection
// ---------------------------------------------------------------------------

/// `z + delta`, held to the range of `i32`.
pub open spec fn saturated(z: i32, delta: i32) -> i32 {
    if z + delta > i32::MAX {
        i32::MAX
    } else if z + delta < i32::MIN {
        i32::MIN
    } else {
        (z + delta) as i32
    }
}

fn saturating_add(z: i32, delta: i32) -> (r: i32)
    ensures
        r == saturated(z, delta),
{
    if delta > 0 && z > i32::MAX - delta {
        i32::MAX
    } else if delta < 0 && z < i32::MIN - delta {
        i32::MIN
    } else {
        z + delta
    }
}

/// The depth changes that moving the selection `delta` levels makes: for each
/// selected element, in slide order, its identifier, its depth and its depth
/// moved by `delta` (held to the range of `i32`).
pub open spec fn depth_changes(
    elements: Seq<ElementModel>,
    selected: Seq<Seq<char>>,
    delta: i32,
) -> Seq<(Seq<char>, i32, i32)> {
    elements.filter(|e: ElementModel| selected.contains(e.id)).map_values(
        |e: ElementModel| (e.id, e.z, saturated(e.z, delta)),
    )
}

/// The edit that moves the selected elements of slide `slide` `delta` levels
/// up (positive) or down, or none where nothing is selected on it.
pub fn change_z(slide: usize, elements: &Vec<Element>, selected: &Vec<String>, delta: i32) -> (r:
    Option<ChangeZ>)
    ensures
        r is None <==> depth_changes(elements_model(elements@), selected@.map_values(|s: String| s@), delta).len() == 0,
        r matches Some(c) ==> c.slide == slide && c.changes@.map_values(
            |c: (String, i32, i32)| (c.0@, c.1, c.2),
        ) == depth_changes(elements_model(elements@), selected@.map_values(|s: String| s@), delta),
{
    let ghost sel = selected@.map_values(|s: String| s@);
    let ghost pick = |e: ElementModel| sel.contains(e.id);
    let ghost to_change = |e: ElementModel| (e.id, e.z, saturated(e.z, delta));
    let ghost view = |c: (String, i32, i32)| (c.0@, c.1, c.2);
    let mut changes: Vec<(String, i32, i32)> = Vec::new();
    let n = elements.len();
    let mut i: usize = 0;
    while i < n
        invariant
            n == elements@.len(),
            i <= n,
            sel == selected@.map_values(|s: String| s@),
            pick == (|e: ElementModel| sel.contains(e.id)),
            to_change == (|e: ElementModel| (e.id, e.z, saturated(e.z, delta))),
            view == (|c: (String, i32, i32)| (c.0@, c.1, c.2)),
            changes@.map_values(view) == elements_model(elements@.take(i as int)).filter(pick).map_values(to_change),
        decreases n - i,
    {
        let ghost m = elements_model(elements@.take(i as int));
        let ghost before = changes@.map_values(view);
        assert(elements_model(elements@.take(i + 1)) =~= m.push(elements@[i as int]@));
        proof {
            m.lemma_filter_push(elements@[i as int]@, pick);
        }
        let e = &elements[i];
        if is_selected(selected, &e.id) {
            changes.push((e.id.clone(), e.z, saturating_add(e.z, delta)));
            assert(changes@.map_values(view) =~= before.push(to_change(e@)));
            assert(m.filter(pick).push(e@).map_values(to_change) =~= m.filter(pick).map_values(to_change).push(to_change(e@)));
        }
        i = i + 1;
    }
    assert(elements@.take(n as int) =~= elements@);
    if changes.len() == 0 {
        None
    } else {
        Some(ChangeZ { slide, changes })
    }
}

/// Copies of the selected elements of a slide, in slide order.
pub fn selected_elements(elements: &Vec<Element>, selected: &Vec<String>) -> (r: Vec<Element>)
    ensures
        elements_model(r@) == elements_model(elements@).filter(
            |e: ElementModel| selected@.map_values(|s: String| s@).contains(e.id),
        ),
{
    let ghost sel = selected@.map_values(|s: String| s@);
    let ghost pick = |e: ElementModel| sel.contains(e.id);
    let mut r: Vec<Element> = Vec::new();
    let n = elements.len();
    let mut i: usize = 0;
    while i < n
        invariant
            n == elements@.len(),
            i <= n,
            sel == selected@.map_values(|s: String| s@),
            pick == (|e: ElementModel| sel.contains(e.id)),
            elements_model(r@) == elements_model(elements@.take(i as int)).filter(pick),
        decreases n - i,
    {
        let ghost m = elements_model(elements@.take(i as int));
        let ghost before = r@;
        assert(elements_model(elements@.take(i + 1)) =~= m.push(elements@[i as int]@));
        proof {
            m.lemma_filter_push(elements@[i as int]@, pick);
        }
        if is_selected(selected, &elements[i].id) {
            let e = elements[i].clone();
            r.push(e);
            assert(elements_model(r@) =~= elements_model(before).push(e@));
        }
        i = i + 1;
    }
    assert(elements@.take(n as int) =~= elements@);
    r
}

/// The edit that deletes the selected elements of slide `slide`, or none where the
/// selection is empty.
pub fn delete_selected(slide: usize, elements: &Vec<Element>, selected: &Vec<String>) -> (r: Option<
    DeleteElements,
>)
    ensures
        r is None <==> selected@.len() == 0,
        r matches Some(c) ==> c.slide == slide && elements_model(c.elements@) == elements_model(
            elements@,
        ).filter(|e: ElementModel| selected@.map_values(|s: String| s@).contains(e.id)),
{
    let chosen = selected_elements(elements, selected);
    if selected.len() == 0 {
        None
    } else {
        Some(DeleteElements { slide, elements: chosen })
    }
}

/// The frame changes that a drag made: for each dragged element (by identifier,
/// with its frame when the drag began) that is still on the slide, in drag order,
/// its identifier, that frame, and the frame of the first element with the
/// identifier now.
pub open spec fn drag_change_list(
    before: Seq<(Seq<char>, Frame)>,
    elements: Seq<ElementModel>,
) -> Seq<(Seq<char>, Frame, Frame)> {
    before.filter(|b: (Seq<char>, Frame)| first_with_id(elements, b.0) >= 0).map_values(
        |b: (Seq<char>, Frame)| (b.0, b.1, elements[first_with_id(elements, b.0)].frame),
    )
}

/// What a drag's record does: executing it changes nothing, since the dragged
/// elements already stand where the drag left them; taking it back puts each
/// dragged element still on the slide back at its frame when the drag began, and
/// leaves every other frame and everything else as it was. The dragged elements
/// are told apart by their identifiers.
pub proof fn lemma_drag_undo(d: DocumentModel, c: ChangeFrames, before: Seq<(Seq<char>, Frame)>)
    requires
        c.slide < d.slides.len(),
        c.changes@.map_values(|x: (String, Frame, Frame)| (x.0@, x.1, x.2)) == drag_change_list(
            before,
            d.slides[c.slide as int].elements,
        ),
        forall|a: int, b: int|
            #![trigger before[a], before[b]]
            0 <= a < b < before.len() ==> before[a].0 != before[b].0,
    ensures
        c.applied(d) == d,
        same_but_frames(
            d.slides[c.slide as int].elements,
            c.reverted(d).slides[c.slide as int].elements,
        ),
        c.reverted(d) == d.with_elements(
            c.slide as int,
            c.reverted(d).slides[c.slide as int].elements,
        ),
        forall|k: int|
            0 <= k < before.len() && first_with_id(d.slides[c.slide as int].elements, #[trigger] before[k].0)
                >= 0 ==> c.reverted(d).slides[c.slide as int].elements[first_with_id(
                d.slides[c.slide as int].elements,
                before[k].0,
            )].frame == before[k].1,
        forall|j: int|
            0 <= j < d.slides[c.slide as int].elements.len() && (forall|k: int|
                0 <= k < before.len() ==> first_with_id(
                    d.slides[c.slide as int].elements,
                    #[trigger] before[k].0,
                ) != j) ==> c.reverted(d).slides[c.slide as int].elements[j].frame
                == d.slides[c.slide as int].elements[j].frame,
{
    let i = c.slide as int;
    let s = d.slides[i].elements;
    let cs = c.changes@;
    let p = |b: (Seq<char>, Frame)| first_with_id(s, b.0) >= 0;
    let kept = before.filter(p);
    let model = cs.map_values(|x: (String, Frame, Frame)| (x.0@, x.1, x.2));
    assert(model == kept.map_values(
        |b: (Seq<char>, Frame)| (b.0, b.1, s[first_with_id(s, b.0)].frame),
    ));
    assert(model.len() == kept.len());
    assert forall|k: int| 0 <= k < cs.len() implies #[trigger] cs[k].0@ == kept[k].0 && cs[k].1
        == kept[k].1 && cs[k].2 == s[first_with_id(s, kept[k].0)].frame by {
        assert(model[k] == (cs[k].0@, cs[k].1, cs[k].2));
    }
    broadcast use vstd::seq_lib::group_filter_ensures;
    // Executing the record.
    let t = frames_set(s, cs, true);
    lemma_frames_set(s, cs, true);
    assert forall|j: int| 0 <= j < s.len() implies #[trigger] t[j] == s[j] by {
        assert(t[j] == ElementModel { frame: t[j].frame, ..s[j] });
        if exists|k: int| 0 <= k < cs.len() && first_with_id(s, #[trigger] cs[k].0@) == j {
            let k = choose|k: int| 0 <= k < cs.len() && first_with_id(s, #[trigger] cs[k].0@) == j;
            let k2 = choose|k2: int|
                0 <= k2 < cs.len() && first_with_id(s, #[trigger] cs[k2].0@) == j
                    && #[trigger] t[j].frame == cs[k2].2;
            assert(cs[k2].2 == s[first_with_id(s, kept[k2].0)].frame);
        }
    }
    assert(t =~= s);
    assert(d.slides.update(i, d.slides[i].with_elements(s)) =~= d.slides);
    // Taking it back.
    let u = frames_set(s, cs, false);
    lemma_frames_set(s, cs, false);
    assert forall|k: int|
        0 <= k < before.len() && first_with_id(s, #[trigger] before[k].0) >= 0 implies u[first_with_id(
        s,
        before[k].0,
    )].frame == before[k].1 by {
        let id = before[k].0;
        let j = first_with_id(s, id);
        lemma_first_with_id(s, id);
        assert(p(before[k]));
        assert(kept.contains(before[k]));
        let k1 = choose|k1: int| 0 <= k1 < kept.len() && kept[k1] == before[k];
        assert(first_with_id(s, cs[k1].0@) == j);
        let k2 = choose|k2: int|
            0 <= k2 < cs.len() && first_with_id(s, #[trigger] cs[k2].0@) == j
                && #[trigger] u[j].frame == cs[k2].1;
        lemma_first_with_id(s, kept[k2].0);
        assert(kept[k2].0 == s[j].id);
        before.lemma_filter_contains_rev(p, kept[k2]);
        assert(kept.contains(kept[k2]));
        let k3 = choose|k3: int| 0 <= k3 < before.len() && before[k3] == kept[k2];
        if k3 != k {
            if k3 < k {
                assert(before[k3].0 != before[k].0);
            } else {
                assert(before[k].0 != before[k3].0);
            }
        }
    }
    assert forall|j: int|
        0 <= j < s.len() && (forall|k: int|
            0 <= k < before.len() ==> first_with_id(s, #[trigger] before[k].0) != j) implies u[j].frame
        == s[j].frame by {
        assert forall|k: int| 0 <= k < cs.len() implies first_with_id(s, #[trigger] cs[k].0@) != j by {
            before.lemma_filter_contains_rev(p, kept[k]);
            assert(kept.contains(kept[k]));
            let k3 = choose|k3: int| 0 <= k3 < before.len() && before[k3] == kept[k];
            assert(first_with_id(s, before[k3].0) != j);
        }
    }
}

/// The edit that records a drag, or none where no dragged element is left.
pub fn drag_changes(slide: usize, before: &Vec<(String, Frame)>, elements: &Vec<Element>) -> (r:
    Option<ChangeFrames>)
    ensures
        r is None <==> drag_change_list(
            before@.map_values(|b: (String, Frame)| (b.0@, b.1)),
            elements_model(elements@),
        ).len() == 0,
        r matches Some(c) ==> c.slide == slide && c.changes@.map_values(
            |c: (String, Frame, Frame)| (c.0@, c.1, c.2),
        ) == drag_change_list(
            before@.map_values(|b: (String, Frame)| (b.0@, b.1)),
            elements_model(elements@),
        ),
{
    let ghost es = elements_model(elements@);
    let ghost bs = before@.map_values(|b: (String, Frame)| (b.0@, b.1));
    let ghost keep = |b: (Seq<char>, Frame)| first_with_id(es, b.0) >= 0;
    let ghost to_change = |b: (Seq<char>, Frame)| (b.0, b.1, es[first_with_id(es, b.0)].frame);
    let ghost view = |c: (String, Frame, Frame)| (c.0@, c.1, c.2);
    let mut changes: Vec<(String, Frame, Frame)> = Vec::new();
    let n = before.len();
    let mut i: usize = 0;
    while i < n
        invariant
            n == before@.len(),
            i <= n,
            es == elements_model(elements@),
            bs == before@.map_values(|b: (String, Frame)| (b.0@, b.1)),
            keep == (|b: (Seq<char>, Frame)| first_with_id(es, b.0) >= 0),
            to_change == (|b: (Seq<char>, Frame)| (b.0, b.1, es[first_with_id(es, b.0)].frame)),
            view == (|c: (String, Frame, Frame)| (c.0@, c.1, c.2)),
            changes@.map_values(view) == bs.take(i as int).filter(keep).map_values(to_change),
        decreases n - i,
    {
        let ghost prev = changes@.map_values(view);
        let item = &before[i];
        assert(bs.take(i + 1) =~= bs.take(i as int).push(bs[i as int]));
        proof {
            bs.take(i as int).lemma_filter_push(bs[i as int], keep);
        }
        match find_first(elements, &item.0) {
            Some(j) => {
                proof {
                    lemma_first_with_id(es, item.0@);
                }
                changes.push((item.0.clone(), item.1, elements[j].frame));
                assert(changes@.map_values(view) =~= prev.push(to_change(bs[i as int])));
                assert(bs.take(i as int).filter(keep).push(bs[i as int]).map_values(to_change)
                    =~= bs.take(i as int).filter(keep).map_values(to_change).push(to_change(bs[i as int])));
            },
            None => {},
        }
        i = i + 1;
    }
    assert(bs.take(n as int) =~= bs);
    if changes.len() == 0 {
        None
    } else {
        Some(ChangeFrames { slide, changes })
    }
}

// ---------------------------------------------------------------------------
// Labels
// ---------------------------------------------------------------------------

/// The window title: a bullet for unsaved changes, the file name (or "Sem título"
/// for a document never saved), and the application's name.
pub open spec fn title_text(dirty: bool, name: Option<Seq<char>>) -> Seq<char> {
    (if dirty { "• "@ } else { Seq::empty() }) + (match name {
        Some(n) => n,
        None => "Sem título"@,
    }) + " — Pulso"@
}

pub fn window_title(dirty: bool, name: Option<&str>) -> (r: String)
    ensures
        r@ == title_text(dirty, match name {
            Some(n) => Some(n@),
            None => None,
        }),
{
    let mut r = String::new();
    if dirty {
        r.append("• ");
    }
    match name {
        Some(n) => r.append(n),
        None => r.append("Sem título"),
    }
    r.append(" — Pulso");
    proof {
        reveal_strlit("• ");
        reveal_strlit(" — Pulso");
        reveal_strlit("Sem título");
    }
    assert(r@ =~= title_text(dirty, match name {
        Some(n) => Some(n@),
        None => None,
    }));
    r
}

/// What the inspector says of a selection of `count` elements.
pub open spec fn selection_text(count: nat) -> Seq<char> {
    if count == 0 {
        "Nenhuma seleção"@
    } else if count == 1 {
        "1 elemento selecionado"@
    } else {
        crate::text::decimal(count) + " elementos selecionados"@
    }
}

pub fn selection_label(count: usize) -> (r: String)
    ensures
        r@ == selection_text(count as nat),
{
    if count == 0 {
        String::from_str("Nenhuma seleção")
    } else if count == 1 {
        String::from_str("1 elemento selecionado")
    } else {
        let mut r = String::new();
        push_decimal(&mut r, count as u64);
        r.append(" elementos selecionados");
        r
    }
}

// ---------------------------------------------------------------------------
// The transition dialog
// ---------------------------------------------------------------------------

/// The position of a transition kind among the choices None, Dissolve, Slide.
pub fn transition_choice(kind: TransitionType) -> (r: u32)
    ensures
        r == (match kind {
            TransitionType::Cut => 0u32,
            TransitionType::Fade => 1u32,
            TransitionType::Slide => 2u32,
        }),
{
    match kind {
        TransitionType::Cut => 0,
        TransitionType::Fade => 1,
        TransitionType::Slide => 2,
    }
}

/// The transition kind of a choice: 0 none, 2 slide, anything else dissolve.
pub fn transition_kind(choice: u32) -> (r: TransitionType)
    ensures
        r == (if choice == 0 {
            TransitionType::Cut
        } else if choice == 2 {
            TransitionType::Slide
        } else {
            TransitionType::Fade
        }),
{
    if choice == 0 {
        TransitionType::Cut
    } else if choice == 2 {
        TransitionType::Slide
    } else {
        TransitionType::Fade
    }
}

/// The dialog shows a slide's transition kind and gives it back unchanged.
pub proof fn lemma_transition_choice_round_trip(kind: TransitionType)
    ensures
        (if (match kind {
            TransitionType::Cut => 0u32,
            TransitionType::Fade => 1u32,
            TransitionType::Slide => 2u32,
        }) == 0 {
            TransitionType::Cut
        } else if (match kind {
            TransitionType::Cut => 0u32,
            TransitionType::Fade => 1u32,
            TransitionType::Slide => 2u32,
        }) == 2 {
            TransitionType::Slide
        } else {
            TransitionType::Fade
        }) == kind,
{
}

// ---------------------------------------------------------------------------
// Slide operations
// ---------------------------------------------------------------------------

/// The edit that adds an empty slide after the active one, on the active slide's
/// background, and the slide that becomes active: the new one.
pub fn add_slide_after(document: &Document, active: usize) -> (r: (AddSlide, usize))
    requires
        active < document.slides@.len(),
    ensures
        r.0.index == active + 1,
        is_new_slide(r.0.slide@, document.slides@[active as int].background),
        r.1 == active + 1,
{
    let len = document.slides.len();
    assert(active < len);
    let background = document.slides[active].background.clone();
    let slide = Slide::new(background);
    (AddSlide { index: active + 1, slide }, active + 1)
}

/// The edit that puts a copy of slide `source` after it, and the slide that becomes
/// active: the copy. None where there is no such slide.
pub fn duplicate_slide(document: &Document, source: usize) -> (r: Option<(AddSlide, usize)>)
    ensures
        r is None <==> source >= document.slides@.len(),
        r matches Some(p) ==> {
            let original = document@.slides[source as int];
            let copy = p.0.slide@;
            &&& p.0.index == source + 1
            &&& p.1 == source + 1
            &&& is_generated_id(copy.id, "sl"@)
            &&& copy.background == original.background
            &&& copy.transition == original.transition
            &&& copy.notes == original.notes
            &&& copy.elements.len() == original.elements.len()
            &&& forall|i: int|
                #![trigger copy.elements[i]]
                0 <= i < copy.elements.len() ==> {
                    &&& is_generated_id(copy.elements[i].id, "el"@)
                    &&& copy.elements[i].kind == original.elements[i].kind
                    &&& copy.elements[i].frame == original.elements[i].frame
                    &&& copy.elements[i].z == original.elements[i].z
                }
        },
{
    if source >= document.slides.len() {
        return None;
    }
    let slide = document.slides[source].duplicate();
    Some((AddSlide { index: source + 1, slide }, source + 1))
}

/// The edit that deletes slide `index` and the slide that becomes active. None
/// where the slide does not exist or is the only one.
pub fn delete_slide(document: &Document, index: usize, active: usize) -> (r: Option<
    (DeleteSlide, usize),
>)
    requires
        active < document.slides@.len(),
    ensures
        r is None <==> !(document.slides@.len() > 1 && index < document.slides@.len()),
        r matches Some(p) ==> p.0.index == index && p.0.slide@ == document@.slides[index as int]
            && p.1 == active_after_delete_spec(active as int, index as int, document.slides@.len() as int)
            && p.1 < document.slides@.len() - 1,
        r matches Some(p) ==> (active != index ==> document@.slides.remove(index as int)[p.1 as int]
            == document@.slides[active as int]),
{
    proof {
        if document.slides@.len() > 1 && index < document.slides@.len() {
            lemma_delete_keeps_active(document@.slides, active as int, index as int);
        }
    }
    let len = document.slides.len();
    if !can_delete_slide(index, len) {
        return None;
    }
    let slide = document.slides[index].clone();
    Some((DeleteSlide { index, slide }, active_after_delete(active, index, len)))
}

/// The edit that moves slide `from` to position `to` and the slide that becomes
/// active. None where the move is no move or a position does not exist.
pub fn reorder_slides(document: &Document, from: usize, to: usize, active: usize) -> (r: Option<
    (ReorderSlide, usize),
>)
    requires
        active < document.slides@.len(),
    ensures
        r is None <==> !(from != to && from < document.slides@.len() && to < document.slides@.len()),
        r matches Some(p) ==> p.0 == (ReorderSlide { from, to })
            && p.1 == active_after_reorder_spec(active as int, from as int, to as int)
            && p.1 < document.slides@.len(),
{
    let len = document.slides.len();
    if !can_reorder(from, to, len) {
        return None;
    }
    Some((ReorderSlide { from, to }, active_after_reorder(active, from, to, len)))
}

/// A deletion made by `delete_slide` is taken back exactly.
pub proof fn lemma_delete_slide_reversible(document: DocumentModel, c: DeleteSlide)
    requires
        c.index < document.slides.len(),
        c.slide@ == document.slides[c.index as int],
    ensures
        reversible_on(Edit::DeleteSlide(c), document),
{
}

// ---------------------------------------------------------------------------
// Inserting objects
// ---------------------------------------------------------------------------

/// What the object cards insert, apart from images.
#[derive(Debug, Clone, Copy, PartialEq, Eq, Structural)]
pub enum InsertKind {
    Text,
    Shape(ShapeType),
}

/// Bit pattern of `140.0`, where a new text box goes across.
pub const TEXT_AT_X: u64 = 0x4061800000000000;
/// Bit pattern of `120.0`, where a new text box or image goes down.
pub const TEXT_AT_Y: u64 = 0x405e000000000000;
/// Bit pattern of `180.0`, where a new shape goes across.
pub const SHAPE_AT_X: u64 = 0x4066800000000000;
/// Bit pattern of `160.0`, where a new shape goes down and a new image across.
pub const SHAPE_AT_Y: u64 = 0x4064000000000000;

/// The element that an object card inserts: a text box at (140, 120) or a shape at (180, 160).
pub fn inserted_element(kind: InsertKind) -> (r: Element)
    ensures
        kind == InsertKind::Text ==> r@.kind is Text && is_new_element(
            r@,
            r@.kind,
            Scalar(TEXT_AT_X),
            Scalar(TEXT_AT_Y),
            crate::model::document::TEXT_WIDTH,
            crate::model::document::TEXT_HEIGHT,
        ),
        kind matches InsertKind::Shape(shape) ==> r@.kind matches KindModel::Shape { props } && props.shape == shape
            && is_new_element(
            r@,
            r@.kind,
            Scalar(SHAPE_AT_X),
            Scalar(SHAPE_AT_Y),
            crate::model::document::SHAPE_WIDTH,
            crate::model::document::SHAPE_HEIGHT,
        ),
{
    match kind {
        InsertKind::Text => Element::text(Scalar(TEXT_AT_X), Scalar(TEXT_AT_Y)),
        InsertKind::Shape(shape) => Element::shape(shape, Scalar(SHAPE_AT_X), Scalar(SHAPE_AT_Y)),
    }
}

/// The element that shows the media file `name`: an image of `media/<name>` at (160, 120).
pub fn inserted_image(name: &str) -> (r: Element)
    ensures
        r@.kind matches KindModel::Image { props } && props.src@ == "media/"@ + name@
            && props.fit == ImageFit::Contain,
        is_new_element(
            r@,
            r@.kind,
            Scalar(SHAPE_AT_Y),
            Scalar(TEXT_AT_Y),
            crate::model::document::IMAGE_WIDTH,
            crate::model::document::IMAGE_HEIGHT,
        ),
{
    Element::image(media_entry(name), Scalar(SHAPE_AT_Y), Scalar(TEXT_AT_Y))
}

// ---------------------------------------------------------------------------
// Editing a text in place
// ---------------------------------------------------------------------------

/// The element that a double click on `id` opens for editing: the first element of
/// the slide with that identifier, where it is a text.
pub fn editable_text(elements: &Vec<Element>, id: &String) -> (r: Option<Element>)
    ensures
        r is Some <==> ({
            let m = elements_model(elements@);
            let j = first_with_id(m, id@);
            j >= 0 && m[j].kind is Text
        }),
        r matches Some(e) ==> e@ == elements_model(elements@)[first_with_id(
            elements_model(elements@),
            id@,
        )],
{
    match find_first(elements, id) {
        Some(j) => {
            proof {
                lemma_first_with_id(elements_model(elements@), id@);
            }
            match &elements[j].kind {
                ElementKind::Text { .. } => Some(elements[j].clone()),
                _ => None,
            }
        },
        None => None,
    }
}

/// The edit that a finished in-place edit records: the element `id` of slide
/// `slide` goes from the content `before` to what `text` makes of it.
pub fn text_edit(slide: usize, id: &String, before: &ElementKind, text: &str) -> (r: EditElement)
    ensures
        r.slide == slide,
        r.id@ == id@,
        r.before@ == before@,
        plain_update(before@, text@, r.after@),
{
    let mut after = before.clone();
    update_from_plain(&mut after, text);
    EditElement { slide, id: id.clone(), before: before.clone(), after }
}

// ---------------------------------------------------------------------------
// Notes, closing and saving
// ---------------------------------------------------------------------------

/// Writes `text` as the speaker's notes of a slide, where they differ, and says
/// whether they did; the rest of the slide stays as it was.
pub fn set_notes(slide: &mut Slide, text: &str) -> (changed: bool)
    ensures
        changed == (old(slide)@.notes != text@),
        final(slide)@ == (SlideModel { notes: text@, ..old(slide)@ }),
{
    if same_text(slide.notes.as_str(), text) {
        false
    } else {
        slide.notes = text.to_owned();
        true
    }
}

/// Whether the window may close at once: nothing is unsaved, or the user has
/// already chosen to discard it.
pub fn may_close(dirty: bool, discard_confirmed: bool) -> (r: bool)
    ensures
        r == (!dirty || discard_confirmed),
{
    !dirty || discard_confirmed
}

/// The seconds between automatic recovery copies: the stored setting, or 30
/// where there is none.
pub fn autosave_interval(setting: Option<u32>) -> (r: u32)
    ensures
        r == (match setting {
            Some(s) => s,
            None => 30,
        }),
{
    match setting {
        Some(s) => s,
        None => 30,
    }
}

// ---------------------------------------------------------------------------
// Keys in the editor
// ---------------------------------------------------------------------------

/// The key value of Delete.
pub const KEY_DELETE: u32 = 0xffff;
/// The key value of Backspace.
pub const KEY_BACKSPACE: u32 = 0xff08;
/// The key value of F5.
pub const KEY_F5: u32 = 0xffc2;
/// The key value of the letter z.
pub const KEY_LOWER_Z: u32 = 0x7a;

/// What a key press does in the editor.
#[derive(Debug, Clone, Copy, PartialEq, Eq, Structural)]
pub enum EditorAction {
    /// Deletes the selected elements.
    DeleteSelected,
    /// Starts the show at the given slide.
    Present(usize),
    Undo,
    Redo,
    /// Moves the selected elements by the given offsets, in points.
    Nudge(i32, i32),
    /// Leaves the key to the rest of the window.
    Ignore,
}

/// The action of a key with key value `keyval`, with Control and Shift held or
/// not, while the slide `active` is shown: Delete and Backspace delete the
/// selection; F5 starts the show at the first slide, with Shift at the active
/// one; Control+z undoes, with Shift redoes; the arrows move the selection by one
/// point, with Shift by ten.
pub open spec fn editor_action_of(keyval: u32, ctrl: bool, shift: bool, active: usize) -> EditorAction {
    let step: i32 = if shift { 10 } else { 1 };
    if keyval == KEY_DELETE || keyval == KEY_BACKSPACE {
        EditorAction::DeleteSelected
    } else if keyval == KEY_F5 {
        EditorAction::Present(if shift { active } else { 0 })
    } else if keyval == KEY_LOWER_Z && ctrl {
        if shift { EditorAction::Redo } else { EditorAction::Undo }
    } else if keyval == KEY_LEFT {
        EditorAction::Nudge(-step as i32, 0)
    } else if keyval == KEY_RIGHT {
        EditorAction::Nudge(step, 0)
    } else if keyval == KEY_UP {
        EditorAction::Nudge(0, -step as i32)
    } else if keyval == KEY_DOWN {
        EditorAction::Nudge(0, step)
    } else {
        EditorAction::Ignore
    }
}

pub fn editor_key_action(keyval: u32, ctrl: bool, shift: bool, active: usize) -> (r: EditorAction)
    ensures
        r == editor_action_of(keyval, ctrl, shift, active),
{
    let step: i32 = if shift { 10 } else { 1 };
    if keyval == KEY_DELETE || keyval == KEY_BACKSPACE {
        EditorAction::DeleteSelected
    } else if keyval == KEY_F5 {
        EditorAction::Present(if shift { active } else { 0 })
    } else if keyval == KEY_LOWER_Z && ctrl {
        if shift { EditorAction::Redo } else { EditorAction::Undo }
    } else if keyval == KEY_LEFT {
        EditorAction::Nudge(-step, 0)
    } else if keyval == KEY_RIGHT {
        EditorAction::Nudge(step, 0)
    } else if keyval == KEY_UP {
        EditorAction::Nudge(0, -step)
    } else if keyval == KEY_DOWN {
        EditorAction::Nudge(0, step)
    } else {
        EditorAction::Ignore
    }
}

/// The arrow keys nudge the selection by one step in their direction, the same
/// step for all four: a point, or ten with Shift; Left and Up move by the opposite
/// of Right and Down.
pub proof fn lemma_arrows_nudge_evenly(ctrl: bool, shift: bool, active: usize)
    ensures
        editor_action_of(KEY_RIGHT, ctrl, false, active) == EditorAction::Nudge(1, 0),
        editor_action_of(KEY_RIGHT, ctrl, true, active) == EditorAction::Nudge(10, 0),
        editor_action_of(KEY_RIGHT, ctrl, shift, active) matches EditorAction::Nudge(step, y) && y
            == 0 && editor_action_of(KEY_LEFT, ctrl, shift, active) == EditorAction::Nudge(
            -step as i32,
            0,
        ) && editor_action_of(KEY_DOWN, ctrl, shift, active) == EditorAction::Nudge(0, step)
            && editor_action_of(KEY_UP, ctrl, shift, active) == EditorAction::Nudge(
            0,
            -step as i32,
        ),
{
}

} // verus!
