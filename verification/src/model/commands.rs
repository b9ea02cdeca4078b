//! Reversible edits of a document.
use vstd::prelude::*;
use super::document::{
    elements_model, lemma_elements_model_insert, lemma_elements_model_push, lemma_elements_model_update,
    lemma_slides_model_insert, lemma_slides_model_push, lemma_slides_model_remove,
    lemma_slides_model_update, slides_model, Document, DocumentModel, Element, ElementKind,
    ElementModel, Frame, KindModel, Slide, SlideModel, Transition,
};

verus! {

broadcast use vstd::seq_lib::group_seq_properties;

// ---------------------------------------------------------------------------
// Vocabulary of the specifications
// ---------------------------------------------------------------------------

impl SlideModel {
    pub open spec fn with_elements(self, elements: Seq<ElementModel>) -> SlideModel {
        SlideModel { elements, ..self }
    }
}

impl DocumentModel {
    pub open spec fn with_slide(self, i: int, s: SlideModel) -> DocumentModel {
        DocumentModel { slides: self.slides.update(i, s), ..self }
    }

    pub open spec fn with_slides(self, slides: Seq<SlideModel>) -> DocumentModel {
        DocumentModel { slides, ..self }
    }

    /// The document with the elements of slide `i` replaced.
    pub open spec fn with_elements(self, i: int, elements: Seq<ElementModel>) -> DocumentModel {
        self.with_slide(i, self.slides[i].with_elements(elements))
    }
}

/// The elements whose identifier is not `id`.
pub open spec fn id_is_not(id: Seq<char>) -> spec_fn(ElementModel) -> bool {
    |e: ElementModel| e.id != id
}

/// The slides whose identifier is not `id`.
pub open spec fn slide_id_is_not(id: Seq<char>) -> spec_fn(SlideModel) -> bool {
    |s: SlideModel| s.id != id
}

/// The elements whose identifier is none of `ids`.
pub open spec fn id_not_among(ids: Seq<Seq<char>>) -> spec_fn(ElementModel) -> bool {
    |e: ElementModel| !ids.contains(e.id)
}

/// The identifiers of some elements, in order.
pub open spec fn ids_of(s: Seq<ElementModel>) -> Seq<Seq<char>> {
    s.map_values(|e: ElementModel| e.id)
}

/// The position of the first element of `s` whose identifier is `id`, or -1.
pub open spec fn first_with_id(s: Seq<ElementModel>, id: Seq<char>) -> int
    decreases s.len(),
{
    if s.len() == 0 {
        -1
    } else if s[0].id == id {
        0
    } else {
        let r = first_with_id(s.drop_first(), id);
        if r < 0 {
            -1
        } else {
            r + 1
        }
    }
}

/// `first_with_id` finds the first match, and finds none only where there is none.
pub proof fn lemma_first_with_id(s: Seq<ElementModel>, id: Seq<char>)
    ensures
        -1 <= first_with_id(s, id) < s.len(),
        first_with_id(s, id) >= 0 ==> s[first_with_id(s, id)].id == id,
        forall|k: int| 0 <= k < first_with_id(s, id) ==> s[k].id != id,
        first_with_id(s, id) < 0 ==> forall|k: int| 0 <= k < s.len() ==> s[k].id != id,
    decreases s.len(),
{
    if s.len() > 0 && s[0].id != id {
        lemma_first_with_id(s.drop_first(), id);
        assert forall|k: int| 0 < k < s.len() implies s[k] == s.drop_first()[k - 1] by {}
    }
}

/// The position that the characterisation of `first_with_id` pins down.
pub proof fn lemma_first_with_id_is(s: Seq<ElementModel>, id: Seq<char>, j: int)
    requires
        0 <= j < s.len(),
        s[j].id == id,
        forall|k: int| 0 <= k < j ==> s[k].id != id,
    ensures
        first_with_id(s, id) == j,
{
    lemma_first_with_id(s, id);
}

/// `s` with the first element whose identifier is `id` replaced by `f` of it.
pub open spec fn update_first(
    s: Seq<ElementModel>,
    id: Seq<char>,
    f: spec_fn(ElementModel) -> ElementModel,
) -> Seq<ElementModel> {
    let j = first_with_id(s, id);
    if j < 0 {
        s
    } else {
        s.update(j, f(s[j]))
    }
}

pub open spec fn set_frame(frame: Frame) -> spec_fn(ElementModel) -> ElementModel {
    |e: ElementModel| ElementModel { frame, ..e }
}

pub open spec fn set_z(z: i32) -> spec_fn(ElementModel) -> ElementModel {
    |e: ElementModel| ElementModel { z, ..e }
}

pub open spec fn set_kind(kind: KindModel) -> spec_fn(ElementModel) -> ElementModel {
    |e: ElementModel| ElementModel { kind, ..e }
}

/// The elements after each change of `changes` in turn has given the first element
/// with its identifier the frame after (`after`) or before the change.
pub open spec fn frames_set(
    s: Seq<ElementModel>,
    changes: Seq<(String, Frame, Frame)>,
    after: bool,
) -> Seq<ElementModel>
    decreases changes.len(),
{
    if changes.len() == 0 {
        s
    } else {
        let c = changes.last();
        update_first(
            frames_set(s, changes.drop_last(), after),
            c.0@,
            set_frame(if after { c.2 } else { c.1 }),
        )
    }
}

/// As `frames_set`, for depths.
pub open spec fn depths_set(
    s: Seq<ElementModel>,
    changes: Seq<(String, i32, i32)>,
    after: bool,
) -> Seq<ElementModel>
    decreases changes.len(),
{
    if changes.len() == 0 {
        s
    } else {
        let c = changes.last();
        update_first(
            depths_set(s, changes.drop_last(), after),
            c.0@,
            set_z(if after { c.2 } else { c.1 }),
        )
    }
}

/// The position of the first element of `s` deeper than `z`, or the length of `s`.
pub open spec fn first_above(s: Seq<ElementModel>, z: i32) -> int
    decreases s.len(),
{
    if s.len() == 0 {
        0
    } else if s[0].z > z {
        0
    } else {
        first_above(s.drop_first(), z) + 1
    }
}

/// `first_above` finds the first element deeper than `z`.
pub proof fn lemma_first_above(s: Seq<ElementModel>, z: i32)
    ensures
        0 <= first_above(s, z) <= s.len(),
        first_above(s, z) < s.len() ==> s[first_above(s, z)].z > z,
        forall|k: int| 0 <= k < first_above(s, z) ==> s[k].z <= z,
    decreases s.len(),
{
    if s.len() > 0 && s[0].z <= z {
        lemma_first_above(s.drop_first(), z);
        assert forall|k: int| 0 < k < s.len() implies s[k] == s.drop_first()[k - 1] by {}
    }
}

/// The position that the characterisation of `first_above` pins down.
pub proof fn lemma_first_above_is(s: Seq<ElementModel>, z: i32, p: int)
    requires
        0 <= p <= s.len(),
        p < s.len() ==> s[p].z > z,
        forall|k: int| 0 <= k < p ==> s[k].z <= z,
    ensures
        first_above(s, z) == p,
    decreases s.len(),
{
    if s.len() > 0 && p > 0 {
        assert forall|k: int| 0 <= k < p - 1 implies s.drop_first()[k].z <= z by {
            assert(s.drop_first()[k] == s[k + 1]);
        }
        lemma_first_above_is(s.drop_first(), z, p - 1);
    }
}

/// The elements in order of depth, those of equal depth in their order in `s`:
/// each element in turn goes in before the first element deeper than itself.
pub open spec fn z_sorted(s: Seq<ElementModel>) -> Seq<ElementModel>
    decreases s.len(),
{
    if s.len() == 0 {
        s
    } else {
        let sorted = z_sorted(s.drop_last());
        sorted.insert(first_above(sorted, s.last().z), s.last())
    }
}

/// The slides with slide `from` moved to position `to`.
pub open spec fn moved(s: Seq<SlideModel>, from: int, to: int) -> Seq<SlideModel> {
    s.remove(from).insert(to, s[from])
}

// ---------------------------------------------------------------------------
// Building blocks of the edits
// ---------------------------------------------------------------------------

/// Position of the first element whose identifier is `id`.
pub(crate) fn find_first(elements: &Vec<Element>, id: &String) -> (r: Option<usize>)
    ensures
        r matches Some(j) ==> first_with_id(elements_model(elements@), id@) == j,
        r is None ==> first_with_id(elements_model(elements@), id@) == -1,
{
    let n = elements.len();
    let ghost m = elements_model(elements@);
    let mut j: usize = 0;
    while j < n
        invariant
            n == elements@.len(),
            m == elements_model(elements@),
            j <= n,
            forall|k: int| 0 <= k < j ==> m[k].id != id@,
        decreases n - j,
    {
        if elements[j].id == *id {
            proof {
                lemma_first_with_id_is(m, id@, j as int);
            }
            return Some(j);
        }
        j = j + 1;
    }
    proof {
        lemma_first_with_id(m, id@);
    }
    None
}

/// Replaces the elements of slide `i`.
fn replace_elements(document: &mut Document, i: usize, elements: Vec<Element>)
    requires
        i < old(document).slides@.len(),
    ensures
        final(document)@ == old(document)@.with_elements(i as int, elements_model(elements@)),
{
    document.slides[i].elements = elements;
    proof {
        lemma_slides_model_update(old(document).slides@, i as int, document.slides@[i as int]);
    }
    assert(document@ =~= old(document)@.with_elements(i as int, elements_model(elements@)));
}

/// Copies of the elements whose identifier is not `id`.
fn elements_without(elements: &Vec<Element>, id: &String) -> (r: Vec<Element>)
    ensures
        elements_model(r@) == elements_model(elements@).filter(id_is_not(id@)),
{
    let n = elements.len();
    let mut r: Vec<Element> = Vec::new();
    let mut i: usize = 0;
    while i < n
        invariant
            n == elements@.len(),
            i <= n,
            elements_model(r@) == elements_model(elements@.take(i as int)).filter(id_is_not(id@)),
        decreases n - i,
    {
        let ghost before = r@;
        assert(elements@.take(i + 1) == elements@.take(i as int).push(elements@[i as int]));
        proof {
            lemma_elements_model_push(elements@.take(i as int), elements@[i as int]);
            elements_model(elements@.take(i as int)).lemma_filter_push(
                elements@[i as int]@,
                id_is_not(id@),
            );
        }
        if !(elements[i].id == *id) {
            let e = elements[i].clone();
            r.push(e);
            proof {
                lemma_elements_model_push(before, e);
            }
        }
        i = i + 1;
    }
    assert(elements@.take(n as int) == elements@);
    r
}

/// Whether one of `elements` has the identifier `id`.
fn has_id(elements: &Vec<Element>, id: &String) -> (r: bool)
    ensures
        r == ids_of(elements_model(elements@)).contains(id@),
{
    let n = elements.len();
    let ghost ids = ids_of(elements_model(elements@));
    let mut j: usize = 0;
    while j < n
        invariant
            n == elements@.len(),
            ids == ids_of(elements_model(elements@)),
            j <= n,
            forall|k: int| 0 <= k < j ==> ids[k] != id@,
        decreases n - j,
    {
        if elements[j].id == *id {
            assert(ids[j as int] == id@);
            return true;
        }
        j = j + 1;
    }
    false
}

/// Copies of the elements whose identifier is none of those of `gone`.
fn elements_not_among(elements: &Vec<Element>, gone: &Vec<Element>) -> (r: Vec<Element>)
    ensures
        elements_model(r@) == elements_model(elements@).filter(
            id_not_among(ids_of(elements_model(gone@))),
        ),
{
    let ghost pred = id_not_among(ids_of(elements_model(gone@)));
    let n = elements.len();
    let mut r: Vec<Element> = Vec::new();
    let mut i: usize = 0;
    while i < n
        invariant
            n == elements@.len(),
            i <= n,
            pred == id_not_among(ids_of(elements_model(gone@))),
            elements_model(r@) == elements_model(elements@.take(i as int)).filter(pred),
        decreases n - i,
    {
        let ghost before = r@;
        assert(elements@.take(i + 1) == elements@.take(i as int).push(elements@[i as int]));
        proof {
            lemma_elements_model_push(elements@.take(i as int), elements@[i as int]);
            elements_model(elements@.take(i as int)).lemma_filter_push(elements@[i as int]@, pred);
        }
        if !has_id(gone, &elements[i].id) {
            let e = elements[i].clone();
            r.push(e);
            proof {
                lemma_elements_model_push(before, e);
            }
        }
        i = i + 1;
    }
    assert(elements@.take(n as int) == elements@);
    r
}

/// Position of the first element deeper than `z`, or the length.
fn find_first_above(elements: &Vec<Element>, z: i32) -> (r: usize)
    ensures
        r == first_above(elements_model(elements@), z),
        r <= elements@.len(),
{
    let n = elements.len();
    let ghost m = elements_model(elements@);
    let mut j: usize = 0;
    while j < n
        invariant
            n == elements@.len(),
            m == elements_model(elements@),
            j <= n,
            forall|k: int| 0 <= k < j ==> m[k].z <= z,
        decreases n - j,
    {
        if elements[j].z > z {
            proof {
                lemma_first_above_is(m, z, j as int);
            }
            return j;
        }
        j = j + 1;
    }
    proof {
        lemma_first_above_is(m, z, n as int);
    }
    n
}

/// Copies of `elements` in order of depth, equal depths in their given order.
pub(crate) fn sorted_by_z(elements: &Vec<Element>) -> (r: Vec<Element>)
    ensures
        elements_model(r@) == z_sorted(elements_model(elements@)),
{
    let n = elements.len();
    let mut r: Vec<Element> = Vec::new();
    let mut i: usize = 0;
    while i < n
        invariant
            n == elements@.len(),
            i <= n,
            elements_model(r@) == z_sorted(elements_model(elements@.take(i as int))),
        decreases n - i,
    {
        let ghost before = r@;
        let e = elements[i].clone();
        let p = find_first_above(&r, e.z);
        r.insert(p, e);
        proof {
            let t = elements_model(elements@.take(i + 1));
            assert(t.drop_last() =~= elements_model(elements@.take(i as int)));
            assert(t.last() == e@);
            lemma_elements_model_insert(before, p as int, e);
        }
        i = i + 1;
    }
    assert(elements@.take(n as int) == elements@);
    r
}

/// Copies of the slides whose identifier is not `id`.
fn slides_without(slides: &Vec<Slide>, id: &String) -> (r: Vec<Slide>)
    ensures
        slides_model(r@) == slides_model(slides@).filter(slide_id_is_not(id@)),
{
    let n = slides.len();
    let mut r: Vec<Slide> = Vec::new();
    let mut i: usize = 0;
    while i < n
        invariant
            n == slides@.len(),
            i <= n,
            slides_model(r@) == slides_model(slides@.take(i as int)).filter(slide_id_is_not(id@)),
        decreases n - i,
    {
        let ghost before = r@;
        assert(slides@.take(i + 1) == slides@.take(i as int).push(slides@[i as int]));
        proof {
            lemma_slides_model_push(slides@.take(i as int), slides@[i as int]);
            slides_model(slides@.take(i as int)).lemma_filter_push(
                slides@[i as int]@,
                slide_id_is_not(id@),
            );
        }
        if !(slides[i].id == *id) {
            let s = slides[i].clone();
            r.push(s);
            proof {
                lemma_slides_model_push(before, s);
            }
        }
        i = i + 1;
    }
    assert(slides@.take(n as int) == slides@);
    r
}

/// Replaces the slides of a document.
fn replace_slides(document: &mut Document, slides: Vec<Slide>)
    ensures
        final(document)@ == old(document)@.with_slides(slides_model(slides@)),
{
    document.slides = slides;
    assert(document@ =~= old(document)@.with_slides(slides_model(slides@)));
}

// ---------------------------------------------------------------------------
// The edits
// ---------------------------------------------------------------------------

/// An edit that can be applied to a document and taken back.
pub trait Command: Sized {
    /// The documents on which `apply` runs to the end.
    spec fn can_apply(&self, d: DocumentModel) -> bool;

    /// The document that `apply` leaves.
    spec fn applied(&self, d: DocumentModel) -> DocumentModel;

    /// The documents on which `revert` runs to the end.
    spec fn can_revert(&self, d: DocumentModel) -> bool;

    /// The document that `revert` leaves.
    spec fn reverted(&self, d: DocumentModel) -> DocumentModel;

    fn apply(&mut self, document: &mut Document)
        requires
            old(self).can_apply(old(document)@),
        ensures
            *final(self) == *old(self),
            final(document)@ == old(self).applied(old(document)@),
    ;

    fn revert(&mut self, document: &mut Document)
        requires
            old(self).can_revert(old(document)@),
        ensures
            *final(self) == *old(self),
            final(document)@ == old(self).reverted(old(document)@),
    ;
}

/// Puts an element on a slide.
pub struct AddElement {
    pub slide: usize,
    pub element: Element,
}

impl Command for AddElement {
    open spec fn can_apply(&self, d: DocumentModel) -> bool {
        self.slide < d.slides.len()
    }

    /// The element comes last on its slide.
    open spec fn applied(&self, d: DocumentModel) -> DocumentModel {
        let i = self.slide as int;
        d.with_elements(i, d.slides[i].elements.push(self.element@))
    }

    open spec fn can_revert(&self, d: DocumentModel) -> bool {
        self.slide < d.slides.len()
    }

    /// Every element of the slide with the element's identifier leaves it.
    open spec fn reverted(&self, d: DocumentModel) -> DocumentModel {
        let i = self.slide as int;
        d.with_elements(i, d.slides[i].elements.filter(id_is_not(self.element@.id)))
    }

    fn apply(&mut self, document: &mut Document) {
        let e = self.element.clone();
        document.slides[self.slide].elements.push(e);
        proof {
            let i = self.slide as int;
            lemma_elements_model_push(old(document).slides@[i].elements@, e);
            lemma_slides_model_update(old(document).slides@, i, document.slides@[i]);
        }
        assert(document@ =~= self.applied(old(document)@));
    }

    fn revert(&mut self, document: &mut Document) {
        let kept = elements_without(&document.slides[self.slide].elements, &self.element.id);
        replace_elements(document, self.slide, kept);
    }
}


/// Takes elements off a slide.
pub struct DeleteElements {
    pub slide: usize,
    pub elements: Vec<Element>,
}

impl Command for DeleteElements {
    open spec fn can_apply(&self, d: DocumentModel) -> bool {
        self.slide < d.slides.len()
    }

    /// Every element of the slide that has the identifier of one of `elements` leaves it.
    open spec fn applied(&self, d: DocumentModel) -> DocumentModel {
        let i = self.slide as int;
        d.with_elements(
            i,
            d.slides[i].elements.filter(id_not_among(ids_of(elements_model(self.elements@)))),
        )
    }

    open spec fn can_revert(&self, d: DocumentModel) -> bool {
        self.slide < d.slides.len()
    }

    /// `elements` come back after the slide's elements, and the slide is put in
    /// order of depth, equal depths keeping their order.
    open spec fn reverted(&self, d: DocumentModel) -> DocumentModel {
        let i = self.slide as int;
        d.with_elements(i, z_sorted(d.slides[i].elements + elements_model(self.elements@)))
    }

    fn apply(&mut self, document: &mut Document) {
        let kept = elements_not_among(&document.slides[self.slide].elements, &self.elements);
        replace_elements(document, self.slide, kept);
    }

    fn revert(&mut self, document: &mut Document) {
        let mut all = document.slides[self.slide].elements.clone();
        let ghost start = all@;
        assert(elements_model(start) =~= elements_model(document.slides@[self.slide as int].elements@));
        let n = self.elements.len();
        let mut i: usize = 0;
        while i < n
            invariant
                n == self.elements@.len(),
                i <= n,
                elements_model(all@) == elements_model(start) + elements_model(self.elements@.take(i as int)),
            decreases n - i,
        {
            let ghost before = all@;
            let e = self.elements[i].clone();
            all.push(e);
            proof {
                lemma_elements_model_push(before, e);
                assert(self.elements@.take(i + 1) == self.elements@.take(i as int).push(self.elements@[i as int]));
                lemma_elements_model_push(self.elements@.take(i as int), self.elements@[i as int]);
            }
            i = i + 1;
        }
        assert(self.elements@.take(n as int) == self.elements@);
        let sorted = sorted_by_z(&all);
        replace_elements(document, self.slide, sorted);
    }
}

/// Moves, resizes or turns elements of a slide.
pub struct ChangeFrames {
    pub slide: usize,
    /// For each element, by identifier: its frame before and after.
    pub changes: Vec<(String, Frame, Frame)>,
}

impl ChangeFrames {
    /// Gives each changed element its frame after (`after`) or before the change.
    fn set(&self, d: &mut Document, after: bool)
        requires
            self.slide < old(d).slides@.len(),
        ensures
            final(d)@ == old(d)@.with_elements(
                self.slide as int,
                frames_set(old(d)@.slides[self.slide as int].elements, self.changes@, after),
            ),
    {
        let si = self.slide;
        let ghost start = old(d)@.slides[si as int].elements;
        let n = self.changes.len();
        let mut k: usize = 0;
        assert(old(d)@ =~= old(d)@.with_elements(si as int, start));
        while k < n
            invariant
                n == self.changes@.len(),
                k <= n,
                si == self.slide,
                si < old(d).slides@.len(),
                start == old(d)@.slides[si as int].elements,
                d.slides@.len() == old(d).slides@.len(),
                d@ == old(d)@.with_elements(si as int, frames_set(start, self.changes@.take(k as int), after)),
            decreases n - k,
        {
            let ghost prev = d@;
            let change = &self.changes[k];
            let frame = if after { change.2 } else { change.1 };
            proof {
                let t = self.changes@.take(k + 1);
                assert(t.drop_last() =~= self.changes@.take(k as int));
                assert(t.last() == self.changes@[k as int]);
            }
            match find_first(&d.slides[si].elements, &change.0) {
                Some(j) => {
                    let ghost old_slides = d.slides@;
                    let ghost old_elements = d.slides@[si as int].elements@;
                    proof {
                        lemma_first_with_id(elements_model(old_elements), change.0@);
                    }
                    d.slides[si].elements[j].frame = frame;
                    proof {
                        lemma_elements_model_update(old_elements, j as int, d.slides@[si as int].elements@[j as int]);
                        lemma_slides_model_update(old_slides, si as int, d.slides@[si as int]);
                        assert(d.slides@[si as int].elements@ == old_elements.update(j as int, d.slides@[si as int].elements@[j as int]));
                        assert(d@ =~= prev.with_elements(si as int, update_first(prev.slides[si as int].elements, change.0@, set_frame(frame))));
                    }
                },
                None => {},
            }
            k = k + 1;
        }
        assert(self.changes@.take(n as int) == self.changes@);
    }
}

impl Command for ChangeFrames {
    open spec fn can_apply(&self, d: DocumentModel) -> bool {
        self.slide < d.slides.len()
    }

    /// Each change in turn gives the first element with its identifier its new frame.
    open spec fn applied(&self, d: DocumentModel) -> DocumentModel {
        let i = self.slide as int;
        d.with_elements(i, frames_set(d.slides[i].elements, self.changes@, true))
    }

    open spec fn can_revert(&self, d: DocumentModel) -> bool {
        self.slide < d.slides.len()
    }

    /// Each change in turn gives the first element with its identifier its old frame.
    open spec fn reverted(&self, d: DocumentModel) -> DocumentModel {
        let i = self.slide as int;
        d.with_elements(i, frames_set(d.slides[i].elements, self.changes@, false))
    }

    fn apply(&mut self, document: &mut Document) {
        self.set(document, true);
    }

    fn revert(&mut self, document: &mut Document) {
        self.set(document, false);
    }
}


/// Inserts a slide.
pub struct AddSlide {
    pub index: usize,
    pub slide: Slide,
}

impl Command for AddSlide {
    open spec fn can_apply(&self, d: DocumentModel) -> bool {
        true
    }

    /// The slide goes in at `index`, or last where `index` is past the end.
    open spec fn applied(&self, d: DocumentModel) -> DocumentModel {
        let at = if self.index < d.slides.len() { self.index as int } else { d.slides.len() as int };
        d.with_slides(d.slides.insert(at, self.slide@))
    }

    open spec fn can_revert(&self, d: DocumentModel) -> bool {
        true
    }

    /// Every slide with the slide's identifier leaves the document.
    open spec fn reverted(&self, d: DocumentModel) -> DocumentModel {
        d.with_slides(d.slides.filter(slide_id_is_not(self.slide@.id)))
    }

    fn apply(&mut self, document: &mut Document) {
        let len = document.slides.len();
        let at = if self.index < len { self.index } else { len };
        let s = self.slide.clone();
        document.slides.insert(at, s);
        proof {
            lemma_slides_model_insert(old(document).slides@, at as int, s);
        }
        assert(document@ =~= self.applied(old(document)@));
    }

    fn revert(&mut self, document: &mut Document) {
        let kept = slides_without(&document.slides, &self.slide.id);
        replace_slides(document, kept);
    }
}

/// Removes a slide; `slide` is what comes back.
pub struct DeleteSlide {
    pub index: usize,
    pub slide: Slide,
}

impl Command for DeleteSlide {
    open spec fn can_apply(&self, d: DocumentModel) -> bool {
        self.index < d.slides.len()
    }

    /// The slide at `index` leaves the document.
    open spec fn applied(&self, d: DocumentModel) -> DocumentModel {
        d.with_slides(d.slides.remove(self.index as int))
    }

    open spec fn can_revert(&self, d: DocumentModel) -> bool {
        self.index <= d.slides.len()
    }

    /// `slide` goes in at `index`.
    open spec fn reverted(&self, d: DocumentModel) -> DocumentModel {
        d.with_slides(d.slides.insert(self.index as int, self.slide@))
    }

    fn apply(&mut self, document: &mut Document) {
        document.slides.remove(self.index);
        proof {
            lemma_slides_model_remove(old(document).slides@, self.index as int);
        }
        assert(document@ =~= self.applied(old(document)@));
    }

    fn revert(&mut self, document: &mut Document) {
        let s = self.slide.clone();
        document.slides.insert(self.index, s);
        proof {
            lemma_slides_model_insert(old(document).slides@, self.index as int, s);
        }
        assert(document@ =~= self.reverted(old(document)@));
    }
}

/// Moves a slide to another position.
pub struct ReorderSlide {
    pub from: usize,
    pub to: usize,
}

impl ReorderSlide {
    /// Moves slide `from` of `d` to position `to`.
    fn move_slide(d: &mut Document, from: usize, to: usize)
        requires
            from < old(d).slides@.len(),
            to < old(d).slides@.len(),
        ensures
            final(d)@ == old(d)@.with_slides(moved(old(d)@.slides, from as int, to as int)),
    {
        let slide = d.slides.remove(from);
        proof {
            lemma_slides_model_remove(old(d).slides@, from as int);
        }
        let ghost mid = d.slides@;
        d.slides.insert(to, slide);
        proof {
            lemma_slides_model_insert(mid, to as int, slide);
        }
        assert(d@ =~= old(d)@.with_slides(moved(old(d)@.slides, from as int, to as int)));
    }
}

impl Command for ReorderSlide {
    open spec fn can_apply(&self, d: DocumentModel) -> bool {
        self.from < d.slides.len() && self.to < d.slides.len()
    }

    /// Slide `from` moves to position `to`; the others keep their order.
    open spec fn applied(&self, d: DocumentModel) -> DocumentModel {
        d.with_slides(moved(d.slides, self.from as int, self.to as int))
    }

    open spec fn can_revert(&self, d: DocumentModel) -> bool {
        self.from < d.slides.len() && self.to < d.slides.len()
    }

    /// Slide `to` moves back to position `from`.
    open spec fn reverted(&self, d: DocumentModel) -> DocumentModel {
        d.with_slides(moved(d.slides, self.to as int, self.from as int))
    }

    fn apply(&mut self, document: &mut Document) {
        Self::move_slide(document, self.from, self.to);
    }

    fn revert(&mut self, document: &mut Document) {
        Self::move_slide(document, self.to, self.from);
    }
}

/// Replaces the speaker notes of a slide.
pub struct EditNotes {
    pub slide: usize,
    pub before: String,
    pub after: String,
}

impl Command for EditNotes {
    open spec fn can_apply(&self, d: DocumentModel) -> bool {
        self.slide < d.slides.len()
    }

    open spec fn applied(&self, d: DocumentModel) -> DocumentModel {
        let i = self.slide as int;
        d.with_slide(i, SlideModel { notes: self.after@, ..d.slides[i] })
    }

    open spec fn can_revert(&self, d: DocumentModel) -> bool {
        self.slide < d.slides.len()
    }

    open spec fn reverted(&self, d: DocumentModel) -> DocumentModel {
        let i = self.slide as int;
        d.with_slide(i, SlideModel { notes: self.before@, ..d.slides[i] })
    }

    fn apply(&mut self, document: &mut Document) {
        document.slides[self.slide].notes = self.after.clone();
        proof {
            lemma_slides_model_update(old(document).slides@, self.slide as int, document.slides@[self.slide as int]);
        }
        assert(document@ =~= self.applied(old(document)@));
    }

    fn revert(&mut self, document: &mut Document) {
        document.slides[self.slide].notes = self.before.clone();
        proof {
            lemma_slides_model_update(old(document).slides@, self.slide as int, document.slides@[self.slide as int]);
        }
        assert(document@ =~= self.reverted(old(document)@));
    }
}

/// Replaces the transition of a slide.
pub struct ChangeTransition {
    pub slide: usize,
    pub before: Transition,
    pub after: Transition,
}

impl Command for ChangeTransition {
    open spec fn can_apply(&self, d: DocumentModel) -> bool {
        self.slide < d.slides.len()
    }

    open spec fn applied(&self, d: DocumentModel) -> DocumentModel {
        let i = self.slide as int;
        d.with_slide(i, SlideModel { transition: self.after, ..d.slides[i] })
    }

    open spec fn can_revert(&self, d: DocumentModel) -> bool {
        self.slide < d.slides.len()
    }

    open spec fn reverted(&self, d: DocumentModel) -> DocumentModel {
        let i = self.slide as int;
        d.with_slide(i, SlideModel { transition: self.before, ..d.slides[i] })
    }

    fn apply(&mut self, document: &mut Document) {
        document.slides[self.slide].transition = self.after;
        proof {
            lemma_slides_model_update(old(document).slides@, self.slide as int, document.slides@[self.slide as int]);
        }
        assert(document@ =~= self.applied(old(document)@));
    }

    fn revert(&mut self, document: &mut Document) {
        document.slides[self.slide].transition = self.before;
        proof {
            lemma_slides_model_update(old(document).slides@, self.slide as int, document.slides@[self.slide as int]);
        }
        assert(document@ =~= self.reverted(old(document)@));
    }
}

/// Changes the depth of elements of a slide.
pub struct ChangeZ {
    pub slide: usize,
    /// For each element, by identifier: its depth before and after.
    pub changes: Vec<(String, i32, i32)>,
}

impl ChangeZ {
    /// Gives each changed element its depth after (`after`) or before the change.
    fn set(&self, d: &mut Document, after: bool)
        requires
            self.slide < old(d).slides@.len(),
        ensures
            final(d)@ == old(d)@.with_elements(
                self.slide as int,
                depths_set(old(d)@.slides[self.slide as int].elements, self.changes@, after),
            ),
    {
        let si = self.slide;
        let ghost start = old(d)@.slides[si as int].elements;
        let n = self.changes.len();
        let mut k: usize = 0;
        assert(old(d)@ =~= old(d)@.with_elements(si as int, start));
        while k < n
            invariant
                n == self.changes@.len(),
                k <= n,
                si == self.slide,
                si < old(d).slides@.len(),
                start == old(d)@.slides[si as int].elements,
                d.slides@.len() == old(d).slides@.len(),
                d@ == old(d)@.with_elements(si as int, depths_set(start, self.changes@.take(k as int), after)),
            decreases n - k,
        {
            let ghost prev = d@;
            let change = &self.changes[k];
            let z = if after { change.2 } else { change.1 };
            proof {
                let t = self.changes@.take(k + 1);
                assert(t.drop_last() =~= self.changes@.take(k as int));
                assert(t.last() == self.changes@[k as int]);
            }
            match find_first(&d.slides[si].elements, &change.0) {
                Some(j) => {
                    let ghost old_slides = d.slides@;
                    let ghost old_elements = d.slides@[si as int].elements@;
                    proof {
                        lemma_first_with_id(elements_model(old_elements), change.0@);
                    }
                    d.slides[si].elements[j].z = z;
                    proof {
                        lemma_elements_model_update(old_elements, j as int, d.slides@[si as int].elements@[j as int]);
                        lemma_slides_model_update(old_slides, si as int, d.slides@[si as int]);
                        assert(d.slides@[si as int].elements@ == old_elements.update(j as int, d.slides@[si as int].elements@[j as int]));
                        assert(d@ =~= prev.with_elements(si as int, update_first(prev.slides[si as int].elements, change.0@, set_z(z))));
                    }
                },
                None => {},
            }
            k = k + 1;
        }
        assert(self.changes@.take(n as int) == self.changes@);
    }
}

impl Command for ChangeZ {
    open spec fn can_apply(&self, d: DocumentModel) -> bool {
        self.slide < d.slides.len()
    }

    /// Each change in turn gives the first element with its identifier its new depth.
    open spec fn applied(&self, d: DocumentModel) -> DocumentModel {
        let i = self.slide as int;
        d.with_elements(i, depths_set(d.slides[i].elements, self.changes@, true))
    }

    open spec fn can_revert(&self, d: DocumentModel) -> bool {
        self.slide < d.slides.len()
    }

    /// Each change in turn gives the first element with its identifier its old depth.
    open spec fn reverted(&self, d: DocumentModel) -> DocumentModel {
        let i = self.slide as int;
        d.with_elements(i, depths_set(d.slides[i].elements, self.changes@, false))
    }

    fn apply(&mut self, document: &mut Document) {
        self.set(document, true);
    }

    fn revert(&mut self, document: &mut Document) {
        self.set(document, false);
    }
}

/// Replaces the content of an element.
pub struct EditElement {
    pub slide: usize,
    pub id: String,
    pub before: ElementKind,
    pub after: ElementKind,
}

impl EditElement {
    /// Gives the first element with the identifier the content after (`after`) or before.
    fn set(&self, d: &mut Document, after: bool)
        requires
            self.slide < old(d).slides@.len(),
        ensures
            final(d)@ == old(d)@.with_elements(
                self.slide as int,
                update_first(
                    old(d)@.slides[self.slide as int].elements,
                    self.id@,
                    set_kind(if after { self.after@ } else { self.before@ }),
                ),
            ),
    {
        let si = self.slide;
        match find_first(&d.slides[si].elements, &self.id) {
            Some(j) => {
                let ghost old_elements = d.slides@[si as int].elements@;
                proof {
                    lemma_first_with_id(elements_model(old_elements), self.id@);
                }
                let kind = if after { self.after.clone() } else { self.before.clone() };
                d.slides[si].elements[j].kind = kind;
                proof {
                    lemma_elements_model_update(old_elements, j as int, d.slides@[si as int].elements@[j as int]);
                    lemma_slides_model_update(old(d).slides@, si as int, d.slides@[si as int]);
                    assert(d.slides@[si as int].elements@ == old_elements.update(j as int, d.slides@[si as int].elements@[j as int]));
                }
            },
            None => {},
        }
        assert(d@ =~= old(d)@.with_elements(
            si as int,
            update_first(
                old(d)@.slides[si as int].elements,
                self.id@,
                set_kind(if after { self.after@ } else { self.before@ }),
            ),
        ));
    }
}

impl Command for EditElement {
    open spec fn can_apply(&self, d: DocumentModel) -> bool {
        self.slide < d.slides.len()
    }

    /// The first element with the identifier gets the content `after`.
    open spec fn applied(&self, d: DocumentModel) -> DocumentModel {
        let i = self.slide as int;
        d.with_elements(i, update_first(d.slides[i].elements, self.id@, set_kind(self.after@)))
    }

    open spec fn can_revert(&self, d: DocumentModel) -> bool {
        self.slide < d.slides.len()
    }

    /// The first element with the identifier gets the content `before`.
    open spec fn reverted(&self, d: DocumentModel) -> DocumentModel {
        let i = self.slide as int;
        d.with_elements(i, update_first(d.slides[i].elements, self.id@, set_kind(self.before@)))
    }

    fn apply(&mut self, document: &mut Document) {
        self.set(document, true);
    }

    fn revert(&mut self, document: &mut Document) {
        self.set(document, false);
    }
}


/// One edit of any kind, as the history keeps it.
pub enum Edit {
    AddElement(AddElement),
    DeleteElements(DeleteElements),
    ChangeFrames(ChangeFrames),
    AddSlide(AddSlide),
    DeleteSlide(DeleteSlide),
    ReorderSlide(ReorderSlide),
    EditNotes(EditNotes),
    ChangeZ(ChangeZ),
    EditElement(EditElement),
    ChangeTransition(ChangeTransition),
}

impl Command for Edit {
    open spec fn can_apply(&self, d: DocumentModel) -> bool {
        match self {
            Edit::AddElement(c) => c.can_apply(d),
            Edit::DeleteElements(c) => c.can_apply(d),
            Edit::ChangeFrames(c) => c.can_apply(d),
            Edit::AddSlide(c) => c.can_apply(d),
            Edit::DeleteSlide(c) => c.can_apply(d),
            Edit::ReorderSlide(c) => c.can_apply(d),
            Edit::EditNotes(c) => c.can_apply(d),
            Edit::ChangeZ(c) => c.can_apply(d),
            Edit::EditElement(c) => c.can_apply(d),
            Edit::ChangeTransition(c) => c.can_apply(d),
        }
    }

    open spec fn applied(&self, d: DocumentModel) -> DocumentModel {
        match self {
            Edit::AddElement(c) => c.applied(d),
            Edit::DeleteElements(c) => c.applied(d),
            Edit::ChangeFrames(c) => c.applied(d),
            Edit::AddSlide(c) => c.applied(d),
            Edit::DeleteSlide(c) => c.applied(d),
            Edit::ReorderSlide(c) => c.applied(d),
            Edit::EditNotes(c) => c.applied(d),
            Edit::ChangeZ(c) => c.applied(d),
            Edit::EditElement(c) => c.applied(d),
            Edit::ChangeTransition(c) => c.applied(d),
        }
    }

    open spec fn can_revert(&self, d: DocumentModel) -> bool {
        match self {
            Edit::AddElement(c) => c.can_revert(d),
            Edit::DeleteElements(c) => c.can_revert(d),
            Edit::ChangeFrames(c) => c.can_revert(d),
            Edit::AddSlide(c) => c.can_revert(d),
            Edit::DeleteSlide(c) => c.can_revert(d),
            Edit::ReorderSlide(c) => c.can_revert(d),
            Edit::EditNotes(c) => c.can_revert(d),
            Edit::ChangeZ(c) => c.can_revert(d),
            Edit::EditElement(c) => c.can_revert(d),
            Edit::ChangeTransition(c) => c.can_revert(d),
        }
    }

    open spec fn reverted(&self, d: DocumentModel) -> DocumentModel {
        match self {
            Edit::AddElement(c) => c.reverted(d),
            Edit::DeleteElements(c) => c.reverted(d),
            Edit::ChangeFrames(c) => c.reverted(d),
            Edit::AddSlide(c) => c.reverted(d),
            Edit::DeleteSlide(c) => c.reverted(d),
            Edit::ReorderSlide(c) => c.reverted(d),
            Edit::EditNotes(c) => c.reverted(d),
            Edit::ChangeZ(c) => c.reverted(d),
            Edit::EditElement(c) => c.reverted(d),
            Edit::ChangeTransition(c) => c.reverted(d),
        }
    }

    fn apply(&mut self, document: &mut Document) {
        match self {
            Edit::AddElement(c) => c.apply(document),
            Edit::DeleteElements(c) => c.apply(document),
            Edit::ChangeFrames(c) => c.apply(document),
            Edit::AddSlide(c) => c.apply(document),
            Edit::DeleteSlide(c) => c.apply(document),
            Edit::ReorderSlide(c) => c.apply(document),
            Edit::EditNotes(c) => c.apply(document),
            Edit::ChangeZ(c) => c.apply(document),
            Edit::EditElement(c) => c.apply(document),
            Edit::ChangeTransition(c) => c.apply(document),
        }
    }

    fn revert(&mut self, document: &mut Document) {
        match self {
            Edit::AddElement(c) => c.revert(document),
            Edit::DeleteElements(c) => c.revert(document),
            Edit::ChangeFrames(c) => c.revert(document),
            Edit::AddSlide(c) => c.revert(document),
            Edit::DeleteSlide(c) => c.revert(document),
            Edit::ReorderSlide(c) => c.revert(document),
            Edit::EditNotes(c) => c.revert(document),
            Edit::ChangeZ(c) => c.revert(document),
            Edit::EditElement(c) => c.revert(document),
            Edit::ChangeTransition(c) => c.revert(document),
        }
    }
}

impl Edit {
    /// Whether `apply` runs to the end on `document`.
    pub fn can_apply_to(&self, document: &Document) -> (r: bool)
        ensures
            r == self.can_apply(document@),
    {
        let len = document.slides.len();
        match self {
            Edit::AddElement(c) => c.slide < len,
            Edit::DeleteElements(c) => c.slide < len,
            Edit::ChangeFrames(c) => c.slide < len,
            Edit::AddSlide(_) => true,
            Edit::DeleteSlide(c) => c.index < len,
            Edit::ReorderSlide(c) => c.from < len && c.to < len,
            Edit::EditNotes(c) => c.slide < len,
            Edit::ChangeZ(c) => c.slide < len,
            Edit::EditElement(c) => c.slide < len,
            Edit::ChangeTransition(c) => c.slide < len,
        }
    }

    /// Whether `revert` runs to the end on `document`.
    pub fn can_revert_to(&self, document: &Document) -> (r: bool)
        ensures
            r == self.can_revert(document@),
    {
        let len = document.slides.len();
        match self {
            Edit::AddElement(c) => c.slide < len,
            Edit::DeleteElements(c) => c.slide < len,
            Edit::ChangeFrames(c) => c.slide < len,
            Edit::AddSlide(_) => true,
            Edit::DeleteSlide(c) => c.index <= len,
            Edit::ReorderSlide(c) => c.from < len && c.to < len,
            Edit::EditNotes(c) => c.slide < len,
            Edit::ChangeZ(c) => c.slide < len,
            Edit::EditElement(c) => c.slide < len,
            Edit::ChangeTransition(c) => c.slide < len,
        }
    }
}

} // verus!
