use pulso::model::commands::{
    AddElement, AddSlide, ChangeTransition, ChangeZ, DeleteElements, DeleteSlide, Edit,
    EditElement, EditNotes, ReorderSlide,
};
use pulso::model::document::{
    Background, Document, Element, ElementKind, ImageFit, ListType, Scalar, ShapeType, Slide,
    TextAlign, TextAttrs, TextBlock, TextProps, Theme, Transition, TransitionType,
};
use pulso::model::undo::{UndoStack, HISTORY_LIMIT};

fn at(value: f64) -> Scalar {
    Scalar(value.to_bits())
}

fn value(scalar: Scalar) -> f64 {
    f64::from_bits(scalar.0)
}

fn is_generated(id: &str, prefix: &str) -> bool {
    let safe = |c: char| c == '_' || c == '-' || c.is_ascii_alphanumeric();
    id.len() == prefix.len() + 7
        && id.starts_with(prefix)
        && id[prefix.len()..].starts_with('_')
        && id[prefix.len() + 1..].chars().all(safe)
}

fn ids(elements: &[Element]) -> Vec<String> {
    elements.iter().map(|e| e.id.clone()).collect()
}

#[test]
fn default_document_has_one_white_slide_and_the_coral_theme() {
    let document = Document::default();
    assert_eq!(document.schema_version, 1);
    assert_eq!((document.slide_size.width, document.slide_size.height), (1280, 720));
    assert_eq!(document.slides.len(), 1);
    let slide = &document.slides[0];
    assert!(is_generated(&slide.id, "sl"));
    assert_eq!(slide.background, Background::Color { value: "#FFFFFF".into() });
    assert_eq!(slide.transition, Transition { kind: TransitionType::Fade, duration_ms: 300 });
    assert!(slide.notes.is_empty() && slide.elements.is_empty());
    let theme = Theme::default();
    assert_eq!(theme.id, "coral-default");
    assert_eq!(theme.font_heading, "Inter");
    assert_eq!(theme.font_body, "Inter");
    assert_eq!(
        theme.colors,
        vec![
            ("primary".to_string(), "#FF6F61".to_string()),
            ("primaryDark".to_string(), "#E05548".to_string()),
            ("primaryLight".to_string(), "#FFA396".to_string()),
        ]
    );
}

#[test]
fn new_elements_have_their_default_sizes() {
    let text = Element::text(at(80.0), at(60.0));
    assert!(is_generated(&text.id, "el"));
    assert_eq!(value(text.frame.width), 420.0);
    assert_eq!(value(text.frame.height), 100.0);
    assert_eq!(value(text.frame.x), 80.0);
    assert_eq!(value(text.frame.rotation), 0.0);
    assert_eq!(text.z, 1);
    match &text.kind {
        ElementKind::Text { props } => {
            assert_eq!(props.blocks.len(), 1);
            let block = &props.blocks[0];
            assert_eq!(block.align, TextAlign::Left);
            assert_eq!(block.font_family, "Inter");
            assert_eq!(value(block.font_size_pt), 28.0);
            assert_eq!(value(block.line_height), 1.2);
            assert_eq!(block.list, None);
            assert_eq!(block.runs.len(), 1);
            assert_eq!(block.runs[0].text, "Texto");
            assert_eq!(block.runs[0].attrs, TextAttrs::default());
        }
        _ => panic!("not a text element"),
    }
    let shape = Element::shape(ShapeType::Ellipse, at(400.0), at(240.0));
    assert_eq!((value(shape.frame.width), value(shape.frame.height)), (240.0, 140.0));
    match &shape.kind {
        ElementKind::Shape { props } => {
            assert_eq!(props.shape, ShapeType::Ellipse);
            assert_eq!(props.fill, "#FF6F61");
            assert_eq!(props.stroke, "#E05548");
            assert_eq!(value(props.stroke_width), 2.0);
            assert_eq!(value(props.corner_radius), 12.0);
        }
        _ => panic!("not a shape"),
    }
    let image = Element::image("media/abc.png".into(), at(1.0), at(2.0));
    assert_eq!((value(image.frame.width), value(image.frame.height)), (480.0, 320.0));
    match &image.kind {
        ElementKind::Image { props } => {
            assert_eq!(props.src, "media/abc.png");
            assert_eq!(props.fit, ImageFit::Contain);
        }
        _ => panic!("not an image"),
    }
}

#[test]
fn duplicate_slide_renames_slide_and_elements() {
    let mut slide = Slide::new(Background::Gradient { value: "g".into() });
    slide.notes = "notas".into();
    slide.elements.push(Element::shape(ShapeType::Rect, at(1.0), at(2.0)));
    slide.elements.push(Element::text(at(3.0), at(4.0)));
    let copy = slide.duplicate();
    assert_ne!(copy.id, slide.id);
    assert!(is_generated(&copy.id, "sl"));
    assert_eq!(copy.background, slide.background);
    assert_eq!(copy.notes, "notas");
    assert_eq!(copy.elements.len(), 2);
    for (a, b) in copy.elements.iter().zip(&slide.elements) {
        assert_ne!(a.id, b.id);
        assert!(is_generated(&a.id, "el"));
        assert_eq!(a.kind, b.kind);
        assert_eq!(a.frame, b.frame);
        assert_eq!(a.z, b.z);
    }
}

#[test]
fn add_element_then_undo_restores_the_slide() {
    let mut document = Document::default();
    let mut history = UndoStack::default();
    let element = Element::text(at(0.0), at(0.0));
    history.execute(Edit::AddElement(AddElement { slide: 0, element }), &mut document);
    assert_eq!(document.slides[0].elements.len(), 1);
    assert!(history.undo(&mut document));
    assert!(document.slides[0].elements.is_empty());
    assert!(!history.undo(&mut document));
    assert!(history.redo(&mut document));
    assert_eq!(document.slides[0].elements.len(), 1);
    assert!(!history.redo(&mut document));
}

#[test]
fn delete_elements_undo_puts_them_back_in_depth_order() {
    let mut document = Document::default();
    let mut a = Element::shape(ShapeType::Rect, at(0.0), at(0.0));
    a.z = 3;
    let mut b = Element::shape(ShapeType::Rect, at(0.0), at(0.0));
    b.z = 1;
    let mut c = Element::shape(ShapeType::Rect, at(0.0), at(0.0));
    c.z = 2;
    document.slides[0].elements = vec![a.clone(), b.clone(), c.clone()];
    let mut history = UndoStack::default();
    history.execute(
        Edit::DeleteElements(DeleteElements { slide: 0, elements: vec![a.clone(), c.clone()] }),
        &mut document,
    );
    assert_eq!(ids(&document.slides[0].elements), vec![b.id.clone()]);
    assert!(history.undo(&mut document));
    assert_eq!(
        ids(&document.slides[0].elements),
        vec![b.id.clone(), c.id.clone(), a.id.clone()]
    );
}

#[test]
fn equal_depths_keep_their_order_when_sorted() {
    let mut document = Document::default();
    let first = Element::text(at(0.0), at(0.0));
    let second = Element::text(at(0.0), at(0.0));
    let third = Element::text(at(0.0), at(0.0));
    document.slides[0].elements = vec![first.clone(), second.clone()];
    let mut history = UndoStack::default();
    history.execute(
        Edit::DeleteElements(DeleteElements { slide: 0, elements: vec![third.clone()] }),
        &mut document,
    );
    assert!(history.undo(&mut document));
    assert_eq!(
        ids(&document.slides[0].elements),
        vec![first.id.clone(), second.id.clone(), third.id.clone()]
    );
}

#[test]
fn add_slide_goes_last_past_the_end_and_undo_removes_it() {
    let mut document = Document::default();
    let original = document.slides[0].id.clone();
    let slide = Slide::new(Background::default());
    let id = slide.id.clone();
    let mut history = UndoStack::default();
    history.execute(Edit::AddSlide(AddSlide { index: 7, slide }), &mut document);
    assert_eq!(document.slides.len(), 2);
    assert_eq!(document.slides[1].id, id);
    assert!(history.undo(&mut document));
    assert_eq!(document.slides.len(), 1);
    assert_eq!(document.slides[0].id, original);
}

#[test]
fn delete_slide_undo_puts_it_back_in_place() {
    let mut document = Document::default();
    document.slides.push(Slide::new(Background::default()));
    document.slides.push(Slide::new(Background::default()));
    let before = document.slides.iter().map(|s| s.id.clone()).collect::<Vec<_>>();
    let slide = document.slides[1].clone();
    let mut history = UndoStack::default();
    history.execute(Edit::DeleteSlide(DeleteSlide { index: 1, slide }), &mut document);
    assert_eq!(document.slides.len(), 2);
    assert_eq!(document.slides[1].id, before[2]);
    assert!(history.undo(&mut document));
    assert_eq!(document.slides.iter().map(|s| s.id.clone()).collect::<Vec<_>>(), before);
}

#[test]
fn notes_transition_depth_and_content_edits_are_undone() {
    let mut document = Document::default();
    let element = Element::text(at(0.0), at(0.0));
    let id = element.id.clone();
    document.slides[0].elements.push(element);
    let mut history = UndoStack::default();
    history.execute(
        Edit::EditNotes(EditNotes { slide: 0, before: String::new(), after: "dica".into() }),
        &mut document,
    );
    assert_eq!(document.slides[0].notes, "dica");
    let cut = Transition { kind: TransitionType::Cut, duration_ms: 0 };
    history.execute(
        Edit::ChangeTransition(ChangeTransition {
            slide: 0,
            before: Transition::default(),
            after: cut,
        }),
        &mut document,
    );
    assert_eq!(document.slides[0].transition, cut);
    history.execute(
        Edit::ChangeZ(ChangeZ { slide: 0, changes: vec![(id.clone(), 1, 5)] }),
        &mut document,
    );
    assert_eq!(document.slides[0].elements[0].z, 5);
    let before = document.slides[0].elements[0].kind.clone();
    let after = ElementKind::Text { props: TextProps { blocks: vec![TextBlock::default(), TextBlock::default()] } };
    history.execute(
        Edit::EditElement(EditElement { slide: 0, id, before: before.clone(), after: after.clone() }),
        &mut document,
    );
    assert_eq!(document.slides[0].elements[0].kind, after);
    assert!(history.undo(&mut document));
    assert_eq!(document.slides[0].elements[0].kind, before);
    assert!(history.undo(&mut document));
    assert_eq!(document.slides[0].elements[0].z, 1);
    assert!(history.undo(&mut document));
    assert_eq!(document.slides[0].transition, Transition::default());
    assert!(history.undo(&mut document));
    assert_eq!(document.slides[0].notes, "");
}

#[test]
fn reorder_moves_a_slide_back_and_forth() {
    let mut document = Document::default();
    for _ in 0..3 {
        document.slides.push(Slide::new(Background::default()));
    }
    let ids = document.slides.iter().map(|s| s.id.clone()).collect::<Vec<_>>();
    let mut history = UndoStack::default();
    history.execute(Edit::ReorderSlide(ReorderSlide { from: 3, to: 1 }), &mut document);
    let now = document.slides.iter().map(|s| s.id.clone()).collect::<Vec<_>>();
    assert_eq!(now, vec![ids[0].clone(), ids[3].clone(), ids[1].clone(), ids[2].clone()]);
    assert!(history.undo(&mut document));
    assert_eq!(document.slides.iter().map(|s| s.id.clone()).collect::<Vec<_>>(), ids);
}

#[test]
fn history_keeps_the_last_two_hundred_edits() {
    assert_eq!(HISTORY_LIMIT, 200);
    let mut document = Document::default();
    let mut history = UndoStack::default();
    for _ in 0..201 {
        let element = Element::text(at(0.0), at(0.0));
        history.execute(Edit::AddElement(AddElement { slide: 0, element }), &mut document);
    }
    for _ in 0..200 {
        assert!(history.undo(&mut document));
    }
    assert!(!history.undo(&mut document));
    assert_eq!(document.slides[0].elements.len(), 1);
}

#[test]
fn execute_forgets_what_could_be_redone() {
    let mut document = Document::default();
    let mut history = UndoStack::default();
    let element = Element::text(at(0.0), at(0.0));
    history.execute(Edit::AddElement(AddElement { slide: 0, element }), &mut document);
    assert!(history.undo(&mut document));
    let element = Element::text(at(0.0), at(0.0));
    history.execute(Edit::AddElement(AddElement { slide: 0, element }), &mut document);
    assert!(!history.redo(&mut document));
    history.clear();
    assert!(!history.undo(&mut document));
}

#[test]
fn edits_say_where_they_can_run() {
    let document = Document::default();
    let element = Element::text(at(0.0), at(0.0));
    let add = Edit::AddElement(AddElement { slide: 1, element });
    assert!(!add.can_apply_to(&document));
    let reorder = Edit::ReorderSlide(ReorderSlide { from: 0, to: 0 });
    assert!(reorder.can_apply_to(&document));
    let slide = Slide::new(Background::default());
    let delete = Edit::DeleteSlide(DeleteSlide { index: 1, slide });
    assert!(!delete.can_apply_to(&document));
    assert!(delete.can_revert_to(&document));
    let mut history = UndoStack::default();
    assert!(history.can_undo_on(&document));
    let element = Element::text(at(0.0), at(0.0));
    let mut other = Document::default();
    other.slides.push(Slide::new(Background::default()));
    history.execute(Edit::AddElement(AddElement { slide: 1, element }), &mut other);
    assert!(!history.can_undo_on(&document));
    assert!(history.can_undo_on(&other));
    let _ = ListType::Bullet;
}
