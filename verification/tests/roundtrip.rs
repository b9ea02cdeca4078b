use pulso::model::commands::{AddElement, ChangeFrames, Edit, ReorderSlide};
use pulso::model::document::{Background, Document, Element, Scalar, ShapeType, Slide};
use pulso::model::undo::UndoStack;

fn at(value: f64) -> Scalar {
    Scalar(value.to_bits())
}

fn value(scalar: Scalar) -> f64 {
    f64::from_bits(scalar.0)
}

#[test]
fn commands_undo_and_redo_mutations() {
    let mut document = Document::default();
    let element = Element::shape(ShapeType::Rect, at(10.0), at(20.0));
    let id = element.id.clone();
    let mut history = UndoStack::default();
    history.execute(Edit::AddElement(AddElement { slide: 0, element }), &mut document);
    assert_eq!(document.slides[0].elements.len(), 1);
    let before = document.slides[0].elements[0].frame;
    let mut after = before;
    after.x = at(99.0);
    history.execute(
        Edit::ChangeFrames(ChangeFrames {
            slide: 0,
            changes: vec![(id, before, after)],
        }),
        &mut document,
    );
    assert_eq!(value(document.slides[0].elements[0].frame.x), 99.0);
    assert!(history.undo(&mut document));
    assert_eq!(value(document.slides[0].elements[0].frame.x), 10.0);
    assert!(history.redo(&mut document));
    assert_eq!(value(document.slides[0].elements[0].frame.x), 99.0);
}

#[test]
fn slide_reordering_preserves_identity_and_is_undoable() {
    let mut document = Document::default();
    document.slides.push(Slide::new(Background::default()));
    document.slides.push(Slide::new(Background::default()));
    let ids = document
        .slides
        .iter()
        .map(|slide| slide.id.clone())
        .collect::<Vec<_>>();
    let mut history = UndoStack::default();
    history.execute(Edit::ReorderSlide(ReorderSlide { from: 0, to: 2 }), &mut document);
    assert_eq!(document.slides[2].id, ids[0]);
    assert!(history.undo(&mut document));
    assert_eq!(
        document
            .slides
            .iter()
            .map(|slide| &slide.id)
            .collect::<Vec<_>>(),
        ids.iter().collect::<Vec<_>>()
    );
}
