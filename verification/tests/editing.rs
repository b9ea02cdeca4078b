use pulso::canvas::render::{
    background_fill, color, color_is_readable, drawing_order, text_markup,
};
use pulso::canvas::text_overlay::{plain_text, update_from_plain};
use pulso::editor::{
    autosave_interval, editable_text, editor_key_action, may_close, set_notes, text_edit,
    EditorAction,
    active_after_delete, active_after_reorder, add_slide_after, change_z, click,
    delete_selected, delete_slide, drag_changes, duplicate_slide, inserted_element,
    inserted_image, reorder_slides, selection_label, topmost_hit, transition_choice, transition_kind,
    window_title, InsertKind,
};
use pulso::model::document::{
    Background, Document, Element, ElementKind, ListType, Scalar, ShapeType, Slide, TextAttrs,
    TextBlock, TextProps, TextRun, TransitionType,
};
use pulso::preferences::{color_scheme, scheme_index, scheme_name, ColorScheme};
use pulso::show::{
    following_slide, key_action, next_slide, shows_at_once, timer_label, PresenterTimer, ShowAction,
};
use pulso::model::document::Transition;

fn at(value: f64) -> Scalar {
    Scalar(value.to_bits())
}

fn value(scalar: Scalar) -> f64 {
    f64::from_bits(scalar.0)
}

fn text_props(lines: &[&str]) -> TextProps {
    TextProps {
        blocks: lines
            .iter()
            .map(|line| TextBlock {
                runs: vec![TextRun { text: line.to_string(), attrs: TextAttrs::default() }],
                ..TextBlock::default()
            })
            .collect(),
    }
}

#[test]
fn active_slide_after_deleting() {
    assert_eq!(active_after_delete(2, 2, 3), 1);
    assert_eq!(active_after_delete(0, 0, 3), 0);
    assert_eq!(active_after_delete(2, 0, 3), 1);
    assert_eq!(active_after_delete(0, 1, 3), 0);
}

#[test]
fn active_slide_follows_a_move() {
    assert_eq!(active_after_reorder(0, 0, 2, 3), 2);
    assert_eq!(active_after_reorder(1, 0, 2, 3), 0);
    assert_eq!(active_after_reorder(1, 2, 0, 3), 2);
    assert_eq!(active_after_reorder(0, 1, 2, 3), 0);
}

#[test]
fn slide_operations_refuse_what_the_editor_ignores() {
    let mut document = Document::default();
    assert!(delete_slide(&document, 0, 0).is_none());
    assert!(duplicate_slide(&document, 1).is_none());
    assert!(reorder_slides(&document, 0, 0, 0).is_none());
    let (add, active) = add_slide_after(&document, 0);
    assert_eq!((add.index, active), (1, 1));
    document.slides.push(Slide::new(Background::default()));
    let (delete, active) = delete_slide(&document, 1, 1).unwrap();
    assert_eq!((delete.index, active), (1, 0));
    assert_eq!(delete.slide.id, document.slides[1].id);
    let (copy, active) = duplicate_slide(&document, 0).unwrap();
    assert_eq!((copy.index, active), (1, 1));
    assert_ne!(copy.slide.id, document.slides[0].id);
    let (reorder, active) = reorder_slides(&document, 1, 0, 0).unwrap();
    assert_eq!((reorder.from, reorder.to, active), (1, 0, 1));
}

#[test]
fn clicking_selects_and_shift_toggles() {
    let mut selected = vec!["a".to_string(), "b".to_string()];
    click(&mut selected, Some("c".into()), false);
    assert_eq!(selected, vec!["c".to_string()]);
    click(&mut selected, Some("d".into()), true);
    assert_eq!(selected, vec!["c".to_string(), "d".to_string()]);
    click(&mut selected, Some("c".into()), true);
    assert_eq!(selected, vec!["d".to_string()]);
    click(&mut selected, None, true);
    assert_eq!(selected, vec!["d".to_string()]);
    click(&mut selected, None, false);
    assert!(selected.is_empty());
}

#[test]
fn depth_and_deletion_edits_follow_the_selection() {
    let mut a = Element::text(at(0.0), at(0.0));
    a.z = i32::MAX;
    let b = Element::text(at(0.0), at(0.0));
    let elements = vec![a.clone(), b.clone()];
    let selected = vec![a.id.clone()];
    let edit = change_z(0, &elements, &selected, 1).unwrap();
    assert_eq!(edit.changes, vec![(a.id.clone(), i32::MAX, i32::MAX)]);
    let edit = change_z(0, &elements, &selected, -1).unwrap();
    assert_eq!(edit.changes, vec![(a.id.clone(), i32::MAX, i32::MAX - 1)]);
    assert!(change_z(0, &elements, &Vec::new(), 1).is_none());
    let deletion = delete_selected(0, &elements, &selected).unwrap();
    assert_eq!(deletion.elements, vec![a.clone()]);
    assert!(delete_selected(0, &elements, &Vec::new()).is_none());
}

#[test]
fn a_drag_records_old_and_new_frames() {
    let mut moved = Element::text(at(10.0), at(20.0));
    let old = moved.frame;
    moved.frame.x = at(30.0);
    let elements = vec![moved.clone()];
    let edit = drag_changes(0, &vec![(moved.id.clone(), old), ("gone".into(), old)], &elements).unwrap();
    assert_eq!(edit.changes, vec![(moved.id.clone(), old, moved.frame)]);
    assert!(drag_changes(0, &vec![("gone".into(), old)], &elements).is_none());
}

#[test]
fn labels_of_the_editor() {
    assert_eq!(window_title(true, Some("aula.pulso")), "• aula.pulso — Pulso");
    assert_eq!(window_title(false, None), "Sem título — Pulso");
    assert_eq!(selection_label(0), "Nenhuma seleção");
    assert_eq!(selection_label(1), "1 elemento selecionado");
    assert_eq!(selection_label(12), "12 elementos selecionados");
}

#[test]
fn transition_choices() {
    assert_eq!(transition_choice(TransitionType::Cut), 0);
    assert_eq!(transition_choice(TransitionType::Fade), 1);
    assert_eq!(transition_choice(TransitionType::Slide), 2);
    assert_eq!(transition_kind(0), TransitionType::Cut);
    assert_eq!(transition_kind(2), TransitionType::Slide);
    assert_eq!(transition_kind(7), TransitionType::Fade);
}

#[test]
fn inserted_objects() {
    let text = inserted_element(InsertKind::Text);
    assert_eq!((value(text.frame.x), value(text.frame.y)), (140.0, 120.0));
    let arrow = inserted_element(InsertKind::Shape(ShapeType::Arrow));
    assert_eq!((value(arrow.frame.x), value(arrow.frame.y)), (180.0, 160.0));
    let image = inserted_image("abc.png");
    assert_eq!((value(image.frame.x), value(image.frame.y)), (160.0, 120.0));
    match image.kind {
        ElementKind::Image { props } => assert_eq!(props.src, "media/abc.png"),
        _ => panic!("not an image"),
    }
}

#[test]
fn plain_text_joins_paragraphs_by_lines() {
    let mut props = text_props(&["Um", "Dois"]);
    props.blocks[0].runs.push(TextRun { text: " e meio".into(), attrs: TextAttrs::default() });
    assert_eq!(plain_text(&props), "Um e meio\nDois");
}

#[test]
fn plain_text_edits_keep_the_first_paragraph_layout() {
    let mut props = text_props(&["x"]);
    props.blocks[0].list = Some(ListType::Bullet);
    props.blocks[0].runs[0].attrs.bold = true;
    let mut kind = ElementKind::Text { props };
    update_from_plain(&mut kind, "a\n\nb\n");
    match &kind {
        ElementKind::Text { props } => {
            assert_eq!(props.blocks.len(), 4);
            for block in &props.blocks {
                assert_eq!(block.list, Some(ListType::Bullet));
                assert!(block.runs[0].attrs.bold);
            }
            assert_eq!(plain_text(props), "a\n\nb\n");
        }
        _ => panic!("not text"),
    }
    let mut empty = ElementKind::Text { props: TextProps { blocks: vec![] } };
    update_from_plain(&mut empty, "oi");
    match &empty {
        ElementKind::Text { props } => {
            assert_eq!(props.blocks.len(), 1);
            assert_eq!(props.blocks[0].font_family, "Inter");
            assert_eq!(props.blocks[0].runs[0].text, "oi");
        }
        _ => panic!("not text"),
    }
    let mut shape = Element::shape(ShapeType::Rect, at(0.0), at(0.0)).kind;
    let before = shape.clone();
    update_from_plain(&mut shape, "ignored");
    assert_eq!(shape, before);
}

#[test]
fn colours_are_read_from_hex() {
    assert_eq!(color("#FF6F61"), (255, 111, 97, 255));
    assert_eq!(color("##ff6f6180"), (255, 111, 97, 128));
    assert_eq!(color("#abc"), (0, 0, 0, 255));
    assert_eq!(color("+F+F+F"), (15, 15, 15, 255));
    assert_eq!(color("#GG0000"), (0, 0, 0, 255));
    assert_eq!(color("#1234567"), (0x12, 0x34, 0x56, 255));
    assert!(color_is_readable("#FF6F61"));
    assert!(!color_is_readable("#Aé0000"));
    assert!(color_is_readable("é"));
}

#[test]
fn elements_are_drawn_by_depth() {
    let mut a = Element::text(at(0.0), at(0.0));
    a.z = 2;
    let b = Element::text(at(0.0), at(0.0));
    let c = Element::text(at(0.0), at(0.0));
    let order = drawing_order(&vec![a.clone(), b.clone(), c.clone()]);
    let ids = order.iter().map(|e| e.id.clone()).collect::<Vec<_>>();
    assert_eq!(ids, vec![b.id, c.id, a.id]);
}

#[test]
fn text_markup_of_runs() {
    let mut props = text_props(&["a<b", "c"]);
    props.blocks[0].list = Some(ListType::Ordered);
    props.blocks[0].runs[0].attrs.bold = true;
    props.blocks[1].runs[0].attrs.color = Some("#123456".into());
    props.blocks[1].runs[0].attrs.strikethrough = true;
    let escaped = vec![vec!["a&lt;b".to_string()], vec!["c".to_string()]];
    assert_eq!(
        text_markup(&props, &escaped),
        "1. <span foreground=\"#202020\" weight=\"bold\">a&lt;b</span>\n<span foreground=\"#123456\" strikethrough=\"true\">c</span>"
    );
}

#[test]
fn show_navigation_stops_at_the_ends() {
    assert_eq!(next_slide(0, 1, 3), 1);
    assert_eq!(next_slide(2, 1, 3), 2);
    assert_eq!(next_slide(0, -1, 3), 0);
    assert_eq!(next_slide(2, -1, 3), 1);
    assert_eq!(following_slide(1, 3), 2);
    assert_eq!(following_slide(2, 3), 2);
    assert!(shows_at_once(&Transition { kind: TransitionType::Cut, duration_ms: 300 }));
    assert!(shows_at_once(&Transition { kind: TransitionType::Fade, duration_ms: 0 }));
    assert!(!shows_at_once(&Transition::default()));
}

#[test]
fn presenter_timer_reads_minutes_and_seconds() {
    assert_eq!(timer_label(0), "00:00");
    assert_eq!(timer_label(65), "01:05");
    assert_eq!(timer_label(3725), "62:05");
    assert_eq!(timer_label(6000), "100:00");
}

#[test]
fn colour_scheme_preference() {
    assert_eq!(scheme_index("light"), 1);
    assert_eq!(scheme_index("dark"), 2);
    assert_eq!(scheme_index("system"), 0);
    assert_eq!(scheme_index("other"), 0);
    assert_eq!(scheme_name(0), "system");
    assert_eq!(scheme_name(1), "light");
    assert_eq!(scheme_name(2), "dark");
    assert_eq!(color_scheme("dark"), ColorScheme::ForceDark);
    assert_eq!(color_scheme("light"), ColorScheme::ForceLight);
    assert_eq!(color_scheme("system"), ColorScheme::Default);
}

#[test]
fn click_finds_the_topmost_element_under_the_pointer() {
    let mut elements = vec![
        Element::shape(ShapeType::Rect, at(0.0), at(0.0)),
        Element::shape(ShapeType::Ellipse, at(10.0), at(10.0)),
        Element::shape(ShapeType::Rect, at(20.0), at(20.0)),
    ];
    elements[0].z = 3;
    elements[1].z = 5;
    elements[2].z = 5;
    assert_eq!(topmost_hit(&elements, &vec![false, false, false]), None);
    assert_eq!(topmost_hit(&elements, &vec![true, false, false]), Some(0));
    assert_eq!(topmost_hit(&elements, &vec![true, true, false]), Some(1));
    assert_eq!(topmost_hit(&elements, &vec![true, true, true]), Some(2));
    assert_eq!(topmost_hit(&elements, &vec![true, false, true]), Some(2));
    elements[2].z = 1;
    assert_eq!(topmost_hit(&elements, &vec![true, false, true]), Some(0));
}

#[test]
fn show_keys() {
    assert_eq!(key_action(0xff1b), ShowAction::Close);
    assert_eq!(key_action(u32::from(b'b')), ShowAction::ToggleBlack);
    assert_eq!(key_action(u32::from(b'B')), ShowAction::ToggleBlack);
    for key in [0xff53, 0xff54, 0x20, 0xff56] {
        assert_eq!(key_action(key), ShowAction::Forward);
    }
    for key in [0xff51, 0xff52, 0xff55] {
        assert_eq!(key_action(key), ShowAction::Back);
    }
    assert_eq!(key_action(u32::from(b'a')), ShowAction::Ignore);
    assert_eq!(key_action(0xff0d), ShowAction::Ignore);
}

#[test]
fn presenter_timer_counts_pauses_and_resets() {
    let mut timer = PresenterTimer::new();
    assert_eq!(timer.label(), "00:00");
    for _ in 0..75 {
        timer.tick();
    }
    assert_eq!(timer.label(), "01:15");
    assert_eq!(timer.toggle(), "Continuar");
    timer.tick();
    assert_eq!(timer.label(), "01:15");
    assert_eq!(timer.toggle(), "Pausar");
    timer.tick();
    assert_eq!(timer.label(), "01:16");
    timer.reset();
    assert_eq!(timer.label(), "00:00");
    assert!(timer.running);
}

#[test]
fn backgrounds_paint_their_colour_or_white() {
    assert_eq!(background_fill(&Background::Color { value: "#112233".to_string() }), "#112233");
    assert_eq!(background_fill(&Background::Gradient { value: "#000000".to_string() }), "#FFFFFF");
    assert_eq!(background_fill(&Background::Image { value: "media/a.png".to_string() }), "#FFFFFF");
}

#[test]
fn editor_keys() {
    assert_eq!(editor_key_action(0xffff, false, false, 3), EditorAction::DeleteSelected);
    assert_eq!(editor_key_action(0xff08, true, false, 3), EditorAction::DeleteSelected);
    assert_eq!(editor_key_action(0xffc2, false, false, 3), EditorAction::Present(0));
    assert_eq!(editor_key_action(0xffc2, false, true, 3), EditorAction::Present(3));
    assert_eq!(editor_key_action(0x7a, true, false, 3), EditorAction::Undo);
    assert_eq!(editor_key_action(0x7a, true, true, 3), EditorAction::Redo);
    assert_eq!(editor_key_action(0x7a, false, false, 3), EditorAction::Ignore);
    assert_eq!(editor_key_action(0xff51, false, false, 3), EditorAction::Nudge(-1, 0));
    assert_eq!(editor_key_action(0xff53, false, true, 3), EditorAction::Nudge(10, 0));
    assert_eq!(editor_key_action(0xff52, false, true, 3), EditorAction::Nudge(0, -10));
    assert_eq!(editor_key_action(0xff54, false, false, 3), EditorAction::Nudge(0, 1));
    assert_eq!(editor_key_action(0x61, true, false, 3), EditorAction::Ignore);
}

#[test]
fn only_texts_are_edited_in_place() {
    let text = Element::text(at(10.0), at(20.0));
    let shape = Element::shape(ShapeType::Rect, at(0.0), at(0.0));
    let elements = vec![shape.clone(), text.clone()];
    assert_eq!(editable_text(&elements, &text.id), Some(text.clone()));
    assert_eq!(editable_text(&elements, &shape.id), None);
    assert_eq!(editable_text(&elements, &"el_missing".to_string()), None);

    let edit = text_edit(2, &text.id, &text.kind, "um\ndois");
    assert_eq!(edit.slide, 2);
    assert_eq!(edit.id, text.id);
    assert_eq!(edit.before, text.kind);
    match &edit.after {
        ElementKind::Text { props } => assert_eq!(plain_text(props), "um\ndois"),
        _ => panic!("not text"),
    }
}

#[test]
fn notes_closing_and_autosave() {
    let mut slide = Slide::new(Background::default());
    let id = slide.id.clone();
    assert!(set_notes(&mut slide, "lembrar"));
    assert_eq!(slide.notes, "lembrar");
    assert!(!set_notes(&mut slide, "lembrar"));
    assert_eq!(slide.id, id);
    assert!(may_close(false, false));
    assert!(!may_close(true, false));
    assert!(may_close(true, true));
    assert_eq!(autosave_interval(None), 30);
    assert_eq!(autosave_interval(Some(120)), 120);
}
