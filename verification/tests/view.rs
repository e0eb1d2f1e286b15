use clipper::clipper::{image_preview, ClipboardImage, Clipper, Message};
use clipper::storage::LoadedState;
use clipper::view::{button_colors, label_color, poll_hint, Body, ButtonKind, Status};

fn history() -> Clipper {
    let mut c = Clipper::new(None, LoadedState::default());
    c.poll_clipboard(Some("héllo\nworld".to_string()), None);
    c.poll_clipboard(
        None,
        Some(ClipboardImage { width: 2, height: 1, bytes: vec![1, 2, 3, 4, 5, 6, 7, 8] }),
    );
    c
}

#[test]
fn rows_show_previews_and_the_selection() {
    let c = history();
    let rows = c.rows().unwrap();
    assert_eq!(rows.len(), 2);
    assert_eq!((rows[0].id, rows[0].preview.as_str(), rows[0].selected), (1, "image · 2×1", false));
    assert_eq!((rows[1].id, rows[1].preview.as_str(), rows[1].selected), (0, "héllo", true));
    assert_eq!(rows.iter().filter(|row| row.selected).count(), 1);
}

#[test]
fn rows_follow_the_search() {
    let mut c = history();
    c.toggle_search();
    c.update(Message::SearchChanged("world".to_string()));
    let rows = c.rows().unwrap();
    assert_eq!(rows.len(), 1);
    assert_eq!(rows[0].id, 0);
}

#[test]
fn a_text_is_shown_with_its_length() {
    let panel = history().content_panel();
    assert!(matches!(&panel.body, Body::Text(t) if t == "héllo\nworld"));
    assert_eq!(panel.meta, "text · 11 chars");
    assert!(panel.can_copy);
}

#[test]
fn an_image_is_shown_with_its_size() {
    let mut c = history();
    c.update(Message::Select(1));
    let panel = c.content_panel();
    assert!(matches!(panel.body, Body::Image(1)));
    assert_eq!(panel.meta, "image · 2×1");
    assert!(panel.can_copy);
    assert_eq!(c.selected_clip().unwrap().id, 1);
}

#[test]
fn without_a_selected_entry_there_is_nothing_to_copy() {
    let c = Clipper::new(None, LoadedState::default());
    let panel = c.content_panel();
    assert!(matches!(panel.body, Body::Waiting));
    assert_eq!(panel.meta, "");
    assert!(!panel.can_copy);
    let mut c = history();
    c.update(Message::Select(9));
    assert!(!c.content_panel().can_copy);
}

#[test]
fn labels() {
    assert_eq!(image_preview(1920, 1080), "image · 1920×1080");
    assert_eq!(poll_hint(), "How often to read the clipboard (100–10000 ms).");
}

#[test]
fn colours_follow_kind_and_status() {
    let selected = ButtonKind::Row { selected: true };
    for status in [Status::Active, Status::Hovered, Status::Pressed, Status::Disabled] {
        assert_eq!(button_colors(selected, status).background, 0x3b5ba9);
        assert_eq!(button_colors(selected, status).border, 0x5c82d6);
    }
    let row = ButtonKind::Row { selected: false };
    assert_eq!(button_colors(row, Status::Hovered).background, 0x232730);
    assert_eq!(button_colors(row, Status::Pressed).border, 0x252831);
    assert_eq!(button_colors(ButtonKind::Copy, Status::Disabled).background, 0x232730);
    assert_eq!(button_colors(ButtonKind::Copy, Status::Disabled).border, 0x2e333e);
    assert_eq!(button_colors(ButtonKind::Save, Status::Pressed).background, 0x304a90);
    assert_eq!(button_colors(ButtonKind::Cancel, Status::Pressed).background, 0x22252c);
    assert_eq!(button_colors(ButtonKind::Settings, Status::Pressed).background, 0x20242c);
    assert_eq!(button_colors(ButtonKind::DeleteAll, Status::Active).background, 0x7a2a2a);
    assert_eq!(button_colors(ButtonKind::Remove, Status::Pressed).border, 0xb53a3a);
    assert_eq!(label_color(true), 0xffffff);
    assert_eq!(label_color(false), 0xc3c7d1);
}
