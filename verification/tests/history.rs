use clipper::capture::{fix_zero_alpha, hash_slice};
use clipper::clipper::{needs_image, ClipboardImage, Clipper, Key, Message};
use clipper::model::Task;
use clipper::storage::{
    encode_settings, ClipData, LoadedState, PersistedClip, Request, Settings, Storage,
    StoredTables,
};
use std::collections::hash_map::DefaultHasher;
use std::collections::HashMap;
use std::hash::{Hash, Hasher};

fn empty() -> Clipper {
    Clipper::new(None, LoadedState::default())
}

fn stored() -> Clipper {
    let settings = Settings { history_size: 200, storage_enabled: true };
    Clipper::new(Some(Storage::open()), LoadedState { clips: Vec::new(), settings })
}

fn text(t: &str) -> Message {
    Message::Tick { text: Some(t.to_string()), image: None, focus_requested: false }
}

fn image(width: usize, height: usize, bytes: Vec<u8>) -> Message {
    Message::Tick {
        text: None,
        image: Some(ClipboardImage { width, height, bytes }),
        focus_requested: false,
    }
}

fn previews(c: &Clipper) -> Vec<String> {
    c.clips.iter().map(|clip| clip.preview.clone()).collect()
}

fn commit(tables: &mut StoredTables, c: &mut Clipper) {
    if let Some(storage) = c.storage.as_mut() {
        for request in storage.take_pending() {
            match request {
                Request::SaveClip { id, record } => {
                    tables.clips.insert(id, record);
                }
                Request::DeleteClip { id } => {
                    tables.clips.remove(&id);
                }
                Request::SaveOrder { record } => tables.order = Some(record),
                Request::DeleteAllClips { order } => {
                    tables.clips.clear();
                    tables.order = Some(order);
                }
                Request::SaveSettings { record } => tables.settings = Some(record),
            }
        }
    }
}

fn no_records() -> StoredTables {
    StoredTables { clips: HashMap::new(), order: None, settings: None }
}

#[test]
fn a_hash_is_that_of_the_byte_slice() {
    for bytes in [&b""[..], &b"hello"[..], &[0, 0, 0][..]] {
        let mut h = DefaultHasher::new();
        bytes.hash(&mut h);
        assert_eq!(hash_slice(bytes), h.finish());
    }
    assert_ne!(hash_slice(b"a"), hash_slice(b"b"));
}

#[test]
fn a_transparent_image_becomes_opaque() {
    let mut bytes = vec![1, 2, 3, 0, 4, 5, 6, 0, 7];
    fix_zero_alpha(&mut bytes);
    assert_eq!(bytes, vec![1, 2, 3, 255, 4, 5, 6, 255, 7]);
    fix_zero_alpha(&mut bytes);
    assert_eq!(bytes, vec![1, 2, 3, 255, 4, 5, 6, 255, 7]);
}

#[test]
fn an_image_with_a_visible_pixel_stays() {
    let mut bytes = vec![1, 2, 3, 0, 4, 5, 6, 1];
    fix_zero_alpha(&mut bytes);
    assert_eq!(bytes, vec![1, 2, 3, 0, 4, 5, 6, 1]);
    let mut short = vec![0, 0, 0];
    fix_zero_alpha(&mut short);
    assert_eq!(short, vec![0, 0, 0]);
}

#[test]
fn a_new_text_goes_to_the_front() {
    let mut c = empty();
    assert_eq!(c.update(text("one")), Task::Nothing);
    c.update(text("two"));
    assert_eq!(previews(&c), vec!["two", "one"]);
    assert_eq!(c.order_vec(), vec![1, 0]);
    assert_eq!(c.selected, Some(0));
    assert_eq!(c.next_id, 2);
    assert_eq!(c.last_clipboard_hash, Some(hash_slice(b"two")));
}

#[test]
fn a_repeated_text_is_bumped() {
    let mut c = empty();
    c.update(text("one"));
    c.update(text("two"));
    c.update(text("one"));
    assert_eq!(c.order_vec(), vec![0, 1]);
    assert_eq!(c.next_id, 2);
}

#[test]
fn an_unchanged_clipboard_does_nothing() {
    let mut c = stored();
    c.update(text("one"));
    c.storage.as_mut().unwrap().take_pending();
    c.update(text("one"));
    assert_eq!(c.clips.len(), 1);
    assert!(c.storage.as_mut().unwrap().take_pending().is_empty());
}

#[test]
fn an_empty_text_gives_way_to_an_image() {
    let mut c = empty();
    c.poll_clipboard(
        Some(String::new()),
        Some(ClipboardImage { width: 1, height: 1, bytes: vec![1, 2, 3, 0] }),
    );
    assert_eq!(previews(&c), vec!["image · 1×1"]);
    match &c.clips[0].data {
        ClipData::Image { width, height, rgba } => {
            assert_eq!((*width, *height), (1, 1));
            assert_eq!(*rgba, vec![1, 2, 3, 255]);
        }
        ClipData::Text(_) => panic!("a text"),
    }
    assert_eq!(c.clips[0].hash, hash_slice(&[1, 2, 3, 255]));
    c.poll_clipboard(None, None);
    c.poll_clipboard(Some(String::new()), None);
    assert_eq!(c.clips.len(), 1);
}

#[test]
fn a_text_goes_before_an_image() {
    let mut c = empty();
    c.poll_clipboard(
        Some("t".to_string()),
        Some(ClipboardImage { width: 1, height: 1, bytes: vec![1, 2, 3, 4] }),
    );
    assert_eq!(previews(&c), vec!["t"]);
}

#[test]
fn a_removed_entry_stays_away() {
    let mut c = empty();
    c.update(text("one"));
    c.update(text("two"));
    c.update(Message::Remove(1));
    c.update(text("two"));
    assert_eq!(c.order_vec(), vec![0]);
    c.update(text("three"));
    c.update(text("two"));
    assert_eq!(previews(&c), vec!["two", "three", "one"]);
}

#[test]
fn removing_the_selected_entry_selects_the_first() {
    let mut c = empty();
    for t in ["one", "two", "three"] {
        c.update(text(t));
    }
    c.update(Message::Select(1));
    c.update(Message::Remove(1));
    assert_eq!(c.selected, Some(2));
    c.update(Message::Remove(0));
    assert_eq!(c.selected, Some(2));
    c.update(Message::Remove(2));
    assert_eq!(c.selected, None);
    c.update(Message::Remove(2));
    assert!(c.clips.is_empty());
}

#[test]
fn the_oldest_entries_go_beyond_the_cap() {
    let mut c = empty();
    c.settings.history_size = 2;
    for t in ["one", "two", "three"] {
        c.update(text(t));
    }
    assert_eq!(c.order_vec(), vec![2, 1]);
    assert_eq!(c.selected, Some(2));
}

#[test]
fn the_default_cap_is_two_hundred() {
    let mut c = empty();
    for i in 0..205 {
        c.update(text(&format!("clip {i}")));
    }
    assert_eq!(c.clips.len(), 200);
    assert_eq!(c.clips[0].preview, "clip 204");
    assert_eq!(c.clips[199].preview, "clip 5");
}

#[test]
fn a_cut_deletes_the_oldest_first() {
    let mut c = stored();
    for t in ["one", "two", "three"] {
        c.update(text(t));
    }
    c.storage.as_mut().unwrap().take_pending();
    c.settings.history_size = 1;
    c.trim();
    let writes = c.storage.as_mut().unwrap().take_pending();
    assert_eq!(writes.len(), 2);
    assert!(matches!(writes[0], Request::DeleteClip { id: 0 }));
    assert!(matches!(writes[1], Request::DeleteClip { id: 1 }));
    assert_eq!(c.selected, Some(2));
}

#[test]
fn copying_moves_an_entry_to_the_front_and_notes_it() {
    let mut c = empty();
    for t in ["one", "two"] {
        c.update(text(t));
    }
    assert_eq!(c.selected, Some(0));
    assert!(matches!(c.copy_content(), Some(ClipData::Text(t)) if t == "one"));
    c.update(Message::CopySelected { clipboard_opened: false });
    assert_eq!(c.order_vec(), vec![1, 0]);
    c.update(Message::CopySelected { clipboard_opened: true });
    assert_eq!(c.order_vec(), vec![0, 1]);
    assert_eq!(c.last_clipboard_hash, Some(hash_slice(b"one")));
    c.update(text("one"));
    assert_eq!(c.clips.len(), 2);
}

#[test]
fn copying_without_a_selected_entry_does_nothing() {
    let mut c = empty();
    c.update(Message::CopySelected { clipboard_opened: true });
    assert_eq!(c.last_clipboard_hash, None);
    c.update(text("one"));
    c.update(Message::Select(9));
    assert!(c.copy_content().is_none());
    c.update(Message::CopySelected { clipboard_opened: true });
    assert_eq!(c.last_clipboard_hash, Some(hash_slice(b"one")));
}

#[test]
fn selecting_another_entry_scrolls_to_the_top() {
    let mut c = empty();
    c.update(text("one"));
    assert_eq!(c.update(Message::Select(0)), Task::Nothing);
    assert_eq!(c.update(Message::Select(5)), Task::ScrollToTop);
    assert_eq!(c.update(Message::Select(5)), Task::Nothing);
}

#[test]
fn the_first_window_is_brought_to_the_front_on_request() {
    let mut c = empty();
    let call = || Message::Tick { text: None, image: None, focus_requested: true };
    assert_eq!(c.update(call()), Task::Nothing);
    c.update(Message::WindowOpened(7));
    c.update(Message::WindowOpened(8));
    assert_eq!(c.main_window, Some(7));
    assert_eq!(c.update(call()), Task::FocusWindow(7));
    assert_eq!(c.update(text("x")), Task::Nothing);
}

#[test]
fn control_f_and_escape_steer_the_search() {
    let mut c = empty();
    let f = |letter: &str, control: bool| Message::Key {
        key: Key::Character(letter.to_string()),
        control,
    };
    assert_eq!(c.update(f("f", false)), Task::Nothing);
    assert!(!c.search_active);
    assert_eq!(c.update(f("F", true)), Task::FocusSearch);
    assert!(c.search_active);
    c.update(Message::SearchChanged("abc".to_string()));
    assert_eq!(c.search_query, "abc");
    assert_eq!(c.update(f("g", true)), Task::Nothing);
    assert!(c.search_active);
    assert_eq!(c.update(f("f", true)), Task::Nothing);
    assert!(!c.search_active);
    assert_eq!(c.search_query, "");
    c.update(f("f", true));
    c.update(Message::Key { key: Key::Other, control: false });
    assert!(c.search_active);
    c.update(Message::Key { key: Key::Escape, control: false });
    assert!(!c.search_active);
}

#[test]
fn drafts_become_settings() {
    let mut c = stored();
    for t in ["one", "two", "three"] {
        c.update(text(t));
    }
    c.update(Message::ToggleSettings);
    assert!(c.settings_open);
    assert_eq!(c.settings_draft_history_size, "200");
    assert_eq!(c.settings_draft_poll_interval_ms, "500");
    c.update(Message::SettingsHistorySizeChanged(" 2 ".to_string()));
    c.update(Message::SettingsPollIntervalChanged("+50".to_string()));
    c.storage.as_mut().unwrap().take_pending();
    c.update(Message::SettingsSave);
    assert!(!c.settings_open);
    assert_eq!(c.settings.history_size, 2);
    assert_eq!(c.poll_interval_ms, 100);
    assert_eq!(c.clips.len(), 2);
    let writes = c.storage.as_mut().unwrap().take_pending();
    assert_eq!(writes.len(), 3);
    assert!(matches!(writes[0], Request::DeleteClip { id: 0 }));
    assert!(
        matches!(&writes[1], Request::SaveSettings { record } if *record == encode_settings(&c.settings))
    );
    assert!(matches!(writes[2], Request::SaveOrder { .. }));
}

#[test]
fn poll_intervals_are_kept_within_their_bounds() {
    let mut c = empty();
    for (draft, interval) in [("99", 100), ("100", 100), ("750", 750), ("10001", 10_000)] {
        c.update(Message::SettingsPollIntervalChanged(draft.to_string()));
        c.update(Message::SettingsSave);
        assert_eq!(c.poll_interval_ms, interval);
    }
}

#[test]
fn drafts_that_are_no_numbers_are_ignored() {
    let mut c = empty();
    for draft in ["", "0", "-1", "abc", "4294967296", "1 2"] {
        c.update(Message::SettingsHistorySizeChanged(draft.to_string()));
        c.update(Message::SettingsSave);
        assert_eq!(c.settings.history_size, 200, "{draft}");
    }
    for draft in ["", "-1", "abc", "4294967296"] {
        c.update(Message::SettingsPollIntervalChanged(draft.to_string()));
        c.update(Message::SettingsSave);
        assert_eq!(c.poll_interval_ms, 500, "{draft}");
    }
}

#[test]
fn drafts_that_are_not_saved_are_dropped() {
    let mut c = empty();
    c.update(Message::ToggleSettings);
    c.update(Message::SettingsHistorySizeChanged("5".to_string()));
    c.update(Message::ToggleSettings);
    assert!(!c.settings_open);
    assert_eq!(c.settings.history_size, 200);
    c.update(Message::ToggleSettings);
    assert_eq!(c.settings_draft_history_size, "200");
}

#[test]
fn a_new_entry_is_stored_with_the_order() {
    let mut c = stored();
    c.update(text("one"));
    let writes = c.storage.as_mut().unwrap().take_pending();
    assert_eq!(writes.len(), 2);
    assert!(matches!(writes[0], Request::SaveClip { id: 0, .. }));
    assert!(matches!(writes[1], Request::SaveOrder { .. }));
    c.update(Message::Remove(0));
    let writes = c.storage.as_mut().unwrap().take_pending();
    assert_eq!(writes.len(), 2);
    assert!(matches!(writes[0], Request::DeleteClip { id: 0 }));
}

#[test]
fn without_persistence_nothing_is_stored() {
    let mut c = stored();
    c.update(Message::SettingsDiskToggled(false));
    c.storage.as_mut().unwrap().take_pending();
    c.update(text("one"));
    c.update(text("two"));
    c.update(Message::CopySelected { clipboard_opened: true });
    c.update(Message::Remove(0));
    assert!(c.storage.as_mut().unwrap().take_pending().is_empty());
    c.update(Message::SettingsSave);
    assert_eq!(c.storage.as_mut().unwrap().take_pending().len(), 1);
}

#[test]
fn switching_persistence_on_stores_everything() {
    let mut c = stored();
    c.update(Message::SettingsDiskToggled(false));
    c.update(text("one"));
    c.update(image(1, 1, vec![1, 2, 3, 4]));
    let mut tables = no_records();
    commit(&mut tables, &mut c);
    assert!(tables.clips.is_empty());
    c.update(Message::SettingsDiskToggled(true));
    commit(&mut tables, &mut c);
    let state = Storage::load(&tables);
    assert_eq!(state.clips.iter().map(|p| p.id).collect::<Vec<u64>>(), vec![1, 0]);
    assert!(state.settings.storage_enabled);
    c.update(Message::SettingsDiskToggled(true));
    assert_eq!(c.storage.as_mut().unwrap().take_pending().len(), 1);
}

#[test]
fn deleting_all_clears_history_and_disk() {
    let mut c = stored();
    let mut tables = no_records();
    for t in ["one", "two"] {
        c.update(text(t));
    }
    commit(&mut tables, &mut c);
    assert_eq!(tables.clips.len(), 2);
    c.update(Message::SettingsDeleteAll);
    commit(&mut tables, &mut c);
    assert!(c.clips.is_empty());
    assert_eq!(c.selected, None);
    assert!(tables.clips.is_empty());
    assert!(Storage::load(&tables).clips.is_empty());
    c.update(text("two"));
    assert_eq!(previews(&c), vec!["two"]);
}

#[test]
fn a_restart_reads_the_history_back() {
    let mut c = stored();
    let mut tables = no_records();
    c.update(text("one"));
    c.update(image(2, 1, vec![0; 8]));
    c.update(text("three"));
    c.update(text("one"));
    c.update(Message::SettingsHistorySizeChanged("50".to_string()));
    c.update(Message::SettingsSave);
    commit(&mut tables, &mut c);
    let r = Clipper::new(Some(Storage::open()), Storage::load(&tables));
    assert_eq!(r.order_vec(), c.order_vec());
    assert_eq!(previews(&r), previews(&c));
    assert_eq!(
        r.clips.iter().map(|clip| clip.hash).collect::<Vec<u64>>(),
        c.clips.iter().map(|clip| clip.hash).collect::<Vec<u64>>()
    );
    assert_eq!(r.settings.history_size, 50);
    assert_eq!(r.settings_draft_history_size, "50");
    assert_eq!(r.selected, Some(0));
    assert_eq!(r.next_id, 3);
    assert_eq!(r.last_clipboard_hash, None);
}

#[test]
fn ids_continue_after_the_greatest_one() {
    let clip = |id: u64, t: &str| PersistedClip {
        id,
        hash: hash_slice(t.as_bytes()),
        data: ClipData::Text(t.to_string()),
    };
    let loaded = LoadedState {
        clips: vec![clip(5, "five"), clip(9, "nine"), clip(2, "two")],
        settings: Settings::default(),
    };
    let mut c = Clipper::new(None, loaded);
    assert_eq!(c.next_id, 10);
    assert_eq!(c.selected, Some(5));
    c.update(text("new"));
    assert_eq!(c.order_vec(), vec![10, 5, 9, 2]);
    assert_eq!(c.alloc_id(), 11);
}

#[test]
fn bumping_keeps_the_others_in_order() {
    let mut c = empty();
    for t in ["one", "two", "three"] {
        c.update(text(t));
    }
    c.bump_to_top(2);
    assert_eq!(c.order_vec(), vec![0, 2, 1]);
    c.bump_to_top(0);
    assert_eq!(c.order_vec(), vec![0, 2, 1]);
}

#[test]
fn flushing_and_storing_settings() {
    let mut c = stored();
    c.ingest_text("one".to_string(), 11);
    c.ingest_image(1, 1, vec![1, 2, 3, 4], 12);
    c.ingest_image(1, 1, vec![1, 2, 3, 4], 12);
    assert_eq!(c.order_vec(), vec![1, 0]);
    c.storage.as_mut().unwrap().take_pending();
    c.flush_all_to_disk();
    let writes = c.storage.as_mut().unwrap().take_pending();
    assert_eq!(writes.len(), 3);
    assert!(matches!(writes[0], Request::SaveClip { id: 1, .. }));
    assert!(matches!(writes[1], Request::SaveClip { id: 0, .. }));
    c.persist_settings_and_order();
    assert_eq!(c.storage.as_mut().unwrap().take_pending().len(), 2);
    c.remove_clip(1);
    c.copy_selected(true);
    assert_eq!(c.last_clipboard_hash, Some(11));
}

#[test]
fn wide_images_keep_the_low_half_of_a_side() {
    let mut c = empty();
    c.update(image(0x1_0000_0002, 3, vec![1, 2, 3, 4]));
    assert_eq!(previews(&c), vec!["image · 2×3"]);
}

#[test]
fn without_an_id_nothing_new_is_taken_up() {
    let mut c = empty();
    c.update(text("one"));
    c.update(text("two"));
    c.next_id = u64::MAX;
    assert_eq!(c.try_update(text("three")), None);
    assert_eq!(c.try_update(image(1, 1, vec![1, 2, 3, 0])), None);
    assert_eq!(c.order_vec(), vec![1, 0]);
    assert_eq!(c.last_clipboard_hash, Some(hash_slice(b"two")));
    assert_eq!(c.try_update(text("two")), Some(Task::Nothing));
    assert_eq!(c.try_update(text("one")), Some(Task::Nothing));
    assert_eq!(c.order_vec(), vec![0, 1]);
    assert_eq!(c.try_update(Message::Remove(0)), Some(Task::Nothing));
    assert_eq!(c.try_update(image(1, 1, vec![1, 2, 3, 0])), None);
    c.next_id = 5;
    assert_eq!(c.try_update(image(1, 1, vec![1, 2, 3, 0])), Some(Task::Nothing));
    c.next_id = u64::MAX;
    c.try_update(text("two"));
    assert_eq!(c.try_update(image(1, 1, vec![1, 2, 3, 255])), Some(Task::Nothing));
    assert_eq!(c.order_vec(), vec![5, 1]);
}

#[test]
fn committing_in_between_gives_the_same_tables() {
    let events = || {
        vec![
            text("one"),
            image(1, 1, vec![0, 0, 0, 0]),
            Message::Remove(0),
            text("two"),
            Message::Select(1),
            Message::CopySelected { clipboard_opened: true },
            Message::SettingsSave,
        ]
    };
    let (mut a, mut b) = (stored(), stored());
    let (mut at_once, mut step_by_step) = (no_records(), no_records());
    for event in events() {
        a.update(event);
    }
    commit(&mut at_once, &mut a);
    for event in events() {
        b.update(event);
        commit(&mut step_by_step, &mut b);
    }
    assert_eq!(at_once.clips, step_by_step.clips);
    assert_eq!(at_once.order, step_by_step.order);
    assert_eq!(at_once.settings, step_by_step.settings);
    assert_eq!(at_once.clips.len(), 2);
}

#[test]
fn events_only_add_writes() {
    let mut c = stored();
    c.update(text("one"));
    c.update(Message::SettingsDeleteAll);
    c.update(Message::SettingsDiskToggled(false));
    let writes = c.storage.as_mut().unwrap().take_pending();
    assert_eq!(writes.len(), 4);
    assert!(matches!(writes[0], Request::SaveClip { id: 0, .. }));
    assert!(matches!(writes[1], Request::SaveOrder { .. }));
    assert!(matches!(writes[2], Request::DeleteAllClips { .. }));
    assert!(matches!(writes[3], Request::SaveSettings { .. }));
}

#[test]
fn a_run_keeps_ids_and_hashes_apart() {
    let mut c = stored();
    for t in ["a", "b", "a", "c", "b", "d", "a"] {
        c.update(text(t));
        c.update(Message::CopySelected { clipboard_opened: true });
    }
    let mut ids = c.order_vec();
    let mut hashes: Vec<u64> = c.clips.iter().map(|clip| clip.hash).collect();
    ids.sort();
    ids.dedup();
    hashes.sort();
    hashes.dedup();
    assert_eq!(ids, vec![0, 1, 2, 3]);
    assert_eq!(hashes.len(), 4);
    assert!(c.selected_clip().is_some());
}

#[test]
fn quitting_clears_a_history_that_is_not_kept_on_disk() {
    let mut tables = no_records();
    let mut c = Clipper::new(Some(Storage::open()), Storage::load(&tables));
    c.update(text("one"));
    c.update(image(1, 1, vec![1, 2, 3, 4]));
    c.update(Message::CopySelected { clipboard_opened: true });
    c.update(Message::SettingsHistorySizeChanged("1".to_string()));
    c.update(Message::SettingsSave);
    c.update(Message::SettingsDiskToggled(false));
    c.update(Message::SettingsDeleteAll);
    c.update(text("two"));
    assert_eq!(c.clips.len(), 1);
    commit(&mut tables, &mut c);
    assert!(tables.clips.is_empty());
    let r = Clipper::new(Some(Storage::open()), Storage::load(&tables));
    assert!(r.clips.is_empty());
    assert_eq!(r.selected, None);
    assert_eq!(r.settings.history_size, 1);
    assert!(!r.settings.storage_enabled);
}

#[test]
fn a_history_that_is_kept_on_disk_comes_back() {
    let mut tables = no_records();
    let mut c = Clipper::new(Some(Storage::open()), Storage::load(&tables));
    c.update(text("one"));
    c.update(Message::SettingsDiskToggled(true));
    c.update(text("two"));
    commit(&mut tables, &mut c);
    let r = Clipper::new(Some(Storage::open()), Storage::load(&tables));
    assert_eq!(previews(&r), vec!["two", "one"]);
    assert!(r.settings.storage_enabled);
}

#[test]
fn an_image_is_read_where_there_is_no_text() {
    assert!(needs_image(&None));
    assert!(needs_image(&Some(String::new())));
    assert!(!needs_image(&Some(" ".to_string())));
}
