use clipper::little_endian::{push_le, read_le};
use clipper::storage::{
    decode_clip, decode_order, decode_settings, encode_clip, encode_order, encode_settings,
    ClipData, LoadedState, Request, Settings, Storage, StoredTables,
};
use std::collections::HashMap;

fn text_of(data: &ClipData) -> String {
    match data {
        ClipData::Text(t) => t.clone(),
        ClipData::Image { .. } => panic!("an image"),
    }
}

fn no_tables() -> StoredTables {
    StoredTables { clips: HashMap::new(), order: None, settings: None }
}

#[test]
fn a_text_record_has_hash_tag_length_and_bytes() {
    let record = encode_clip(0x0102_0304_0506_0708, &ClipData::Text("aé".to_string()));
    assert_eq!(record, vec![8, 7, 6, 5, 4, 3, 2, 1, 1, 3, 0, 0, 0, 0x61, 0xc3, 0xa9]);
}

#[test]
fn an_image_record_has_hash_tag_sides_length_and_bytes() {
    let data = ClipData::Image { width: 1, height: 0x0201, rgba: vec![9, 8, 7, 6] };
    let record = encode_clip(5, &data);
    assert_eq!(
        record,
        vec![5, 0, 0, 0, 0, 0, 0, 0, 2, 1, 0, 0, 0, 1, 2, 0, 0, 4, 0, 0, 0, 9, 8, 7, 6]
    );
}

#[test]
fn clips_survive_a_round_trip() {
    let record = encode_clip(77, &ClipData::Text("héllo\n".to_string()));
    let clip = decode_clip(4, &record).unwrap();
    assert_eq!(clip.id, 4);
    assert_eq!(clip.hash, 77);
    assert_eq!(text_of(&clip.data), "héllo\n");

    let data = ClipData::Image { width: 2, height: 3, rgba: (0..24).collect() };
    let clip = decode_clip(u64::MAX, &encode_clip(u64::MAX, &data)).unwrap();
    assert_eq!(clip.id, u64::MAX);
    assert_eq!(clip.hash, u64::MAX);
    match clip.data {
        ClipData::Image { width, height, rgba } => {
            assert_eq!((width, height), (2, 3));
            assert_eq!(rgba, (0..24).collect::<Vec<u8>>());
        }
        ClipData::Text(_) => panic!("a text"),
    }
}

#[test]
fn bytes_behind_a_clip_record_are_passed_over() {
    let mut record = encode_clip(1, &ClipData::Text("x".to_string()));
    record.extend_from_slice(&[1, 2, 3]);
    assert_eq!(text_of(&decode_clip(0, &record).unwrap().data), "x");
}

#[test]
fn unreadable_clip_records_are_refused() {
    let text = encode_clip(1, &ClipData::Text("abc".to_string()));
    for n in 0..text.len() {
        assert!(decode_clip(0, &text[..n]).is_none(), "{n} bytes of a text");
    }
    let image = encode_clip(1, &ClipData::Image { width: 1, height: 1, rgba: vec![1, 2, 3, 4] });
    for n in 0..image.len() {
        assert!(decode_clip(0, &image[..n]).is_none(), "{n} bytes of an image");
    }
    let mut tag = text.clone();
    tag[8] = 3;
    assert!(decode_clip(0, &tag).is_none());
    let mut utf8 = text.clone();
    utf8[13] = 0xff;
    assert!(decode_clip(0, &utf8).is_none());
    let mut length = text;
    length[9..13].copy_from_slice(&u32::MAX.to_le_bytes());
    assert!(decode_clip(0, &length).is_none());
}

#[test]
fn orders_survive_a_round_trip() {
    assert_eq!(encode_order(&[]), vec![0, 0, 0, 0]);
    assert_eq!(encode_order(&[1]), vec![1, 0, 0, 0, 1, 0, 0, 0, 0, 0, 0, 0]);
    assert_eq!(decode_order(&encode_order(&[3, u64::MAX, 0])), Some(vec![3, u64::MAX, 0]));
    assert_eq!(decode_order(&encode_order(&[])), Some(vec![]));
}

#[test]
fn unreadable_orders_are_refused() {
    assert_eq!(decode_order(&[0, 0, 0]), None);
    let record = encode_order(&[1, 2]);
    assert_eq!(decode_order(&record[..record.len() - 1]), None);
    assert_eq!(decode_order(&[0xff, 0xff, 0xff, 0xff, 0, 0, 0, 0]), None);
}

#[test]
fn settings_survive_a_round_trip() {
    let s = Settings { history_size: 0x0403_0201, storage_enabled: false };
    assert_eq!(encode_settings(&s), vec![1, 2, 3, 4, 0]);
    for enabled in [true, false] {
        let s = Settings { history_size: 17, storage_enabled: enabled };
        let r = decode_settings(&encode_settings(&s)).unwrap();
        assert_eq!(r.history_size, 17);
        assert_eq!(r.storage_enabled, enabled);
    }
}

#[test]
fn settings_without_a_flag_are_stored_ones() {
    let r = decode_settings(&[7, 0, 0, 0]).unwrap();
    assert_eq!(r.history_size, 7);
    assert!(r.storage_enabled);
    assert!(decode_settings(&[7, 0, 0, 0, 2]).unwrap().storage_enabled);
    assert!(decode_settings(&[7, 0, 0]).is_none());
}

#[test]
fn defaults() {
    assert_eq!(Settings::default().history_size, 200);
    assert!(!Settings::default().storage_enabled);
    let state = LoadedState::default();
    assert!(state.clips.is_empty());
    assert_eq!(state.settings.history_size, 200);
    assert!(!state.settings.storage_enabled);
}

#[test]
fn little_endian_numbers_survive_a_round_trip() {
    let mut out = vec![0xaa];
    push_le(&mut out, 0x0102_0304, 4);
    assert_eq!(out, vec![0xaa, 4, 3, 2, 1]);
    assert_eq!(read_le(&out, 1, 4), 0x0102_0304);
    assert_eq!(read_le(&[0xff; 8], 0, 8), u64::MAX);
}

#[test]
fn empty_tables_hold_nothing() {
    let state = Storage::load(&no_tables());
    assert!(state.clips.is_empty());
    assert_eq!(state.settings.history_size, 200);
}

#[test]
fn tables_are_read_in_the_stored_order() {
    let mut tables = no_tables();
    for (id, text) in [(1u64, "one"), (2, "two"), (3, "three")] {
        tables.clips.insert(id, encode_clip(id + 10, &ClipData::Text(text.to_string())));
    }
    tables.clips.insert(4, vec![1, 2, 3]);
    tables.order = Some(encode_order(&[3, 9, 4, 1]));
    tables.settings = Some(encode_settings(&Settings { history_size: 5, storage_enabled: false }));
    let state = Storage::load(&tables);
    let ids: Vec<u64> = state.clips.iter().map(|c| c.id).collect();
    assert_eq!(ids, vec![3, 1]);
    assert_eq!(state.clips[0].hash, 13);
    assert_eq!(text_of(&state.clips[1].data), "one");
    assert_eq!(state.settings.history_size, 5);
    assert!(!state.settings.storage_enabled);
}

#[test]
fn unreadable_meta_records_are_passed_over() {
    let mut tables = no_tables();
    tables.clips.insert(1, encode_clip(1, &ClipData::Text("one".to_string())));
    tables.order = Some(vec![1, 0, 0, 0]);
    tables.settings = Some(vec![1]);
    let state = Storage::load(&tables);
    assert!(state.clips.is_empty());
    assert_eq!(state.settings.history_size, 200);
}

#[test]
fn writes_are_handed_out_once_and_in_order() {
    let mut storage = Storage::open();
    storage.save_clip(1, 2, &ClipData::Text("x".to_string()));
    storage.delete_clip(3);
    storage.save_order(&[4]);
    storage.delete_all_clips();
    storage.save_settings(&Settings { history_size: 9, storage_enabled: true });
    let writes = storage.take_pending();
    assert_eq!(writes.len(), 5);
    match &writes[0] {
        Request::SaveClip { id, record } => {
            assert_eq!(*id, 1);
            assert_eq!(*record, encode_clip(2, &ClipData::Text("x".to_string())));
        }
        other => panic!("{other:?}"),
    }
    assert!(matches!(writes[1], Request::DeleteClip { id: 3 }));
    assert!(matches!(&writes[2], Request::SaveOrder { record } if *record == encode_order(&[4])));
    assert!(matches!(&writes[3], Request::DeleteAllClips { order } if *order == vec![0, 0, 0, 0]));
    assert!(matches!(&writes[4], Request::SaveSettings { record } if *record == vec![9, 0, 0, 0, 1]));
    assert!(storage.take_pending().is_empty());
}
