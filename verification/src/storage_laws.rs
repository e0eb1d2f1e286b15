use vstd::arithmetic::div_mod::lemma_div_denominator;
use vstd::arithmetic::power::{lemma_pow0, lemma_pow_positive, pow};
use vstd::prelude::*;
use vstd::utf8::{
    decode_utf8, encode_utf8, encode_utf8_decode_utf8, encode_utf8_valid_utf8, valid_utf8,
};

use crate::little_endian::{
    le_bytes, le_range, le_value, lemma_le_bytes_len, lemma_le_ranges, lemma_le_value_of_bytes,
};
use crate::storage::{
    clip_of_record, clip_record, ids_bytes, length_bytes, order_of_record, order_record,
    settings_of_record, settings_record, stored_clips, ClipContent, Settings, StoredClip, Tables,
    Write, TAG_IMAGE, TAG_TEXT,
};

verus! {

/// Whether the length of `data` fits in the four bytes that a record has for it.
pub open spec fn content_fits(data: ClipContent) -> bool {
    match data {
        ClipContent::Text(t) => encode_utf8(t).len() < 0x1_0000_0000,
        ClipContent::Image { rgba, .. } => rgba.len() < 0x1_0000_0000,
    }
}

proof fn lemma_number(n: nat, width: nat)
    requires
        n < le_range(width),
    ensures
        le_bytes(n, width).len() == width,
        le_value(le_bytes(n, width)) == n,
{
    lemma_le_bytes_len(n, width);
    lemma_le_value_of_bytes(n, width);
}

/// A clip that is written and read back is the same clip, as long as its
/// content is shorter than 4 GiB.
pub proof fn clip_round_trip(id: u64, hash: u64, data: ClipContent)
    requires
        content_fits(data),
    ensures
        clip_of_record(id, clip_record(hash, data)) == Some(StoredClip { id, hash, data }),
{
    let bytes = clip_record(hash, data);
    let rest = bytes.skip(9);
    lemma_le_ranges();
    lemma_number(hash as nat, 8);
    assert(bytes.subrange(0, 8) =~= le_bytes(hash as nat, 8));
    match data {
        ClipContent::Text(t) => {
            let encoded = encode_utf8(t);
            let len = encoded.len();
            encode_utf8_valid_utf8(t);
            encode_utf8_decode_utf8(t);
            lemma_number(len, 4);
            assert(rest =~= length_bytes(len) + encoded);
            assert(rest.subrange(0, 4) =~= le_bytes(len, 4));
            assert(rest.subrange(4, 4 + len as int) =~= encoded);
            assert(bytes[8] == TAG_TEXT);
        },
        ClipContent::Image { width, height, rgba } => {
            let len = rgba.len();
            lemma_number(width as nat, 4);
            lemma_number(height as nat, 4);
            lemma_number(len, 4);
            assert(rest =~= le_bytes(width as nat, 4) + le_bytes(height as nat, 4) + length_bytes(
                len,
            ) + rgba);
            assert(rest.subrange(0, 4) =~= le_bytes(width as nat, 4));
            assert(rest.subrange(4, 8) =~= le_bytes(height as nat, 4));
            assert(rest.subrange(8, 12) =~= le_bytes(len, 4));
            assert(rest.subrange(12, 12 + len as int) =~= rgba);
            assert(bytes[8] == TAG_IMAGE);
        },
    }
}

proof fn lemma_ids_bytes(ids: Seq<u64>, i: int)
    requires
        0 <= i < ids.len(),
    ensures
        ids_bytes(ids).len() == 8 * ids.len(),
        ids_bytes(ids).subrange(8 * i, 8 * i + 8) == le_bytes(ids[i] as nat, 8),
    decreases ids.len(),
{
    let init = ids.drop_last();
    lemma_le_bytes_len(ids.last() as nat, 8);
    if init.len() > 0 {
        lemma_ids_bytes(
            init,
            if i < init.len() {
                i
            } else {
                0
            },
        );
    } else {
        assert(ids_bytes(init) =~= Seq::empty());
    }
    let all = ids_bytes(ids);
    if i < init.len() {
        assert(all.subrange(8 * i, 8 * i + 8) =~= ids_bytes(init).subrange(8 * i, 8 * i + 8));
    } else {
        assert(all.subrange(8 * i, 8 * i + 8) =~= le_bytes(ids.last() as nat, 8));
    }
}

/// An order that is written and read back is the same order, as long as it has
/// fewer than 2^32 ids.
pub proof fn order_round_trip(order: Seq<u64>)
    requires
        order.len() < 0x1_0000_0000,
    ensures
        order_of_record(order_record(order)) == Some(order),
{
    let bytes = order_record(order);
    let len = order.len();
    lemma_le_ranges();
    lemma_number(len, 4);
    assert(bytes.subrange(0, 4) =~= le_bytes(len, 4));
    if len > 0 {
        lemma_ids_bytes(order, 0);
    }
    let read = order_of_record(bytes).unwrap();
    assert forall|i: int| 0 <= i < len implies #[trigger] read[i] == order[i] by {
        lemma_ids_bytes(order, i);
        lemma_number(order[i] as nat, 8);
        assert(bytes.subrange(4 + 8 * i, 4 + 8 * i + 8) =~= ids_bytes(order).subrange(
            8 * i,
            8 * i + 8,
        ));
    }
    assert(read =~= order);
}

/// Settings that are written and read back are the same settings.
pub proof fn settings_round_trip(settings: Settings)
    ensures
        settings_of_record(settings_record(settings)) == Some(settings),
{
    lemma_le_ranges();
    lemma_number(settings.history_size as nat, 4);
    assert(settings_record(settings).subrange(0, 4) =~= le_bytes(settings.history_size as nat, 4));
}

/// Each byte of a number is worth 256 times the one before it.
pub proof fn bytes_go_from_the_least_significant_on(n: nat, width: nat, i: nat)
    requires
        i < width,
    ensures
        le_bytes(n, width).len() == width,
        le_bytes(n, width)[i as int] == (n as int / pow(256, i)) % 256,
    decreases width,
{
    lemma_le_bytes_len(n, width);
    if i == 0 {
        assert(pow(256, 0) == 1) by {
            lemma_pow0(256);
        }
        assert(n as int / 1 == n);
    } else {
        bytes_go_from_the_least_significant_on(n / 256, (width - 1) as nat, (i - 1) as nat);
        lemma_pow_positive(256, (i - 1) as nat);
        lemma_div_denominator(n as int, 256, pow(256, (i - 1) as nat));
        assert(pow(256, i) == 256 * pow(256, (i - 1) as nat)) by {
            reveal(pow);
        }
    }
}

/// Reading goes from the least significant byte on.
pub proof fn a_byte_in_front_is_worth_the_least(b: u8, rest: Seq<u8>)
    ensures
        le_value(Seq::empty()) == 0,
        le_value(seq![b] + rest) == b + 256 * le_value(rest),
{
    assert((seq![b] + rest).drop_first() =~= rest);
}

/// A clip record has the hash in eight bytes, the tag in one and the content
/// behind them: of a text its length and all its bytes, of an image its sides,
/// its length and all its bytes.
pub proof fn a_clip_record_has_the_whole_content(hash: u64, data: ClipContent)
    ensures
        ({
            let r = clip_record(hash, data);
            &&& r.subrange(0, 8) == le_bytes(hash as nat, 8)
            &&& match data {
                ClipContent::Text(t) => {
                    &&& r.len() == 13 + encode_utf8(t).len()
                    &&& r[8] == 1
                    &&& r.subrange(9, 13) == le_bytes(encode_utf8(t).len() % 0x1_0000_0000, 4)
                    &&& r.skip(13) == encode_utf8(t)
                },
                ClipContent::Image { width, height, rgba } => {
                    &&& r.len() == 21 + rgba.len()
                    &&& r[8] == 2
                    &&& r.subrange(9, 13) == le_bytes(width as nat, 4)
                    &&& r.subrange(13, 17) == le_bytes(height as nat, 4)
                    &&& r.subrange(17, 21) == le_bytes(rgba.len() % 0x1_0000_0000, 4)
                    &&& r.skip(21) == rgba
                },
            }
        }),
{
    let r = clip_record(hash, data);
    lemma_le_bytes_len(hash as nat, 8);
    assert(r.subrange(0, 8) =~= le_bytes(hash as nat, 8));
    match data {
        ClipContent::Text(t) => {
            lemma_le_bytes_len(encode_utf8(t).len() % 0x1_0000_0000, 4);
            assert(r.subrange(9, 13) =~= le_bytes(encode_utf8(t).len() % 0x1_0000_0000, 4));
            assert(r.skip(13) =~= encode_utf8(t));
        },
        ClipContent::Image { width, height, rgba } => {
            lemma_le_bytes_len(width as nat, 4);
            lemma_le_bytes_len(height as nat, 4);
            lemma_le_bytes_len(rgba.len() % 0x1_0000_0000, 4);
            assert(r.subrange(9, 13) =~= le_bytes(width as nat, 4));
            assert(r.subrange(13, 17) =~= le_bytes(height as nat, 4));
            assert(r.subrange(17, 21) =~= le_bytes(rgba.len() % 0x1_0000_0000, 4));
            assert(r.skip(21) =~= rgba);
        },
    }
}

/// What a record with the tag of a text gives: the text, where as many bytes as
/// its length says are there and are UTF-8. What follows is passed over.
pub proof fn text_records_are_read(id: u64, bytes: Seq<u8>)
    requires
        bytes.len() >= 13,
        bytes[8] == 1,
    ensures
        ({
            let end = 13 + le_value(bytes.subrange(9, 13));
            clip_of_record(id, bytes) == if bytes.len() >= end && valid_utf8(
                bytes.subrange(13, end as int),
            ) {
                Some(
                    StoredClip {
                        id,
                        hash: le_value(bytes.subrange(0, 8)) as u64,
                        data: ClipContent::Text(decode_utf8(bytes.subrange(13, end as int))),
                    },
                )
            } else {
                None
            }
        }),
{
    let rest = bytes.skip(9);
    assert(rest.subrange(0, 4) =~= bytes.subrange(9, 13));
    let n = le_value(bytes.subrange(9, 13)) as int;
    if bytes.len() >= 13 + n {
        assert(rest.subrange(4, 4 + n) =~= bytes.subrange(13, 13 + n));
    }
}

/// What a record with the tag of an image gives: the image, where as many bytes
/// as its length says are there. What follows is passed over.
pub proof fn image_records_are_read(id: u64, bytes: Seq<u8>)
    requires
        bytes.len() >= 21,
        bytes[8] == 2,
    ensures
        ({
            let end = 21 + le_value(bytes.subrange(17, 21));
            clip_of_record(id, bytes) == if bytes.len() >= end {
                Some(
                    StoredClip {
                        id,
                        hash: le_value(bytes.subrange(0, 8)) as u64,
                        data: ClipContent::Image {
                            width: le_value(bytes.subrange(9, 13)) as u32,
                            height: le_value(bytes.subrange(13, 17)) as u32,
                            rgba: bytes.subrange(21, end as int),
                        },
                    },
                )
            } else {
                None
            }
        }),
{
    let rest = bytes.skip(9);
    assert(rest.subrange(0, 4) =~= bytes.subrange(9, 13));
    assert(rest.subrange(4, 8) =~= bytes.subrange(13, 17));
    assert(rest.subrange(8, 12) =~= bytes.subrange(17, 21));
    let n = le_value(bytes.subrange(17, 21)) as int;
    if bytes.len() >= 21 + n {
        assert(rest.subrange(12, 12 + n) =~= bytes.subrange(21, 21 + n));
    }
}

/// Bytes that end before the content starts, or have another tag, are no clip.
pub proof fn other_records_are_no_clip(id: u64, bytes: Seq<u8>)
    requires
        bytes.len() < 13 || (bytes[8] == 2 && bytes.len() < 21) || (bytes[8] != 1 && bytes[8] != 2),
    ensures
        clip_of_record(id, bytes) is None,
{
}

/// An order record has the number of ids in four bytes and each id, in its
/// order, in eight.
pub proof fn an_order_record_has_every_id(order: Seq<u64>, i: int)
    requires
        0 <= i < order.len(),
    ensures
        order_record(order).len() == 4 + 8 * order.len(),
        order_record(order).subrange(0, 4) == le_bytes(order.len() % 0x1_0000_0000, 4),
        order_record(order).subrange(4 + 8 * i, 12 + 8 * i) == le_bytes(order[i] as nat, 8),
        order_record(Seq::empty()) == le_bytes(0, 4),
{
    let r = order_record(order);
    lemma_ids_bytes(order, i);
    lemma_le_bytes_len(order.len() % 0x1_0000_0000, 4);
    assert(r.subrange(0, 4) =~= le_bytes(order.len() % 0x1_0000_0000, 4));
    assert(r.subrange(4 + 8 * i, 12 + 8 * i) =~= ids_bytes(order).subrange(8 * i, 8 * i + 8));
    assert(order_record(Seq::empty()) =~= le_bytes(0, 4));
}

/// What an order record gives: as many ids as it says, where they are there.
/// What follows is passed over.
pub proof fn order_records_are_read(bytes: Seq<u8>)
    ensures
        ({
            let n = le_value(bytes.subrange(0, 4));
            match order_of_record(bytes) {
                Some(ids) => {
                    &&& bytes.len() >= 4
                    &&& bytes.len() >= 4 + 8 * n
                    &&& ids.len() == n
                    &&& forall|i: int|
                        0 <= i < n ==> #[trigger] ids[i] == le_value(
                            bytes.subrange(4 + 8 * i, 12 + 8 * i),
                        ) as u64
                },
                None => bytes.len() < 4 || bytes.len() < 4 + 8 * n,
            }
        }),
{
}

/// A settings record has the history size in four bytes and whether the history
/// is kept on disk in one.
pub proof fn a_settings_record_has_both_settings(settings: Settings)
    ensures
        settings_record(settings).len() == 5,
        settings_record(settings).subrange(0, 4) == le_bytes(settings.history_size as nat, 4),
        settings_record(settings)[4] == if settings.storage_enabled {
            1u8
        } else {
            0u8
        },
{
    lemma_le_bytes_len(settings.history_size as nat, 4);
    assert(settings_record(settings).subrange(0, 4) =~= le_bytes(settings.history_size as nat, 4));
}

/// What a settings record gives: the history size, and that the history is kept
/// on disk unless the fifth byte is there and zero.
pub proof fn settings_records_are_read(bytes: Seq<u8>)
    ensures
        match settings_of_record(bytes) {
            Some(settings) => {
                &&& bytes.len() >= 4
                &&& settings.history_size == le_value(bytes.subrange(0, 4)) as u32
                &&& settings.storage_enabled <==> bytes.len() == 4 || bytes[4] != 0
            },
            None => bytes.len() < 4,
        },
{
}

/// What is loaded follows the stored order: with one more id in it there is the
/// clip of that id behind the others, where there is a record that can be read,
/// and nothing more where there is none.
pub proof fn clips_are_loaded_in_the_stored_order(clips: Map<u64, Seq<u8>>, ids: Seq<u64>, id: u64)
    ensures
        stored_clips(clips, Seq::empty()).len() == 0,
        stored_clips(clips, ids.push(id)) == if !clips.contains_key(id) {
            stored_clips(clips, ids)
        } else {
            match clip_of_record(id, clips[id]) {
                Some(clip) => stored_clips(clips, ids).push(clip),
                None => stored_clips(clips, ids),
            }
        },
{
    assert(ids.push(id).drop_last() =~= ids);
}

/// What is loaded are the clips of the stored order and the stored settings; no
/// clips where there is no order that can be read, and the settings of a new
/// installation where there are none that can be read.
pub proof fn unreadable_meta_records_are_passed_over(t: Tables)
    ensures
        t.loaded().clips == match t.order {
            Some(bytes) => match order_of_record(bytes) {
                Some(ids) => stored_clips(t.clips, ids),
                None => Seq::empty(),
            },
            None => Seq::empty(),
        },
        t.loaded().settings == match t.settings {
            Some(bytes) => match settings_of_record(bytes) {
                Some(settings) => settings,
                None => Settings { history_size: 200, storage_enabled: false },
            },
            None => Settings { history_size: 200, storage_enabled: false },
        },
{
}

/// A write changes what it names and nothing else, and writes are done in their
/// order.
pub proof fn a_write_changes_what_it_names(t: Tables, writes: Seq<Write>, w: Write)
    ensures
        t.after_all(Seq::empty()) == t,
        t.after_all(writes.push(w)) == ({
            let u = t.after_all(writes);
            match w {
                Write::SaveClip { id, record } => Tables { clips: u.clips.insert(id, record), ..u },
                Write::DeleteClip { id } => Tables { clips: u.clips.remove(id), ..u },
                Write::SaveOrder { record } => Tables { order: Some(record), ..u },
                Write::DeleteAllClips { order } => Tables {
                    clips: Map::empty(),
                    order: Some(order),
                    ..u
                },
                Write::SaveSettings { record } => Tables { settings: Some(record), ..u },
            }
        }),
{
    assert(writes.push(w).drop_last() =~= writes);
}

} // verus!
