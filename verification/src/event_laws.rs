use vstd::prelude::*;
use vstd::std_specs::hash::DefaultHasherAdditionalSpecFns;
use vstd::utf8::encode_utf8;

use crate::capture::{all_transparent, content_hash, opaque, slice_hash_input, visible};
use crate::history_laws::{lemma_position, lemma_without_holds, without};
use crate::model::{
    content_preview, data_hash, deletions, found, has_id, id_after, position, saves, Entry, Event,
    KeyName, Picture, State, Task,
};
use crate::storage::{
    clip_record, default_settings, order_record, settings_record, ClipContent, Settings,
    StoredClip, StoredState, Write,
};
use crate::text::{decimal_digits, parsed_u32, text_preview, trimmed};

verus! {

/// The bytes of a content: those of the whole text, or every byte of the pixels.
pub open spec fn content_bytes(data: ClipContent) -> Seq<u8> {
    match data {
        ClipContent::Text(t) => encode_utf8(t),
        ClipContent::Image { rgba, .. } => rgba,
    }
}

/// Whether a byte of an image is the alpha of a pixel.
pub open spec fn is_alpha(i: int) -> bool {
    i % 4 == 3
}

/// Whether a pixel of an image is not wholly transparent.
pub open spec fn shows(bytes: Seq<u8>) -> bool {
    exists|i: int| 0 <= i < bytes.len() && is_alpha(i) && #[trigger] bytes[i] != 0
}

/// Whether the clipboard has the content `data` for a look at it: a whole text
/// that is not empty, or else an image, whose colours are those that are there,
/// and whose alphas are too unless all of them are zero.
pub open spec fn clipboard_has(
    text: Option<Seq<char>>,
    image: Option<Picture>,
    data: ClipContent,
) -> bool {
    match data {
        ClipContent::Text(t) => text == Some(t) && t.len() > 0,
        ClipContent::Image { width, height, rgba } => {
            &&& text matches Some(t) ==> t.len() == 0
            &&& image matches Some(p)
            &&& width == p.width as int % 0x1_0000_0000
            &&& height == p.height as int % 0x1_0000_0000
            &&& rgba.len() == p.bytes.len()
            &&& forall|i: int|
                0 <= i < rgba.len() && !is_alpha(i) ==> #[trigger] rgba[i] == p.bytes[i]
            &&& shows(p.bytes) ==> rgba == p.bytes
            &&& !shows(p.bytes) ==> forall|i: int|
                0 <= i < rgba.len() && is_alpha(i) ==> #[trigger] rgba[i] == 255
        },
    }
}

/// What the store is to commit after `writes` of the history were handed to it,
/// which they are only while the history is kept on disk.
pub open spec fn pending_after(s: State, writes: Seq<Write>) -> Option<Seq<Write>> {
    match s.storage {
        Some(pending) => Some(
            if s.settings.storage_enabled {
                pending + writes
            } else {
                pending
            },
        ),
        None => None,
    }
}

/// The write of the order in which `clips` are.
pub open spec fn order_of(clips: Seq<Entry>) -> Write {
    Write::SaveOrder { record: order_record(Seq::new(clips.len(), |i: int| clips[i].id)) }
}

/// The writes that delete `clips[n]` and those after it, from the last one on.
pub open spec fn deleted_from(clips: Seq<Entry>, n: int) -> Seq<Write> {
    Seq::new(
        (clips.len() - n) as nat,
        |k: int| Write::DeleteClip { id: clips[clips.len() - 1 - k].id },
    )
}

/// The selection after the entries from `n` on have left `clips`: another one
/// only where the selected entry has left, and then the first that stays.
pub open spec fn selected_after(clips: Seq<Entry>, n: int, selected: Option<u64>) -> Option<u64> {
    if exists|j: int| n <= j < clips.len() && selected == Some((#[trigger] clips[j]).id) {
        if n > 0 {
            Some(clips[0].id)
        } else {
            None
        }
    } else {
        selected
    }
}

proof fn lemma_order_of(s: State)
    ensures
        s.order_write() == order_of(s.clips),
{
    assert(s.ids() =~= Seq::new(s.clips.len(), |i: int| s.clips[i].id));
}

proof fn lemma_storing(s: State, writes: Seq<Write>)
    ensures
        s.storing(writes) == (State { storage: pending_after(s, writes), ..s }),
{
}

proof fn lemma_found(text: Option<Seq<char>>, image: Option<Picture>, data: ClipContent)
    requires
        clipboard_has(text, image, data),
    ensures
        found(text, image) == Some(data),
        data_hash(data) == content_hash(content_bytes(data)),
{
    if let ClipContent::Image { rgba, .. } = data {
        let bytes = image->0.bytes;
        lemma_shows(bytes);
        if !shows(bytes) {
            assert forall|i: int| 0 <= i < rgba.len() implies #[trigger] rgba[i] == opaque(
                bytes,
            )[i] by {}
            assert(rgba =~= opaque(bytes));
        }
    }
}

proof fn lemma_shows(bytes: Seq<u8>)
    ensures
        shows(bytes) == !all_transparent(bytes),
{
    if !all_transparent(bytes) {
        let i = choose|i: int| 0 <= i < bytes.len() && i % 4 == 3 && #[trigger] bytes[i] != 0;
        assert(is_alpha(i) && bytes[i] != 0);
    }
}

/// Everything that is on the clipboard can be had: a text, and every image where
/// there is no text.
pub proof fn every_content_is_found(text: Option<Seq<char>>, image: Option<Picture>)
    requires
        (text matches Some(t) && t.len() > 0) || image is Some,
    ensures
        exists|data: ClipContent| clipboard_has(text, image, data),
{
    if text matches Some(t) && t.len() > 0 {
        assert(clipboard_has(text, image, ClipContent::Text(text->0)));
    } else {
        let p = image->0;
        let rgba = visible(p.bytes);
        let data = ClipContent::Image {
            width: (p.width as int % 0x1_0000_0000) as u32,
            height: (p.height as int % 0x1_0000_0000) as u32,
            rgba,
        };
        lemma_shows(p.bytes);
        assert(clipboard_has(text, image, data));
    }
}

/// The hash of a content is computed from every byte of it.
pub proof fn a_hash_is_of_all_bytes(bytes: Seq<u8>)
    ensures
        content_hash(bytes) == std::collections::hash_map::DefaultHasher::spec_finish(
            slice_hash_input(bytes, usize::BITS as nat),
        ),
{
}

/// Without a text or an image on the clipboard a look at it changes nothing.
pub proof fn an_empty_clipboard_changes_nothing(s: State, text: Option<Seq<char>>, focus: bool)
    requires
        text matches Some(t) ==> t.len() == 0,
    ensures
        s.updated(Event::Tick { text, image: None, focus_requested: focus }) == s,
{
}

/// What was on the clipboard the last time is not taken up again.
pub proof fn a_content_seen_last_changes_nothing(
    s: State,
    text: Option<Seq<char>>,
    image: Option<Picture>,
    focus: bool,
    data: ClipContent,
)
    requires
        clipboard_has(text, image, data),
        s.last_clipboard_hash == Some(content_hash(content_bytes(data))),
    ensures
        s.updated(Event::Tick { text, image, focus_requested: focus }) == s,
{
    lemma_found(text, image, data);
}

proof fn lemma_first_place(hashes: Seq<u64>, hash: u64, i: int)
    requires
        0 <= i < hashes.len(),
        hashes[i] == hash,
        forall|j: int| 0 <= j < i ==> #[trigger] hashes[j] != hash,
    ensures
        position(hashes, hash) == i,
{
    lemma_position(hashes, hash);
    let p = position(hashes, hash) as int;
    if p < i {
        assert(hashes[p] != hash);
    }
}

proof fn lemma_no_place(hashes: Seq<u64>, hash: u64)
    requires
        forall|j: int| 0 <= j < hashes.len() ==> #[trigger] hashes[j] != hash,
    ensures
        position(hashes, hash) == hashes.len(),
{
    lemma_position(hashes, hash);
}

/// A content of whose bytes an entry has the hash: the first such entry moves to
/// the front, the others keep their order, and nothing is added or lost.
pub proof fn a_known_content_is_bumped(
    s: State,
    text: Option<Seq<char>>,
    image: Option<Picture>,
    focus: bool,
    data: ClipContent,
    i: int,
)
    requires
        clipboard_has(text, image, data),
        s.last_clipboard_hash != Some(content_hash(content_bytes(data))),
        0 <= i < s.clips.len(),
        s.clips[i].hash == content_hash(content_bytes(data)),
        forall|j: int|
            0 <= j < i ==> (#[trigger] s.clips[j]).hash != content_hash(content_bytes(data)),
    ensures
        ({
            let r = s.updated(Event::Tick { text, image, focus_requested: focus });
            &&& r.clips.len() == s.clips.len()
            &&& r.clips[0] == s.clips[i]
            &&& forall|j: int| 0 <= j < i ==> r.clips[j + 1] == #[trigger] s.clips[j]
            &&& forall|j: int| i < j < s.clips.len() ==> r.clips[j] == #[trigger] s.clips[j]
            &&& r == (State {
                clips: r.clips,
                last_clipboard_hash: Some(content_hash(content_bytes(data))),
                storage: pending_after(s, seq![order_of(r.clips)]),
                ..s
            })
        }),
{
    lemma_found(text, image, data);
    let hash = content_hash(content_bytes(data));
    let seen = State { last_clipboard_hash: Some(hash), ..s };
    assert(seen.hashes()[i] == hash);
    assert forall|j: int| 0 <= j < i implies #[trigger] seen.hashes()[j] != hash by {
        assert(s.clips[j].hash != hash);
    }
    lemma_first_place(seen.hashes(), hash, i);
    let b = seen.bumped(i);
    lemma_order_of(b);
    lemma_storing(b, seq![b.order_write()]);
}

/// A content of whose bytes no entry has the hash becomes a new entry in front,
/// with the whole content; the others follow in their order, as many as the
/// history size admits.
pub proof fn a_new_content_becomes_the_first_entry(
    s: State,
    text: Option<Seq<char>>,
    image: Option<Picture>,
    focus: bool,
    data: ClipContent,
)
    requires
        clipboard_has(text, image, data),
        s.next_id < u64::MAX,
        s.last_clipboard_hash != Some(content_hash(content_bytes(data))),
        forall|j: int|
            0 <= j < s.clips.len() ==> (#[trigger] s.clips[j]).hash != content_hash(
                content_bytes(data),
            ),
    ensures
        ({
            let r = s.updated(Event::Tick { text, image, focus_requested: focus });
            let hash = content_hash(content_bytes(data));
            let entry = Entry { id: s.next_id, data, hash, preview: content_preview(data) };
            let all = seq![entry] + s.clips;
            let n = if s.settings.history_size <= s.clips.len() {
                s.settings.history_size as int
            } else {
                s.clips.len() as int + 1
            };
            &&& r.clips.len() == n
            &&& n > 0 ==> r.clips[0] == entry
            &&& forall|j: int| 0 < j < n ==> #[trigger] r.clips[j] == s.clips[j - 1]
            &&& r == (State {
                clips: r.clips,
                selected: selected_after(
                    all,
                    n,
                    if s.selected is None {
                        Some(s.next_id)
                    } else {
                        s.selected
                    },
                ),
                next_id: (s.next_id + 1) as u64,
                last_clipboard_hash: Some(hash),
                storage: pending_after(
                    s,
                    seq![Write::SaveClip { id: s.next_id, record: clip_record(hash, data) }]
                        + deleted_from(all, n) + seq![order_of(r.clips)],
                ),
                ..s
            })
        }),
{
    lemma_found(text, image, data);
    let hash = content_hash(content_bytes(data));
    let seen = State { last_clipboard_hash: Some(hash), ..s };
    assert forall|j: int| 0 <= j < seen.hashes().len() implies #[trigger] seen.hashes()[j]
        != hash by {
        assert(s.clips[j].hash != hash);
    }
    lemma_no_place(seen.hashes(), hash);
    let e = seen.with_entry(data, hash);
    let w = seq![Write::SaveClip { id: s.next_id, record: clip_record(hash, data) }];
    lemma_storing(seen, w);
    let c = e.cut_to_size();
    lemma_cut_to_size(e);
    lemma_order_of(c);
    lemma_storing(c, seq![c.order_write()]);
    if let Some(pending) = s.storage {
        let n = c.clips.len() as int;
        let d = deleted_from(e.clips, n);
        assert(pending + w + d + seq![order_of(c.clips)] =~= pending + (w + d + seq![
            order_of(c.clips),
        ]));
    }
}

/// Cutting the history keeps its first entries.
proof fn lemma_cut_to_size(s: State)
    ensures
        ({
            let r = s.cut_to_size();
            let n = if s.settings.history_size <= s.clips.len() {
                s.settings.history_size as int
            } else {
                s.clips.len() as int
            };
            r == (State {
                clips: s.clips.take(n),
                selected: selected_after(s.clips, n, s.selected),
                storage: pending_after(s, deleted_from(s.clips, n)),
                ..s
            })
        }),
{
    let max = s.settings.history_size as int;
    let n = if max <= s.clips.len() {
        max
    } else {
        s.clips.len() as int
    };
    assert(s.clips.take(s.clips.len() as int) =~= s.clips);
    let gone = s.clips.skip(n);
    assert(deletions(gone) =~= deleted_from(s.clips, n));
    if let Some(id) = s.selected {
        if has_id(gone, id) {
            let k = choose|k: int| 0 <= k < gone.len() && (#[trigger] gone[k]).id == id;
            assert(s.clips[n + k].id == id);
        }
        if exists|j: int| n <= j < s.clips.len() && s.selected == Some((#[trigger] s.clips[j]).id) {
            let j = choose|j: int|
                n <= j < s.clips.len() && s.selected == Some((#[trigger] s.clips[j]).id);
            assert(gone[j - n].id == id);
        }
    }
    if s.clips.len() <= max {
        if let Some(pending) = s.storage {
            assert(pending + deleted_from(s.clips, n) =~= pending);
        }
    } else {
        lemma_storing(
            State { clips: s.clips.take(n), selected: s.cut_to(n).selected, ..s },
            deletions(gone),
        );
    }
}

/// Choosing an entry changes the selection alone, and the content is scrolled
/// to its start where it was another one.
pub proof fn selecting_changes_the_selection_alone(s: State, id: u64)
    ensures
        s.updated(Event::Select(id)) == (State { selected: Some(id), ..s }),
        s.task(Event::Select(id)) == if s.selected == Some(id) {
            Task::Nothing
        } else {
            Task::ScrollToTop
        },
{
}

/// Removing an entry takes it, and no other, out of the list and out of the
/// store; the first entry is selected where it was the selected one.
pub proof fn removing_takes_one_entry_out(s: State, i: int)
    requires
        0 <= i < s.clips.len(),
        forall|j: int| 0 <= j < s.clips.len() && j != i ==> (#[trigger] s.clips[j]).id
            != s.clips[i].id,
    ensures
        ({
            let id = s.clips[i].id;
            let r = s.updated(Event::Remove(id));
            &&& r.clips == s.clips.remove(i)
            &&& r == (State {
                clips: r.clips,
                selected: if s.selected != Some(id) {
                    s.selected
                } else if r.clips.len() > 0 {
                    Some(r.clips[0].id)
                } else {
                    None
                },
                storage: pending_after(s, seq![Write::DeleteClip { id }, order_of(r.clips)]),
                ..s
            })
        }),
{
    let id = s.clips[i].id;
    let keep = |c: Entry| c.id != id;
    let rest = s.clips.remove(i);
    let before = s.clips.take(i);
    let behind = s.clips.skip(i + 1);
    assert(s.clips =~= before + seq![s.clips[i]] + behind);
    assert(rest =~= before + behind);
    lemma_filter_all(before, keep);
    lemma_filter_all(behind, keep);
    lemma_filter_one(s.clips[i], keep);
    Seq::filter_distributes_over_add(before + seq![s.clips[i]], behind, keep);
    Seq::filter_distributes_over_add(before, seq![s.clips[i]], keep);
    assert(before + Seq::<Entry>::empty() =~= before);
    assert(s.clips.filter(keep) =~= rest);
    let r = s.removed(id);
    let bare = State { storage: s.storage, ..r };
    lemma_order_of(bare);
    lemma_storing(bare, seq![Write::DeleteClip { id }, bare.order_write()]);
}

proof fn lemma_filter_one(e: Entry, keep: spec_fn(Entry) -> bool)
    requires
        !keep(e),
    ensures
        seq![e].filter(keep) == Seq::<Entry>::empty(),
{
    reveal(Seq::filter);
    assert(seq![e].drop_last() =~= Seq::<Entry>::empty());
    assert(seq![e].last() == e);
    assert(Seq::<Entry>::empty().filter(keep) =~= Seq::<Entry>::empty());
}

proof fn lemma_filter_all(s: Seq<Entry>, keep: spec_fn(Entry) -> bool)
    requires
        forall|i: int| 0 <= i < s.len() ==> keep(#[trigger] s[i]),
    ensures
        s.filter(keep) == s,
    decreases s.len(),
{
    reveal(Seq::filter);
    if s.len() > 0 {
        let init = s.drop_last();
        assert forall|i: int| 0 <= i < init.len() implies keep(#[trigger] init[i]) by {
            assert(keep(s[i]));
        }
        lemma_filter_all(init, keep);
        assert(keep(s[s.len() - 1]));
        assert(init.push(s.last()) =~= s);
    } else {
        assert(s.filter(keep) =~= s);
    }
}

/// Removing an id takes every entry that has it out, and no other: what stays is
/// in its order, and the selection is another one only where it had that id.
pub proof fn removing_an_id_takes_all_of_it_out(s: State, id: u64)
    ensures
        ({
            let r = s.updated(Event::Remove(id));
            &&& r.clips == s.clips.filter(|c: Entry| c.id != id)
            &&& forall|k: int| 0 <= k < r.clips.len() ==> (#[trigger] r.clips[k]).id != id
            &&& forall|j: int|
                0 <= j < s.clips.len() && (#[trigger] s.clips[j]).id != id ==> r.clips.contains(
                    s.clips[j],
                )
            &&& r == (State {
                clips: r.clips,
                selected: if s.selected != Some(id) {
                    s.selected
                } else if r.clips.len() > 0 {
                    Some(r.clips[0].id)
                } else {
                    None
                },
                storage: pending_after(s, seq![Write::DeleteClip { id }, order_of(r.clips)]),
                ..s
            })
        }),
{
    let r = s.removed(id);
    assert(r.clips == without(s.clips, id));
    lemma_without_holds(s.clips, id);
    assert forall|k: int| 0 <= k < r.clips.len() implies (#[trigger] r.clips[k]).id != id by {
        assert(r.clips.contains(r.clips[k]));
    }
    assert forall|j: int|
        0 <= j < s.clips.len() && (#[trigger] s.clips[j]).id != id implies r.clips.contains(
        s.clips[j],
    ) by {
        assert(s.clips.contains(s.clips[j]));
    }
    let bare = State { storage: s.storage, ..r };
    lemma_order_of(bare);
    lemma_storing(bare, seq![Write::DeleteClip { id }, bare.order_write()]);
}

/// Copying moves the first entry with the selected id to the front and notes the
/// hash of its content as seen; the others keep their order.
pub proof fn copying_moves_the_selected_entry(s: State, i: int)
    requires
        0 <= i < s.clips.len(),
        s.selected == Some(s.clips[i].id),
        forall|j: int| 0 <= j < i ==> (#[trigger] s.clips[j]).id != s.clips[i].id,
    ensures
        ({
            let r = s.updated(Event::CopySelected { clipboard_opened: true });
            &&& r.clips.len() == s.clips.len()
            &&& r.clips[0] == s.clips[i]
            &&& forall|j: int| 0 <= j < i ==> r.clips[j + 1] == #[trigger] s.clips[j]
            &&& forall|j: int| i < j < s.clips.len() ==> r.clips[j] == #[trigger] s.clips[j]
            &&& r == (State {
                clips: r.clips,
                last_clipboard_hash: Some(s.clips[i].hash),
                storage: pending_after(s, seq![order_of(r.clips)]),
                ..s
            })
        }),
{
    let id = s.clips[i].id;
    assert(s.ids()[i] == id);
    assert forall|j: int| 0 <= j < i implies #[trigger] s.ids()[j] != id by {
        assert(s.clips[j].id != id);
    }
    lemma_first_place(s.ids(), id, i);
    let b = State { last_clipboard_hash: Some(s.clips[i].hash), ..s }.bumped(i);
    lemma_order_of(b);
    lemma_storing(b, seq![b.order_write()]);
}

/// Nothing is copied where the clipboard cannot be opened, or no entry has the
/// selected id.
pub proof fn copying_nothing_changes_nothing(s: State, opened: bool)
    requires
        !opened || forall|j: int|
            0 <= j < s.clips.len() ==> s.selected != Some((#[trigger] s.clips[j]).id),
    ensures
        s.updated(Event::CopySelected { clipboard_opened: opened }) == s,
{
    if opened {
        if let Some(id) = s.selected {
            assert forall|j: int| 0 <= j < s.ids().len() implies #[trigger] s.ids()[j] != id by {
                assert(s.selected != Some(s.clips[j].id));
            }
            lemma_no_place(s.ids(), id);
        }
    }
}

/// Opening the settings fills the drafts with the current values, and putting
/// them away changes nothing else.
pub proof fn opening_the_settings_shows_the_current_ones(s: State)
    ensures
        s.updated(Event::ToggleSettings) == if s.settings_open {
            State { settings_open: false, ..s }
        } else {
            State {
                settings_open: true,
                settings_draft_history_size: decimal_digits(s.settings.history_size as nat),
                settings_draft_poll_interval_ms: decimal_digits(s.poll_interval_ms as nat),
                ..s
            }
        },
{
}

/// Typing in a field changes what is in that field alone.
pub proof fn typing_changes_one_field(s: State, value: Seq<char>)
    ensures
        s.updated(Event::SettingsHistorySizeChanged(value)) == (State {
            settings_draft_history_size: value,
            ..s
        }),
        s.updated(Event::SettingsPollIntervalChanged(value)) == (State {
            settings_draft_poll_interval_ms: value,
            ..s
        }),
        s.updated(Event::SearchChanged(value)) == (State { search_query: value, ..s }),
{
}

/// Switching persistence on or off keeps the history in memory and everything
/// else but the one setting, which is stored; switched on, every entry is
/// stored, and then their order.
pub proof fn switching_persistence_keeps_the_history(s: State, enabled: bool)
    ensures
        ({
            let r = s.updated(Event::SettingsDiskToggled(enabled));
            let settings = Settings {
                history_size: s.settings.history_size,
                storage_enabled: enabled,
            };
            let first = Write::SaveSettings { record: settings_record(settings) };
            &&& r == (State { settings, storage: r.storage, ..s })
            &&& r.storage == match s.storage {
                Some(pending) => Some(
                    if enabled && !s.settings.storage_enabled {
                        pending.push(first) + Seq::new(
                            s.clips.len(),
                            |i: int|
                                Write::SaveClip {
                                    id: s.clips[i].id,
                                    record: clip_record(s.clips[i].hash, s.clips[i].data),
                                },
                        ).push(order_of(s.clips))
                    } else {
                        pending.push(first)
                    },
                ),
                None => None,
            }
        }),
{
    let settings = Settings { storage_enabled: enabled, ..s.settings };
    let w = Write::SaveSettings { record: settings_record(settings) };
    if let Some(pending) = s.storage {
        assert(pending + seq![w] =~= pending.push(w));
    }
    lemma_order_of(State { settings, ..s });
    let m = State { settings, ..s }.writing(seq![w]);
    assert(m.order_write() == order_of(s.clips));
    assert(saves(s.clips) =~= Seq::new(
        s.clips.len(),
        |i: int|
            Write::SaveClip {
                id: s.clips[i].id,
                record: clip_record(s.clips[i].hash, s.clips[i].data),
            },
    ));
}

/// Deleting everything leaves no entry, nothing selected and nothing seen, and
/// clears the store; ids are not given again, and the settings stay.
pub proof fn deleting_all_keeps_the_rest(s: State)
    ensures
        s.updated(Event::SettingsDeleteAll) == (State {
            clips: Seq::empty(),
            selected: None,
            last_clipboard_hash: None,
            storage: match s.storage {
                Some(pending) => Some(
                    pending.push(Write::DeleteAllClips { order: order_record(Seq::empty()) }),
                ),
                None => None,
            },
            ..s
        }),
{
    if let Some(pending) = s.storage {
        let w = Write::DeleteAllClips { order: order_record(Seq::empty()) };
        assert(pending + seq![w] =~= pending.push(w));
    }
}

/// The poll interval after a draft was saved: the number in it, but at least a
/// tenth of a second and at most ten seconds; as it was where there is none.
pub open spec fn interval_after(draft: Seq<char>, interval: u32) -> u32 {
    match parsed_u32(trimmed(draft)) {
        Some(n) => if n < 100 {
            100
        } else if n <= 10_000 {
            n
        } else {
            10_000
        },
        None => interval,
    }
}

/// What the store is to commit after `deleted` entries, the settings and the
/// order of `clips` were handed to it: the settings always, the others only
/// while the history is kept on disk.
pub open spec fn pending_after_saving(
    s: State,
    deleted: Seq<Write>,
    settings: Settings,
    clips: Seq<Entry>,
) -> Option<Seq<Write>> {
    let w = Write::SaveSettings { record: settings_record(settings) };
    match s.storage {
        Some(pending) => Some(
            if s.settings.storage_enabled {
                (pending + deleted).push(w).push(order_of(clips))
            } else {
                pending.push(w)
            },
        ),
        None => None,
    }
}

proof fn lemma_settings_stored(s: State)
    ensures
        s.settings_stored() == (State {
            storage: pending_after_saving(s, Seq::empty(), s.settings, s.clips),
            ..s
        }),
{
    let w = Write::SaveSettings { record: settings_record(s.settings) };
    let m = s.writing(seq![w]);
    lemma_order_of(m);
    if let Some(pending) = s.storage {
        assert(pending + seq![w] =~= pending.push(w));
        assert(pending + Seq::<Write>::empty() =~= pending);
        assert(pending.push(w) + seq![order_of(s.clips)] =~= pending.push(w).push(
            order_of(s.clips),
        ));
    }
}

/// Saving takes over every positive history size, greater or smaller than the
/// one before, and keeps as many of the first entries.
pub proof fn saving_takes_over_a_history_size(s: State, n: u32)
    requires
        parsed_u32(trimmed(s.settings_draft_history_size)) == Some(n),
        n > 0,
    ensures
        ({
            let r = s.updated(Event::SettingsSave);
            let kept = if n < s.clips.len() {
                n as int
            } else {
                s.clips.len() as int
            };
            let settings = Settings {
                history_size: n,
                storage_enabled: s.settings.storage_enabled,
            };
            &&& r.clips == s.clips.take(kept)
            &&& r == (State {
                clips: r.clips,
                selected: selected_after(s.clips, kept, s.selected),
                settings,
                poll_interval_ms: interval_after(
                    s.settings_draft_poll_interval_ms,
                    s.poll_interval_ms,
                ),
                settings_open: false,
                storage: pending_after_saving(s, deleted_from(s.clips, kept), settings, r.clips),
                ..s
            })
        }),
{
    let resized = State { settings: Settings { history_size: n, ..s.settings }, ..s };
    lemma_cut_to_size(resized);
    let c = s.history_size_set();
    let p = c.poll_interval_set();
    lemma_settings_stored(p);
    let kept = if n < s.clips.len() {
        n as int
    } else {
        s.clips.len() as int
    };
    if let Some(pending) = s.storage {
        assert(pending + deleted_from(s.clips, kept) + Seq::<Write>::empty() =~= pending
            + deleted_from(s.clips, kept));
        assert(pending + Seq::<Write>::empty() =~= pending);
    }
}

/// Saving without a positive history size keeps the size and every entry, and
/// takes over the poll interval all the same.
pub proof fn saving_without_a_size_keeps_the_history(s: State)
    requires
        parsed_u32(trimmed(s.settings_draft_history_size)) matches Some(n) ==> n == 0,
    ensures
        s.updated(Event::SettingsSave) == (State {
            poll_interval_ms: interval_after(s.settings_draft_poll_interval_ms, s.poll_interval_ms),
            settings_open: false,
            storage: pending_after_saving(s, Seq::empty(), s.settings, s.clips),
            ..s
        }),
{
    lemma_settings_stored(s.poll_interval_set());
}

/// The first window that opens is the main one, and opening another changes
/// nothing.
pub proof fn the_first_window_is_the_main_one(s: State, window: u64)
    ensures
        s.updated(Event::WindowOpened(window)) == if s.main_window is Some {
            s
        } else {
            State { main_window: Some(window), ..s }
        },
{
}

/// Control and F, in either case, open the search with the cursor in its field,
/// or put it away with what was typed.
pub proof fn control_f_toggles_the_search(s: State, c: Seq<char>)
    requires
        c == seq!['f'] || c == seq!['F'],
    ensures
        ({
            let event = Event::Key { key: KeyName::Character(c), control: true };
            &&& s.updated(event) == if s.search_active {
                State { search_active: false, search_query: Seq::empty(), ..s }
            } else {
                State { search_active: true, ..s }
            }
            &&& s.task(event) == if s.search_active {
                Task::Nothing
            } else {
                Task::FocusSearch
            }
        }),
{
}

/// Escape puts the search away with what was typed, with or without Control.
pub proof fn escape_puts_the_search_away(s: State, control: bool)
    ensures
        s.updated(Event::Key { key: KeyName::Escape, control }) == if s.search_active {
            State { search_active: false, search_query: Seq::empty(), ..s }
        } else {
            s
        },
        s.task(Event::Key { key: KeyName::Escape, control }) == Task::Nothing,
{
}

/// No other key changes anything.
pub proof fn other_keys_change_nothing(s: State, key: KeyName, control: bool)
    requires
        key !is Escape,
        key matches KeyName::Character(c) ==> !control || (c != seq!['f'] && c != seq!['F']),
    ensures
        s.updated(Event::Key { key, control }) == s,
        s.task(Event::Key { key, control }) == Task::Nothing,
{
    if let KeyName::Character(c) = key {
        if c.len() == 1 {
            assert(c =~= seq![c[0]]);
        }
    }
}

/// Only choosing another entry, opening the search and a request of another
/// instance ask something of the window.
pub proof fn other_events_ask_nothing_of_the_window(s: State, event: Event)
    requires
        !(event is Select),
        !(event is Key),
        event matches Event::Tick { focus_requested, .. } ==> !focus_requested || s.main_window
            is None,
    ensures
        s.task(event) == Task::Nothing,
{
}

/// Nothing but a new content on the clipboard takes an id, so every event is
/// possible as long as an id is left, and every one but a look at the clipboard
/// at all times.
pub proof fn events_are_possible_while_ids_last(s: State, event: Event)
    requires
        s.next_id < u64::MAX || !(event is Tick),
    ensures
        s.can_update(event),
{
}

/// Without an id left, what is known or was seen last can be taken up, and
/// nothing else.
pub proof fn without_ids_only_known_contents_are_taken_up(
    s: State,
    text: Option<Seq<char>>,
    image: Option<Picture>,
    focus: bool,
    data: ClipContent,
)
    requires
        s.next_id == u64::MAX,
        clipboard_has(text, image, data),
    ensures
        s.can_update(Event::Tick { text, image, focus_requested: focus }) <==> {
            let hash = content_hash(content_bytes(data));
            ||| s.last_clipboard_hash == Some(hash)
            ||| exists|j: int| 0 <= j < s.clips.len() && (#[trigger] s.clips[j]).hash == hash
        },
{
    lemma_found(text, image, data);
    let hash = content_hash(content_bytes(data));
    lemma_position(s.hashes(), hash);
    let p = position(s.hashes(), hash) as int;
    if p < s.clips.len() {
        assert(s.hashes()[p] == hash);
        assert(s.clips[p].hash == hash);
    } else {
        assert forall|j: int| 0 <= j < s.clips.len() implies (#[trigger] s.clips[j]).hash
            != hash by {
            assert(s.hashes()[j] != hash);
        }
    }
}

/// An entry shows the preview of its text, or the size of its image.
pub proof fn an_entry_shows_its_content(data: ClipContent)
    ensures
        match data {
            ClipContent::Text(t) => content_preview(data) == text_preview(t),
            ClipContent::Image { width, height, .. } => content_preview(data) == "image · "@
                + decimal_digits(width as nat) + "×"@ + decimal_digits(height as nat),
        },
{
}

/// A start takes over every loaded clip, in the loaded order, selects the first
/// one, and gives ids from behind the greatest one on; nothing is open, searched
/// for or seen.
pub proof fn a_start_takes_over_what_was_loaded(
    storage: Option<Seq<Write>>,
    clips: Seq<StoredClip>,
    settings: Settings,
)
    requires
        forall|i: int| 0 <= i < clips.len() ==> (#[trigger] clips[i]).id < u64::MAX,
    ensures
        ({
            let s = State::started(storage, StoredState { clips, settings });
            &&& s.clips.len() == clips.len()
            &&& forall|i: int|
                0 <= i < clips.len() ==> #[trigger] s.clips[i] == (Entry {
                    id: clips[i].id,
                    data: clips[i].data,
                    hash: clips[i].hash,
                    preview: content_preview(clips[i].data),
                })
            &&& forall|i: int| 0 <= i < clips.len() ==> (#[trigger] clips[i]).id < s.next_id
            &&& s.next_id > 0 ==> exists|i: int|
                0 <= i < clips.len() && (#[trigger] clips[i]).id + 1 == s.next_id
            &&& s == (State {
                clips: s.clips,
                selected: if clips.len() > 0 {
                    Some(clips[0].id)
                } else {
                    None
                },
                next_id: s.next_id,
                last_clipboard_hash: None,
                settings,
                poll_interval_ms: 500,
                storage,
                settings_open: false,
                settings_draft_history_size: decimal_digits(settings.history_size as nat),
                settings_draft_poll_interval_ms: decimal_digits(500),
                search_active: false,
                search_query: Seq::empty(),
                main_window: None,
            })
        }),
{
    lemma_id_after(clips);
}

proof fn lemma_id_after(clips: Seq<StoredClip>)
    requires
        forall|i: int| 0 <= i < clips.len() ==> (#[trigger] clips[i]).id < u64::MAX,
    ensures
        0 <= id_after(clips) <= u64::MAX,
        forall|i: int|
            0 <= i < clips.len() ==> (#[trigger] clips[i]).id < id_after(clips),
        id_after(clips) > 0 ==> exists|i: int|
            0 <= i < clips.len() && (#[trigger] clips[i]).id + 1 == id_after(clips),
    decreases clips.len(),
{
    if clips.len() > 0 {
        let init = clips.drop_last();
        assert forall|i: int| 0 <= i < init.len() implies (#[trigger] init[i]).id < u64::MAX by {
            assert(clips[i].id < u64::MAX);
        }
        lemma_id_after(init);
        assert(clips[clips.len() - 1].id < u64::MAX);
        assert forall|i: int| 0 <= i < clips.len() implies (#[trigger] clips[i]).id
            < id_after(clips) by {
            if i < init.len() {
                assert(init[i].id < id_after(init));
            }
        }
        if clips.last().id >= id_after(init) {
            assert(clips[clips.len() - 1].id + 1 == id_after(clips));
        } else {
            let i = choose|i: int|
                0 <= i < init.len() && (#[trigger] init[i]).id + 1 == id_after(init);
            assert(clips[i].id + 1 == id_after(clips));
        }
    }
}

/// A new installation keeps two hundred entries, in memory only.
pub proof fn a_new_installation_keeps_two_hundred_entries_in_memory()
    ensures
        default_settings() == (Settings { history_size: 200, storage_enabled: false }),
{
}

} // verus!
