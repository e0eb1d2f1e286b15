use vstd::prelude::*;

use crate::history_laws::{
    a_fresh_start_is_sound, after, every_event_keeps_the_state_sound, has_distinct_ids,
    lemma_without_holds, possible, possible_run, sound, without,
};
use crate::model::{
    data_hash, deletions, first_id, found, has_id, id_after, position, saves, stored_of, Entry,
    Event, State,
};
use crate::storage::{
    clip_record, default_settings, order_record, settings_record, stored_clips, ClipContent,
    Settings, StoredClip, Tables, Write,
};
use crate::storage_laws::{clip_round_trip, content_fits, order_round_trip, settings_round_trip};
use crate::text::{parsed_u32, trimmed};

verus! {

/// The tables on disk once everything that is pending has been committed to
/// `base`.
pub open spec fn committed(base: Tables, s: State) -> Tables {
    match s.storage {
        Some(pending) => base.after_all(pending),
        None => base,
    }
}

/// Committing what is pending, and starting a new list of writes, does not
/// change what the tables are going to hold.
pub proof fn committing_loses_nothing(base: Tables, s: State)
    requires
        s.storage is Some,
    ensures
        committed(
            base.after_all(s.storage->0),
            State { storage: Some(Seq::empty()), ..s },
        ) == committed(base, s),
{
}

/// Whether `t` holds the record of each of `clips` under its id.
pub open spec fn holds_clips(t: Tables, clips: Seq<Entry>) -> bool {
    forall|i: int|
        0 <= i < clips.len() ==> t.clips.contains_key((#[trigger] clips[i]).id)
            && t.clips[clips[i].id] == clip_record(clips[i].hash, clips[i].data)
}

/// Whether `t` holds no record but those of `clips`.
pub open spec fn holds_only(t: Tables, clips: Seq<Entry>) -> bool {
    forall|k: u64| #[trigger] t.clips.contains_key(k) ==> has_id(clips, k)
}

/// Whether `t` holds the history of `s`: every entry and their order, which may
/// be missing where there are no entries.
pub open spec fn mirrors(t: Tables, s: State) -> bool {
    &&& holds_clips(t, s.clips)
    &&& t.order == Some(order_record(s.ids())) || (t.order is None && s.clips.len() == 0)
}

proof fn lemma_after_one(t: Tables, w: Write)
    ensures
        t.after_all(seq![w]) == t.after(w),
{
    assert(seq![w].drop_last() =~= Seq::<Write>::empty());
    assert(t.after_all(Seq::<Write>::empty()) == t);
}

proof fn lemma_after_concat(t: Tables, a: Seq<Write>, b: Seq<Write>)
    ensures
        t.after_all(a + b) == t.after_all(a).after_all(b),
    decreases b.len(),
{
    if b.len() == 0 {
        assert(a + b =~= a);
    } else {
        assert((a + b).drop_last() =~= a + b.drop_last());
        lemma_after_concat(t, a, b.drop_last());
    }
}

proof fn lemma_writing(base: Tables, s: State, writes: Seq<Write>)
    requires
        s.storage is Some,
    ensures
        committed(base, s.writing(writes)) == committed(base, s).after_all(writes),
        s.writing(writes).storage is Some,
{
    lemma_after_concat(base, s.storage->0, writes);
}

proof fn lemma_order_stored(base: Tables, s: State)
    requires
        s.stores(),
    ensures
        committed(base, s.order_stored()) == committed(base, s).after(s.order_write()),
{
    lemma_writing(base, s, seq![s.order_write()]);
    lemma_after_one(committed(base, s), s.order_write());
}

/// Storing the order completes what a table with every entry lacks.
proof fn lemma_order_completes(base: Tables, s: State)
    requires
        s.stores(),
        holds_clips(committed(base, s), s.clips),
    ensures
        mirrors(committed(base, s.order_stored()), s.order_stored()),
        holds_only(committed(base, s), s.clips) ==> holds_only(
            committed(base, s.order_stored()),
            s.order_stored().clips,
        ),
{
    lemma_order_stored(base, s);
    let r = s.order_stored();
    assert(r.clips == s.clips);
}

proof fn lemma_deletions(t: Tables, gone: Seq<Entry>)
    ensures
        ({
            let r = t.after_all(deletions(gone));
            &&& r.order == t.order
            &&& r.settings == t.settings
            &&& forall|k: u64| #[trigger]
                r.clips.contains_key(k) <==> t.clips.contains_key(k) && !has_id(gone, k)
            &&& forall|k: u64| #[trigger] r.clips.contains_key(k) ==> r.clips[k] == t.clips[k]
        }),
    decreases gone.len(),
{
    let writes = deletions(gone);
    if gone.len() > 0 {
        let rest = gone.skip(1);
        let id = gone[0].id;
        assert(writes.drop_last() =~= deletions(rest));
        assert(writes.last() == Write::DeleteClip { id });
        lemma_deletions(t, rest);
        assert forall|k: u64| has_id(gone, k) <==> has_id(rest, k) || k == id by {
            if has_id(rest, k) {
                let i = choose|i: int| 0 <= i < rest.len() && rest[i].id == k;
                assert(gone[i + 1].id == k);
            }
            if has_id(gone, k) && k != id {
                let i = choose|i: int| 0 <= i < gone.len() && gone[i].id == k;
                assert(rest[i - 1].id == k);
            }
            assert(gone[0].id == id);
        }
    }
}

proof fn lemma_cut(base: Tables, s: State)
    requires
        s.stores(),
        has_distinct_ids(s.clips),
        holds_clips(committed(base, s), s.clips),
    ensures
        s.cut_to_size().stores(),
        holds_clips(committed(base, s.cut_to_size()), s.cut_to_size().clips),
        holds_only(committed(base, s), s.clips) ==> holds_only(
            committed(base, s.cut_to_size()),
            s.cut_to_size().clips,
        ),
{
    let max = s.settings.history_size as int;
    if s.clips.len() > max {
        let gone = s.clips.skip(max);
        let c = s.cut_to(max);
        let bare = State { storage: s.storage, ..c };
        lemma_writing(base, bare, deletions(gone));
        let t = committed(base, s);
        lemma_deletions(t, gone);
        assert forall|i: int| 0 <= i < c.clips.len() implies committed(
            base,
            c,
        ).clips.contains_key((#[trigger] c.clips[i]).id) by {
            let id = c.clips[i].id;
            assert(s.clips[i] == c.clips[i]);
            if has_id(gone, id) {
                let j = choose|j: int| 0 <= j < gone.len() && gone[j].id == id;
                assert(s.clips[max + j].id == id);
            }
        }
        if holds_only(t, s.clips) {
            assert forall|k: u64| #[trigger] committed(base, c).clips.contains_key(k) implies has_id(
                c.clips,
                k,
            ) by {
                let i = choose|i: int| 0 <= i < s.clips.len() && s.clips[i].id == k;
                if i >= max {
                    assert(gone[i - max].id == k);
                }
                assert(c.clips[i].id == k);
            }
        }
    }
}

proof fn lemma_bumped(base: Tables, s: State, pos: int)
    requires
        s.stores(),
        0 <= pos < s.clips.len(),
        holds_clips(committed(base, s), s.clips),
    ensures
        mirrors(committed(base, s.bumped(pos).order_stored()), s.bumped(pos).order_stored()),
        holds_only(committed(base, s), s.clips) ==> holds_only(
            committed(base, s.bumped(pos).order_stored()),
            s.bumped(pos).order_stored().clips,
        ),
{
    let b = s.bumped(pos);
    assert forall|i: int| 0 <= i < b.clips.len() implies committed(base, b).clips.contains_key(
        (#[trigger] b.clips[i]).id,
    ) && committed(base, b).clips[b.clips[i].id] == clip_record(b.clips[i].hash, b.clips[i].data) by {
        let j = if i == 0 {
            pos
        } else if i <= pos {
            i - 1
        } else {
            i
        };
        assert(b.clips[i] == s.clips[j]);
    }
    if holds_only(committed(base, s), s.clips) {
        assert forall|k: u64| #[trigger] committed(base, b).clips.contains_key(k) implies has_id(
            b.clips,
            k,
        ) by {
            let j = choose|j: int| 0 <= j < s.clips.len() && s.clips[j].id == k;
            let i = if j == pos {
                0
            } else if j < pos {
                j + 1
            } else {
                j
            };
            assert(b.clips[i].id == k);
        }
    }
    lemma_order_completes(base, b);
}

proof fn lemma_entered(base: Tables, s: State, data: ClipContent, hash: u64)
    requires
        s.stores(),
        has_distinct_ids(s.clips),
        forall|i: int| 0 <= i < s.clips.len() ==> (#[trigger] s.clips[i]).id < s.next_id,
        holds_clips(committed(base, s), s.clips),
    ensures
        mirrors(committed(base, s.entered(data, hash)), s.entered(data, hash)),
        holds_only(committed(base, s), s.clips) ==> holds_only(
            committed(base, s.entered(data, hash)),
            s.entered(data, hash).clips,
        ),
{
    let id = s.next_id;
    let w = Write::SaveClip { id, record: clip_record(hash, data) };
    let e = s.with_entry(data, hash);
    lemma_writing(base, s, seq![w]);
    lemma_after_one(committed(base, s), w);
    let t = committed(base, e);
    assert(t == committed(base, s).after(w));
    assert forall|i: int| 0 <= i < e.clips.len() implies t.clips.contains_key(
        (#[trigger] e.clips[i]).id,
    ) && t.clips[e.clips[i].id] == clip_record(e.clips[i].hash, e.clips[i].data) by {
        if i > 0 {
            assert(e.clips[i] == s.clips[i - 1]);
        }
    }
    assert forall|i: int, j: int| 0 <= i < j < e.clips.len() implies (#[trigger] e.clips[i]).id != (
    #[trigger] e.clips[j]).id by {
        assert(e.clips[j] == s.clips[j - 1]);
        if i > 0 {
            assert(e.clips[i] == s.clips[i - 1]);
        }
    }
    if holds_only(committed(base, s), s.clips) {
        assert forall|k: u64| #[trigger] t.clips.contains_key(k) implies has_id(e.clips, k) by {
            if k == id {
                assert(e.clips[0].id == k);
            } else {
                let j = choose|j: int| 0 <= j < s.clips.len() && s.clips[j].id == k;
                assert(e.clips[j + 1].id == k);
            }
        }
    }
    lemma_cut(base, e);
    lemma_order_completes(base, e.cut_to_size());
}

proof fn lemma_ingested(base: Tables, s: State, data: ClipContent, hash: u64)
    requires
        s.stores(),
        has_distinct_ids(s.clips),
        forall|i: int| 0 <= i < s.clips.len() ==> (#[trigger] s.clips[i]).id < s.next_id,
        holds_clips(committed(base, s), s.clips),
    ensures
        mirrors(committed(base, s.ingested(data, hash)), s.ingested(data, hash)),
        holds_only(committed(base, s), s.clips) ==> holds_only(
            committed(base, s.ingested(data, hash)),
            s.ingested(data, hash).clips,
        ),
{
    let pos = position(s.hashes(), hash) as int;
    if pos < s.clips.len() {
        lemma_bumped(base, s, pos);
    } else {
        lemma_entered(base, s, data, hash);
    }
}

proof fn lemma_noticed(base: Tables, s: State, data: ClipContent, hash: u64)
    requires
        s.stores(),
        has_distinct_ids(s.clips),
        forall|i: int| 0 <= i < s.clips.len() ==> (#[trigger] s.clips[i]).id < s.next_id,
        mirrors(committed(base, s), s),
    ensures
        mirrors(committed(base, s.noticed(data, hash)), s.noticed(data, hash)),
        holds_only(committed(base, s), s.clips) ==> holds_only(
            committed(base, s.noticed(data, hash)),
            s.noticed(data, hash).clips,
        ),
{
    let seen = State { last_clipboard_hash: Some(hash), ..s };
    lemma_ingested(base, seen, data, hash);
}

proof fn lemma_removed(base: Tables, s: State, id: u64)
    requires
        s.stores(),
        mirrors(committed(base, s), s),
    ensures
        mirrors(committed(base, s.removed(id)), s.removed(id)),
        holds_only(committed(base, s), s.clips) ==> holds_only(
            committed(base, s.removed(id)),
            s.removed(id).clips,
        ),
{
    let clips = s.clips.filter(|c: Entry| c.id != id);
    let rest = State {
        clips,
        selected: if s.selected == Some(id) {
            first_id(clips)
        } else {
            s.selected
        },
        ..s
    };
    let w = Write::DeleteClip { id };
    let o = rest.order_write();
    lemma_writing(base, rest, seq![w, o]);
    let t = committed(base, s);
    assert(seq![w, o] =~= seq![w] + seq![o]);
    lemma_after_concat(t, seq![w], seq![o]);
    lemma_after_one(t, w);
    lemma_after_one(t.after(w), o);
    let r = s.removed(id);
    assert(committed(base, r) == t.after(w).after(o));
    lemma_without_holds(s.clips, id);
    assert forall|i: int| 0 <= i < r.clips.len() implies committed(base, r).clips.contains_key(
        (#[trigger] r.clips[i]).id,
    ) && committed(base, r).clips[r.clips[i].id] == clip_record(r.clips[i].hash, r.clips[i].data) by {
        assert(without(s.clips, id).contains(r.clips[i]));
        let k = choose|k: int| 0 <= k < s.clips.len() && s.clips[k] == r.clips[i];
        assert(s.clips[k].id != id);
    }
    if holds_only(t, s.clips) {
        assert forall|k: u64| #[trigger] committed(base, r).clips.contains_key(k) implies has_id(
            r.clips,
            k,
        ) by {
            let j = choose|j: int| 0 <= j < s.clips.len() && s.clips[j].id == k;
            assert(s.clips.contains(s.clips[j]));
            assert(without(s.clips, id).contains(s.clips[j]));
            let i = choose|i: int| 0 <= i < r.clips.len() && r.clips[i] == s.clips[j];
            assert(r.clips[i].id == k);
        }
    }
}

proof fn lemma_settings_saved(base: Tables, s: State)
    requires
        s.stores(),
        has_distinct_ids(s.clips),
        mirrors(committed(base, s), s),
    ensures
        s.settings_saved().stores(),
        mirrors(committed(base, s.settings_saved()), s.settings_saved()),
        holds_only(committed(base, s), s.clips) ==> holds_only(
            committed(base, s.settings_saved()),
            s.settings_saved().clips,
        ),
{
    let set = s.history_size_set();
    if let Some(n) = parsed_u32(trimmed(s.settings_draft_history_size)) {
        if n > 0 {
            let resized = State { settings: Settings { history_size: n, ..s.settings }, ..s };
            lemma_cut(base, resized);
        }
    }
    let p = set.poll_interval_set();
    let w = Write::SaveSettings { record: settings_record(p.settings) };
    lemma_writing(base, p, seq![w]);
    lemma_after_one(committed(base, p), w);
    lemma_order_completes(base, p.writing(seq![w]));
}

proof fn lemma_emptied(base: Tables, s: State)
    requires
        s.storage is Some,
    ensures
        mirrors(committed(base, s.emptied()), s.emptied()),
        committed(base, s.emptied()).clips == Map::<u64, Seq<u8>>::empty(),
{
    let w = Write::DeleteAllClips { order: order_record(Seq::empty()) };
    let bare = State { storage: s.storage, ..s.emptied() };
    lemma_writing(base, bare, seq![w]);
    lemma_after_one(committed(base, bare), w);
    assert(s.emptied().ids() =~= Seq::<u64>::empty());
}

proof fn lemma_saves(t: Tables, clips: Seq<Entry>)
    requires
        has_distinct_ids(clips),
    ensures
        holds_clips(t.after_all(saves(clips)), clips),
        t.after_all(saves(clips)).settings == t.settings,
    decreases clips.len(),
{
    if clips.len() > 0 {
        let init = clips.drop_last();
        lemma_saves(t, init);
        assert(saves(clips).drop_last() =~= saves(init));
        let r = t.after_all(saves(clips));
        assert forall|i: int| 0 <= i < clips.len() implies r.clips.contains_key(
            (#[trigger] clips[i]).id,
        ) && r.clips[clips[i].id] == clip_record(clips[i].hash, clips[i].data) by {
            if i < init.len() {
                assert(init[i] == clips[i]);
            }
        }
    }
}

/// Switching the storage on stores every entry and their order, whatever the
/// tables held before.
pub proof fn switching_storage_on_stores_the_history(base: Tables, s: State)
    requires
        s.storage is Some,
        !s.settings.storage_enabled,
        has_distinct_ids(s.clips),
    ensures
        ({
            let r = s.updated(Event::SettingsDiskToggled(true));
            &&& r.stores()
            &&& mirrors(committed(base, r), r)
        }),
{
    let settings = Settings { storage_enabled: true, ..s.settings };
    let w = Write::SaveSettings { record: settings_record(settings) };
    let on = State { settings, ..s };
    let m = on.writing(seq![w]);
    let writes = saves(m.clips).push(m.order_write());
    lemma_writing(base, on, seq![w]);
    lemma_writing(base, m, writes);
    let t = committed(base, m);
    lemma_saves(t, m.clips);
    assert(writes.drop_last() =~= saves(m.clips));
    assert(m.flushed().ids() == m.ids());
}

/// While the history goes to the store, every event that can come leaves the
/// store with the entries that are listed and with their order, once what is
/// pending has been committed; and where it held no others, it holds no others.
pub proof fn every_event_keeps_the_store_current(base: Tables, s: State, event: Event)
    requires
        s.stores(),
        sound(s),
        possible(s, event),
        mirrors(committed(base, s), s),
        event != Event::SettingsDiskToggled(false),
    ensures
        s.updated(event).stores(),
        mirrors(committed(base, s.updated(event)), s.updated(event)),
        holds_only(committed(base, s), s.clips) ==> holds_only(
            committed(base, s.updated(event)),
            s.updated(event).clips,
        ),
{
    reveal(sound);
    assert(has_distinct_ids(s.clips));
    match event {
        Event::Remove(id) => lemma_removed(base, s, id),
        Event::CopySelected { clipboard_opened } => {
            let pos = s.selected_place();
            if clipboard_opened && pos < s.clips.len() {
                let seen = State { last_clipboard_hash: Some(s.clips[pos].hash), ..s };
                lemma_bumped(base, seen, pos);
            }
        },
        Event::Tick { text, image, .. } => {
            if let Some(data) = found(text, image) {
                lemma_noticed(base, s, data, data_hash(data));
            }
        },
        Event::SettingsDiskToggled(enabled) => {
            let w = Write::SaveSettings { record: settings_record(s.settings) };
            lemma_writing(base, s, seq![w]);
            lemma_after_one(committed(base, s), w);
        },
        Event::SettingsSave => lemma_settings_saved(base, s),
        Event::SettingsDeleteAll => lemma_emptied(base, s),
        _ => {},
    }
}

proof fn lemma_stored_clips(t: Tables, clips: Seq<Entry>)
    requires
        holds_clips(t, clips),
        forall|i: int| 0 <= i < clips.len() ==> content_fits((#[trigger] clips[i]).data),
    ensures
        stored_clips(t.clips, clips.map_values(|c: Entry| c.id)) == clips.map_values(
            |c: Entry| stored_of(c),
        ),
    decreases clips.len(),
{
    let ids = clips.map_values(|c: Entry| c.id);
    let stored = clips.map_values(|c: Entry| stored_of(c));
    if clips.len() > 0 {
        let init = clips.drop_last();
        let last = clips.last();
        assert forall|i: int| 0 <= i < init.len() implies init[i] == #[trigger] clips[i] by {}
        lemma_stored_clips(t, init);
        assert(ids.drop_last() =~= init.map_values(|c: Entry| c.id));
        assert(clips[clips.len() - 1] == last);
        clip_round_trip(last.id, last.hash, last.data);
        assert(stored =~= init.map_values(|c: Entry| stored_of(c)).push(stored_of(last)));
    } else {
        assert(stored =~= Seq::<StoredClip>::empty());
    }
}

/// Whether everything in `s` is short enough for the records of the store.
pub open spec fn records_fit(s: State) -> bool {
    &&& s.clips.len() < 0x1_0000_0000
    &&& forall|i: int| 0 <= i < s.clips.len() ==> content_fits((#[trigger] s.clips[i]).data)
}

/// What is read from a store that holds the history is that history, in its
/// order.
pub proof fn a_stored_history_is_read_back(t: Tables, s: State)
    requires
        mirrors(t, s),
        records_fit(s),
    ensures
        t.loaded().clips == s.clips.map_values(|c: Entry| stored_of(c)),
{
    order_round_trip(s.ids());
    lemma_stored_clips(t, s.clips);
}

proof fn lemma_id_after(clips: Seq<StoredClip>)
    ensures
        id_after(clips) >= 0,
        forall|i: int| 0 <= i < clips.len() ==> (#[trigger] clips[i]).id < id_after(clips),
        clips.len() > 0 ==> exists|i: int|
            0 <= i < clips.len() && (#[trigger] clips[i]).id + 1 == id_after(clips),
    decreases clips.len(),
{
    if clips.len() > 0 {
        let init = clips.drop_last();
        lemma_id_after(init);
        assert forall|i: int| 0 <= i < clips.len() implies (#[trigger] clips[i]).id < id_after(
            clips,
        ) by {
            if i < init.len() {
                assert(init[i] == clips[i]);
            }
        }
        if clips.last().id >= id_after(init) {
            assert(clips[clips.len() - 1].id + 1 == id_after(clips));
        } else {
            let i = choose|i: int| 0 <= i < init.len() && init[i].id + 1 == id_after(init);
            assert(clips[i].id + 1 == id_after(clips));
        }
    }
}

/// Starting again from a store that holds the history brings back every entry
/// as it was, in its order, with its preview and with the settings; the store
/// then holds the history of the new start, and ids go on where none was used.
pub proof fn a_restart_brings_the_history_back(t: Tables, s: State)
    requires
        sound(s),
        mirrors(t, s),
        records_fit(s),
        t.stored_settings() == s.settings,
    ensures
        ({
            let r = State::started(Some(Seq::empty()), t.loaded());
            &&& r.clips == s.clips
            &&& r.settings == s.settings
            &&& r.selected == first_id(s.clips)
            &&& sound(r)
            &&& mirrors(committed(t, r), r)
        }),
{
    reveal(sound);
    a_stored_history_is_read_back(t, s);
    let loaded = t.loaded();
    let r = State::started(Some(Seq::empty()), loaded);
    assert forall|i: int| 0 <= i < s.clips.len() implies #[trigger] r.clips[i] == s.clips[i] by {
        assert(loaded.clips[i] == stored_of(s.clips[i]));
    }
    assert(r.clips =~= s.clips);
    assert(r.ids() =~= s.ids());
    lemma_id_after(loaded.clips);
    if loaded.clips.len() > 0 {
        let m = choose|m: int|
            0 <= m < loaded.clips.len() && loaded.clips[m].id + 1 == id_after(loaded.clips);
        assert(s.clips[m].id < s.next_id);
    }
    assert forall|i: int| 0 <= i < r.clips.len() implies (#[trigger] r.clips[i]).id < r.next_id by {
        assert(loaded.clips[i].id < id_after(loaded.clips));
    }
    if r.clips.len() > 0 {
        assert(r.clips[0].id == r.selected->0);
    }
}

/// Deleting all clips empties the history and the store, also while the history
/// does not go there.
pub proof fn deleting_all_clears_the_store(base: Tables, s: State)
    requires
        s.storage is Some,
    ensures
        ({
            let r = s.updated(Event::SettingsDeleteAll);
            &&& r.clips.len() == 0
            &&& committed(base, r).clips == Map::<u64, Seq<u8>>::empty()
            &&& committed(base, r).loaded().clips.len() == 0
            &&& committed(base, r).settings == committed(base, s).settings
        }),
{
    lemma_emptied(base, s);
    order_round_trip(Seq::empty());
    let w = Write::DeleteAllClips { order: order_record(Seq::empty()) };
    let bare = State { storage: s.storage, ..s.emptied() };
    lemma_writing(base, bare, seq![w]);
    lemma_after_one(committed(base, bare), w);
    assert(s.emptied().ids() =~= Seq::<u64>::empty());
}

/// Whether none of `writes` stores settings.
spec fn leaves_settings(writes: Seq<Write>) -> bool {
    forall|i: int| 0 <= i < writes.len() ==> !(#[trigger] writes[i] is SaveSettings)
}

proof fn lemma_leaves_settings(t: Tables, writes: Seq<Write>)
    requires
        leaves_settings(writes),
    ensures
        t.after_all(writes).settings == t.settings,
    decreases writes.len(),
{
    if writes.len() > 0 {
        let init = writes.drop_last();
        assert forall|i: int| 0 <= i < init.len() implies !(#[trigger] init[i] is SaveSettings) by {
            assert(!(writes[i] is SaveSettings));
        }
        lemma_leaves_settings(t, init);
        assert(!(writes[writes.len() - 1] is SaveSettings));
    }
}

/// Whether `r` has the settings of `s` and, once committed, a store with the
/// same settings record.
spec fn keeps_settings(base: Tables, s: State, r: State) -> bool {
    &&& r.settings == s.settings
    &&& r.storage is Some
    &&& committed(base, r).settings == committed(base, s).settings
}

proof fn lemma_storing_keeps_settings(base: Tables, s: State, writes: Seq<Write>)
    requires
        s.storage is Some,
        leaves_settings(writes),
    ensures
        keeps_settings(base, s, s.storing(writes)),
{
    lemma_writing(base, s, writes);
    lemma_leaves_settings(committed(base, s), writes);
}

proof fn lemma_cut_keeps_settings(base: Tables, s: State)
    requires
        s.storage is Some,
    ensures
        keeps_settings(base, s, s.cut_to_size()),
{
    let max = s.settings.history_size as int;
    if s.clips.len() > max {
        let bare = State { storage: s.storage, ..s.cut_to(max) };
        lemma_storing_keeps_settings(base, bare, deletions(s.clips.skip(max)));
    }
}

proof fn lemma_ingested_keeps_settings(base: Tables, s: State, data: ClipContent, hash: u64)
    requires
        s.storage is Some,
    ensures
        keeps_settings(base, s, s.ingested(data, hash)),
{
    let pos = position(s.hashes(), hash) as int;
    if pos < s.clips.len() {
        let b = s.bumped(pos);
        lemma_storing_keeps_settings(base, b, seq![b.order_write()]);
    } else {
        let w = Write::SaveClip { id: s.next_id, record: clip_record(hash, data) };
        lemma_storing_keeps_settings(base, s, seq![w]);
        let e = s.with_entry(data, hash);
        lemma_cut_keeps_settings(base, e);
        let c = e.cut_to_size();
        lemma_storing_keeps_settings(base, c, seq![c.order_write()]);
    }
}

proof fn lemma_settings_written(base: Tables, s: State)
    requires
        s.storage is Some,
    ensures
        ({
            let r = s.writing(seq![Write::SaveSettings { record: settings_record(s.settings) }]);
            &&& r.settings == s.settings
            &&& r.storage is Some
            &&& committed(base, r).stored_settings() == s.settings
        }),
{
    let w = Write::SaveSettings { record: settings_record(s.settings) };
    lemma_writing(base, s, seq![w]);
    lemma_after_one(committed(base, s), w);
    settings_round_trip(s.settings);
}

/// Whether the store has the current settings, once what is pending has been
/// committed.
pub open spec fn settings_current(base: Tables, s: State) -> bool {
    s.storage is Some && committed(base, s).stored_settings() == s.settings
}

proof fn lemma_removed_settings(base: Tables, s: State, id: u64)
    requires
        settings_current(base, s),
    ensures
        settings_current(base, s.removed(id)),
{
    let bare = State { storage: s.storage, ..s.removed(id) };
    let writes = seq![Write::DeleteClip { id }, bare.order_write()];
    lemma_storing_keeps_settings(base, bare, writes);
}

proof fn lemma_copied_settings(base: Tables, s: State)
    requires
        settings_current(base, s),
    ensures
        settings_current(base, s.copied()),
{
    let pos = s.selected_place();
    if pos < s.clips.len() {
        let b = State { last_clipboard_hash: Some(s.clips[pos].hash), ..s }.bumped(pos);
        lemma_storing_keeps_settings(base, b, seq![b.order_write()]);
    }
}

proof fn lemma_noticed_settings(base: Tables, s: State, data: ClipContent, hash: u64)
    requires
        settings_current(base, s),
    ensures
        settings_current(base, s.noticed(data, hash)),
{
    let seen = State { last_clipboard_hash: Some(hash), ..s };
    lemma_ingested_keeps_settings(base, seen, data, hash);
}

proof fn lemma_toggled_settings(base: Tables, s: State, enabled: bool)
    requires
        s.storage is Some,
    ensures
        settings_current(base, s.disk_toggled(enabled)),
{
    let on = State { settings: Settings { storage_enabled: enabled, ..s.settings }, ..s };
    lemma_settings_written(base, on);
    if enabled && !s.settings.storage_enabled {
        let m = on.writing(seq![Write::SaveSettings { record: settings_record(on.settings) }]);
        let writes = saves(m.clips).push(m.order_write());
        lemma_writing(base, m, writes);
        lemma_leaves_settings(committed(base, m), writes);
    }
}

proof fn lemma_saved_settings(base: Tables, s: State)
    requires
        s.storage is Some,
    ensures
        settings_current(base, s.settings_saved()),
{
    let set = s.history_size_set();
    if let Some(n) = parsed_u32(trimmed(s.settings_draft_history_size)) {
        if n > 0 {
            let resized = State { settings: Settings { history_size: n, ..s.settings }, ..s };
            lemma_cut_keeps_settings(base, resized);
        }
    }
    let p = set.poll_interval_set();
    lemma_settings_written(base, p);
    let m = p.writing(seq![Write::SaveSettings { record: settings_record(p.settings) }]);
    lemma_storing_keeps_settings(base, m, seq![m.order_write()]);
}

/// Where there is a store, it has the current settings after every event, as
/// it had before: a change of the settings is stored at once, also while the
/// history is not.
pub proof fn every_event_keeps_the_stored_settings_current(base: Tables, s: State, event: Event)
    requires
        settings_current(base, s),
    ensures
        settings_current(base, s.updated(event)),
{
    match event {
        Event::Remove(id) => lemma_removed_settings(base, s, id),
        Event::CopySelected { .. } => lemma_copied_settings(base, s),
        Event::Tick { text, image, .. } => {
            if let Some(data) = found(text, image) {
                lemma_noticed_settings(base, s, data, data_hash(data));
            }
        },
        Event::SettingsDiskToggled(enabled) => lemma_toggled_settings(base, s, enabled),
        Event::SettingsDeleteAll => deleting_all_clears_the_store(base, s),
        Event::SettingsSave => lemma_saved_settings(base, s),
        _ => {},
    }
}

/// What an event hands to the store while the storage is off.
pub open spec fn writes_without_storage(s: State, event: Event) -> Seq<Write> {
    match event {
        Event::SettingsDiskToggled(_) | Event::SettingsSave => seq![
            Write::SaveSettings { record: settings_record(s.updated(event).settings) },
        ],
        Event::SettingsDeleteAll => seq![
            Write::DeleteAllClips { order: order_record(Seq::empty()) },
        ],
        _ => Seq::empty(),
    }
}

proof fn lemma_noticed_in_memory(s: State, data: ClipContent, hash: u64)
    requires
        !s.settings.storage_enabled,
    ensures
        s.noticed(data, hash).storage == s.storage,
        s.noticed(data, hash).settings == s.settings,
{
}

/// While the storage is off, no entry and no order of entries is handed to the
/// store, whatever happens: a change of the settings is, and that everything is
/// to be deleted.
pub proof fn without_storage_the_history_stays_in_memory(s: State, event: Event)
    requires
        !s.settings.storage_enabled,
        event != Event::SettingsDiskToggled(true),
    ensures
        !s.updated(event).settings.storage_enabled,
        s.updated(event).storage == s.writing(writes_without_storage(s, event)).storage,
{
    if let Some(pending) = s.storage {
        assert(pending + Seq::<Write>::empty() =~= pending);
    }
    match event {
        Event::Tick { text, image, .. } => {
            if let Some(data) = found(text, image) {
                lemma_noticed_in_memory(s, data, data_hash(data));
            }
        },
        Event::SettingsDiskToggled(enabled) => {
            assert(!enabled);
        },
        _ => {},
    }
}

/// Whether the storage is off and nothing of a history is in the store, once
/// what is pending has been committed.
pub open spec fn nothing_stored(base: Tables, s: State) -> bool {
    &&& s.storage is Some
    &&& !s.settings.storage_enabled
    &&& committed(base, s).stored_order().len() == 0
}

proof fn lemma_nothing_stored(base: Tables, s: State, event: Event)
    requires
        nothing_stored(base, s),
        event != Event::SettingsDiskToggled(true),
    ensures
        nothing_stored(base, s.updated(event)),
{
    let writes = writes_without_storage(s, event);
    let t = committed(base, s);
    without_storage_the_history_stays_in_memory(s, event);
    lemma_writing(base, s, writes);
    if writes.len() > 0 {
        assert(writes =~= seq![writes[0]]);
        lemma_after_one(t, writes[0]);
    }
    order_round_trip(Seq::empty());
}

/// As long as the user does not have the history kept on disk, it is in memory
/// only: whatever happens, quitting clears it, and the next start has none.
pub proof fn quitting_clears_the_history(base: Tables, s: State, events: Seq<Event>)
    requires
        nothing_stored(base, s),
        forall|i: int|
            0 <= i < events.len() ==> #[trigger] events[i] != Event::SettingsDiskToggled(true),
    ensures
        ({
            let r = State::started(Some(Seq::empty()), committed(base, after(s, events)).loaded());
            &&& r.clips.len() == 0
            &&& r.selected is None
        }),
    decreases events.len(),
{
    if events.len() > 0 {
        assert(events[0] != Event::SettingsDiskToggled(true));
        lemma_nothing_stored(base, s, events[0]);
        quitting_clears_the_history(base, s.updated(events[0]), events.drop_first());
    }
}

/// Whether a store that is there stays there, with what it is still to commit in
/// the same order and more behind it.
pub open spec fn only_adds(before: Option<Seq<Write>>, now: Option<Seq<Write>>) -> bool {
    match (before, now) {
        (Some(a), Some(b)) => a.len() <= b.len() && b.take(a.len() as int) == a,
        (None, None) => true,
        _ => false,
    }
}

proof fn lemma_adds(a: State, b: State, writes: Seq<Write>)
    requires
        only_adds(a.storage, b.storage),
    ensures
        only_adds(a.storage, b.writing(writes).storage),
        only_adds(a.storage, b.storing(writes).storage),
{
    if let (Some(p), Some(q)) = (a.storage, b.storage) {
        assert((q + writes).take(p.len() as int) =~= q.take(p.len() as int));
    }
}

proof fn lemma_adds_cut(a: State, b: State)
    requires
        only_adds(a.storage, b.storage),
    ensures
        only_adds(a.storage, b.cut_to_size().storage),
{
    let max = b.settings.history_size as int;
    if b.clips.len() > max {
        let gone = b.clips.skip(max);
        let c = State {
            clips: b.clips.take(max),
            selected: b.cut_to(max).selected,
            ..b
        };
        lemma_adds(a, c, deletions(gone));
        assert(b.cut_to(max) == c.storing(deletions(gone)));
    }
}

proof fn lemma_adds_ingested(s: State, data: ClipContent, hash: u64)
    ensures
        only_adds(s.storage, s.ingested(data, hash).storage),
{
    let pos = position(s.hashes(), hash) as int;
    if pos < s.clips.len() {
        let b = s.bumped(pos);
        lemma_adds_self(s);
        lemma_adds(s, b, seq![b.order_write()]);
    } else {
        lemma_adds_self(s);
        let w = Write::SaveClip { id: s.next_id, record: clip_record(hash, data) };
        lemma_adds(s, s, seq![w]);
        let e = s.with_entry(data, hash);
        lemma_adds_cut(s, e);
        let c = e.cut_to_size();
        lemma_adds(s, c, seq![c.order_write()]);
    }
}

proof fn lemma_adds_noticed(s: State, data: ClipContent, hash: u64)
    ensures
        only_adds(s.storage, s.noticed(data, hash).storage),
{
    lemma_adds_self(s);
    lemma_adds_ingested(State { last_clipboard_hash: Some(hash), ..s }, data, hash);
}

proof fn lemma_adds_self(s: State)
    ensures
        only_adds(s.storage, s.storage),
{
    if let Some(p) = s.storage {
        assert(p.take(p.len() as int) =~= p);
    }
}

/// No event takes back a write that the store is still to commit: the writes of
/// an event come after those of the events before it.
pub proof fn every_event_only_adds_writes(s: State, event: Event)
    ensures
        only_adds(s.storage, s.updated(event).storage),
{
    lemma_adds_self(s);
    match event {
        Event::Remove(id) => {
            let rest = State {
                clips: s.removed(id).clips,
                selected: s.removed(id).selected,
                ..s
            };
            let writes = seq![Write::DeleteClip { id }, rest.order_write()];
            lemma_adds(s, rest, writes);
            assert(s.removed(id) == rest.storing(writes));
        },
        Event::CopySelected { .. } => {
            let pos = s.selected_place();
            if pos < s.clips.len() {
                let b = State {
                    last_clipboard_hash: Some(s.clips[pos].hash),
                    ..s
                }.bumped(pos);
                lemma_adds(s, b, seq![b.order_write()]);
            }
        },
        Event::Tick { text, image, .. } => {
            if let Some(data) = found(text, image) {
                lemma_adds_noticed(s, data, data_hash(data));
            }
        },
        Event::SettingsDiskToggled(enabled) => {
            let settings = Settings { storage_enabled: enabled, ..s.settings };
            let on = State { settings, ..s };
            let w = seq![Write::SaveSettings { record: settings_record(settings) }];
            lemma_adds(s, on, w);
            let r = on.writing(w);
            lemma_adds(s, r, saves(r.clips).push(r.order_write()));
        },
        Event::SettingsDeleteAll => {
            let none = State {
                clips: Seq::empty(),
                selected: None,
                last_clipboard_hash: None,
                ..s
            };
            lemma_adds(
                s,
                none,
                seq![Write::DeleteAllClips { order: order_record(Seq::empty()) }],
            );
        },
        Event::SettingsSave => {
            match parsed_u32(trimmed(s.settings_draft_history_size)) {
                Some(n) if n > 0 => {
                    lemma_adds_cut(
                        s,
                        State { settings: Settings { history_size: n, ..s.settings }, ..s },
                    );
                },
                _ => {},
            }
            let p = s.history_size_set().poll_interval_set();
            let w = seq![Write::SaveSettings { record: settings_record(p.settings) }];
            lemma_adds(s, p, w);
            let q = p.writing(w);
            lemma_adds(s, q, seq![q.order_write()]);
        },
        _ => {},
    }
}

/// The tables of a new database.
pub open spec fn new_tables() -> Tables {
    Tables { clips: Map::empty(), order: None, settings: None }
}

/// With a new database the application starts with an empty history, which the
/// database holds, and with the default settings, which keep the history in
/// memory.
pub proof fn a_new_database_holds_the_first_state()
    ensures
        ({
            let s = State::started(Some(Seq::empty()), new_tables().loaded());
            &&& s.clips.len() == 0
            &&& s.settings == default_settings()
            &&& !s.settings.storage_enabled
            &&& nothing_stored(new_tables(), s)
            &&& sound(s)
            &&& mirrors(committed(new_tables(), s), s)
            &&& settings_current(new_tables(), s)
        }),
{
    assert(new_tables().loaded().clips =~= Seq::empty());
    a_fresh_start_is_sound(Some(Seq::empty()), default_settings());
}

/// Whatever happens while the history is kept on disk, a restart brings it back:
/// the same entries in the same order, and the same settings.
pub proof fn a_run_survives_a_restart(base: Tables, s: State, events: Seq<Event>)
    requires
        s.stores(),
        sound(s),
        mirrors(committed(base, s), s),
        settings_current(base, s),
        possible_run(s, events),
        forall|i: int|
            0 <= i < events.len() ==> #[trigger] events[i] != Event::SettingsDiskToggled(false),
        records_fit(after(s, events)),
    ensures
        ({
            let end = after(s, events);
            let r = State::started(Some(Seq::empty()), committed(base, end).loaded());
            &&& r.clips == end.clips
            &&& r.settings == end.settings
            &&& sound(r)
        }),
    decreases events.len(),
{
    if events.len() == 0 {
        a_restart_brings_the_history_back(committed(base, s), s);
    } else {
        assert(events[0] != Event::SettingsDiskToggled(false));
        every_event_keeps_the_state_sound(s, events[0]);
        every_event_keeps_the_store_current(base, s, events[0]);
        every_event_keeps_the_stored_settings_current(base, s, events[0]);
        a_run_survives_a_restart(base, s.updated(events[0]), events.drop_first());
    }
}

} // verus!
