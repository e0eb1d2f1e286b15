use vstd::prelude::*;

use crate::capture::{all_transparent, opaque, visible};
use crate::model::{
    content_preview, data_hash, first_id, found, has_id, has_text, position, Entry, Event, Picture,
    State, POLL_INTERVAL_MAX_MS, POLL_INTERVAL_MIN_MS,
};
use crate::storage::{ClipContent, Settings, StoredState, Write};
use crate::text::{parsed_u32, trimmed};

verus! {

/// Whether `entry` is what a content on the clipboard becomes: its hash and its
/// preview are those of its content, and an image shows.
pub open spec fn entry_sound(entry: Entry) -> bool {
    &&& entry.hash == data_hash(entry.data)
    &&& entry.preview == content_preview(entry.data)
    &&& entry.data matches ClipContent::Image { rgba, .. } ==> visible(rgba) == rgba
}

/// Whether no two entries have the same id.
pub open spec fn has_distinct_ids(clips: Seq<Entry>) -> bool {
    forall|i: int, j: int|
        0 <= i < j < clips.len() ==> (#[trigger] clips[i]).id != (#[trigger] clips[j]).id
}

/// Whether no two entries have the same id, and the ids are below the next one.
pub open spec fn ids_sound(s: State) -> bool {
    &&& has_distinct_ids(s.clips)
    &&& forall|i: int| 0 <= i < s.clips.len() ==> (#[trigger] s.clips[i]).id < s.next_id
}

/// Whether no two entries have the same hash.
pub open spec fn hashes_distinct(s: State) -> bool {
    forall|i: int, j: int|
        0 <= i < j < s.clips.len() ==> (#[trigger] s.clips[i]).hash != (#[trigger] s.clips[j]).hash
}

/// Whether the selected entry is there, and one is selected unless there are
/// none.
pub open spec fn selection_sound(s: State) -> bool {
    match s.selected {
        Some(id) => has_id(s.clips, id),
        None => s.clips.len() == 0,
    }
}

/// What holds of the application at all times.
#[verifier::opaque]
pub open spec fn sound(s: State) -> bool {
    &&& forall|i: int| 0 <= i < s.clips.len() ==> entry_sound(#[trigger] s.clips[i])
    &&& ids_sound(s)
    &&& hashes_distinct(s)
    &&& selection_sound(s)
    &&& POLL_INTERVAL_MIN_MS <= s.poll_interval_ms <= POLL_INTERVAL_MAX_MS
}

/// Whether an event can come from the window: an entry that is chosen is in the
/// list, and there is an id left for a new content on the clipboard.
pub open spec fn possible(s: State, event: Event) -> bool {
    &&& event matches Event::Select(id) ==> has_id(s.clips, id)
    &&& s.can_update(event)
}

pub proof fn lemma_position(s: Seq<u64>, x: u64)
    ensures
        position(s, x) <= s.len(),
        position(s, x) < s.len() ==> s[position(s, x) as int] == x,
        forall|i: int| 0 <= i < position(s, x) ==> #[trigger] s[i] != x,
    decreases s.len(),
{
    if s.len() > 0 && s[0] != x {
        let rest = s.drop_first();
        lemma_position(rest, x);
        assert forall|i: int| 0 <= i < position(s, x) implies #[trigger] s[i] != x by {
            if i > 0 {
                assert(rest[i - 1] == s[i]);
            }
        }
    }
}

/// An image that was made visible stays as it is.
pub proof fn visible_is_final(rgba: Seq<u8>)
    ensures
        visible(visible(rgba)) == visible(rgba),
{
    if all_transparent(rgba) && all_transparent(opaque(rgba)) {
        assert(opaque(opaque(rgba)) =~= opaque(rgba));
    }
}

/// Making an image visible changes no colour and no size, and an image with a
/// whole pixel is then not transparent all over.
pub proof fn visible_keeps_the_colours(rgba: Seq<u8>)
    ensures
        visible(rgba).len() == rgba.len(),
        forall|i: int| 0 <= i < rgba.len() && i % 4 != 3 ==> #[trigger] visible(rgba)[i] == rgba[i],
        rgba.len() >= 4 ==> !all_transparent(visible(rgba)),
{
    if rgba.len() >= 4 && all_transparent(rgba) {
        assert(opaque(rgba)[3] == 255);
    }
}

proof fn lemma_bumped(s: State, pos: int)
    requires
        0 <= pos < s.clips.len(),
        sound(s),
    ensures
        sound(s.bumped(pos)),
{
    reveal(sound);
    let b = s.bumped(pos);
    assert(b.clips.len() == s.clips.len());
    assert forall|i: int| 0 <= i < b.clips.len() implies #[trigger] b.clips[i] == s.clips[if i == 0 {
        pos
    } else if i <= pos {
        i - 1
    } else {
        i
    }] by {}
    if let Some(id) = s.selected {
        let i = choose|i: int| 0 <= i < s.clips.len() && s.clips[i].id == id;
        let j = if i == pos {
            0
        } else if i < pos {
            i + 1
        } else {
            i
        };
        assert(b.clips[j].id == id);
    }
}

proof fn lemma_cut(s: State)
    requires
        sound(s),
    ensures
        sound(s.cut_to_size()),
{
    reveal(sound);
    let max = s.settings.history_size as int;
    if s.clips.len() > max {
        let c = s.cut_to(max);
        let gone = s.clips.skip(max);
        assert(c.clips == s.clips.take(max));
        if let Some(id) = s.selected {
            if has_id(gone, id) {
                if max > 0 {
                    assert(c.clips[0].id == s.clips[0].id);
                }
            } else {
                let i = choose|i: int| 0 <= i < s.clips.len() && s.clips[i].id == id;
                if i >= max {
                    assert(gone[i - max].id == id);
                }
                assert(c.clips[i].id == id);
            }
        }
    }
}

proof fn lemma_entered(s: State, data: ClipContent, hash: u64)
    requires
        sound(s),
        s.next_id < u64::MAX,
        hash == data_hash(data),
        data matches ClipContent::Image { rgba, .. } ==> visible(rgba) == rgba,
        forall|i: int| 0 <= i < s.clips.len() ==> (#[trigger] s.clips[i]).hash != hash,
    ensures
        sound(s.entered(data, hash)),
{
    reveal(sound);
    let id = s.next_id;
    let e = s.with_entry(data, hash);
    let clips = e.clips;
    assert forall|i: int| 0 < i < clips.len() implies #[trigger] clips[i] == s.clips[i - 1] by {}
    match s.selected {
        Some(selected) => {
            let i = choose|i: int| 0 <= i < s.clips.len() && s.clips[i].id == selected;
            assert(e.clips[i + 1].id == selected);
        },
        None => {
            assert(e.clips[0].id == id);
        },
    }
    assert(sound(e));
    lemma_cut(e);
    lemma_same_history(e.cut_to_size(), s.entered(data, hash));
}

proof fn lemma_ingested(s: State, data: ClipContent, hash: u64)
    requires
        sound(s),
        s.can_ingest(hash),
        hash == data_hash(data),
        data matches ClipContent::Image { rgba, .. } ==> visible(rgba) == rgba,
    ensures
        sound(s.ingested(data, hash)),
{
    lemma_position(s.hashes(), hash);
    let pos = position(s.hashes(), hash) as int;
    if pos < s.clips.len() {
        lemma_bumped(s, pos);
        lemma_same_history(s.bumped(pos), s.ingested(data, hash));
    } else {
        assert forall|i: int| 0 <= i < s.clips.len() implies (#[trigger] s.clips[i]).hash
            != hash by {
            assert(s.hashes()[i] != hash);
        }
        lemma_entered(s, data, hash);
    }
}

proof fn lemma_polled(s: State, text: Option<Seq<char>>, image: Option<Picture>)
    requires
        sound(s),
        s.can_poll(text, image),
    ensures
        sound(s.polled(text, image)),
{
    if let Some(p) = image {
        visible_is_final(p.bytes);
    }
    if let Some(data) = found(text, image) {
        let hash = data_hash(data);
        if s.last_clipboard_hash != Some(hash) {
            let seen = State { last_clipboard_hash: Some(hash), ..s };
            lemma_same_history(s, seen);
            lemma_ingested(seen, data, hash);
        }
    }
}

/// The entries of `clips` that do not have the id `id`.
pub open spec fn without(clips: Seq<Entry>, id: u64) -> Seq<Entry> {
    clips.filter(|c: Entry| c.id != id)
}

pub proof fn lemma_without_holds(clips: Seq<Entry>, id: u64)
    ensures
        forall|e: Entry| #[trigger]
            without(clips, id).contains(e) <==> clips.contains(e) && e.id != id,
    decreases clips.len(),
{
    reveal(Seq::filter);
    let rest = without(clips, id);
    if clips.len() > 0 {
        let init = clips.drop_last();
        let last = clips.last();
        let before = without(init, id);
        lemma_without_holds(init, id);
        assert forall|e: Entry| #[trigger] rest.contains(e) <==> clips.contains(e) && e.id
            != id by {
            if rest.contains(e) {
                let k = choose|k: int| 0 <= k < rest.len() && rest[k] == e;
                if k < before.len() {
                    assert(before[k] == e);
                    assert(before.contains(e));
                    assert(init.contains(e));
                    let j = choose|j: int| 0 <= j < init.len() && init[j] == e;
                    assert(clips[j] == e);
                } else {
                    assert(clips[clips.len() - 1] == e);
                }
            }
            if clips.contains(e) && e.id != id {
                let j = choose|j: int| 0 <= j < clips.len() && clips[j] == e;
                if j < init.len() {
                    assert(init[j] == e);
                    assert(before.contains(e));
                    let k = choose|k: int| 0 <= k < before.len() && before[k] == e;
                    assert(rest[k] == e);
                } else {
                    assert(rest[rest.len() - 1] == e);
                }
            }
        }
    }
}

/// Whether no two entries share an id or a hash.
spec fn all_distinct(clips: Seq<Entry>) -> bool {
    forall|i: int, j: int|
        0 <= i < j < clips.len() ==> (#[trigger] clips[i]).id != (#[trigger] clips[j]).id
            && clips[i].hash != clips[j].hash
}

proof fn lemma_without_distinct(clips: Seq<Entry>, id: u64)
    requires
        all_distinct(clips),
    ensures
        all_distinct(without(clips, id)),
    decreases clips.len(),
{
    reveal(Seq::filter);
    if clips.len() > 0 {
        let init = clips.drop_last();
        let last = clips.last();
        let before = without(init, id);
        let rest = without(clips, id);
        lemma_without_distinct(init, id);
        lemma_without_holds(init, id);
        assert forall|i: int, j: int| 0 <= i < j < rest.len() implies (#[trigger] rest[i]).id != (
        #[trigger] rest[j]).id && rest[i].hash != rest[j].hash by {
            if j == before.len() {
                assert(before.contains(rest[i]));
                let k = choose|k: int| 0 <= k < init.len() && init[k] == rest[i];
                assert(clips[k] == rest[i]);
                assert(rest[j] == clips[clips.len() - 1]);
            }
        }
    }
}

proof fn lemma_removed(s: State, id: u64)
    requires
        sound(s),
    ensures
        sound(s.removed(id)),
{
    reveal(sound);
    let r = s.removed(id);
    assert(r.clips == without(s.clips, id));
    lemma_without_holds(s.clips, id);
    lemma_without_distinct(s.clips, id);
    assert forall|i: int| 0 <= i < r.clips.len() implies entry_sound(#[trigger] r.clips[i])
        && r.clips[i].id < s.next_id by {
        assert(r.clips.contains(r.clips[i]));
        let k = choose|k: int| 0 <= k < s.clips.len() && s.clips[k] == r.clips[i];
        assert(entry_sound(s.clips[k]));
    }
    match s.selected {
        Some(selected) => {
            if selected == id {
                if r.clips.len() > 0 {
                    assert(r.clips[0].id == first_id(r.clips)->0);
                }
            } else {
                let i = choose|i: int| 0 <= i < s.clips.len() && s.clips[i].id == selected;
                assert(s.clips.contains(s.clips[i]));
                assert(r.clips.contains(s.clips[i]));
                let k = choose|k: int| 0 <= k < r.clips.len() && r.clips[k] == s.clips[i];
                assert(r.clips[k].id == selected);
            }
        },
        None => {
            if r.clips.len() > 0 {
                assert(r.clips.contains(r.clips[0]));
            }
        },
    }
}

/// Two states that agree on the history are both sound or neither is.
proof fn lemma_same_history(s: State, r: State)
    requires
        sound(s),
        r.clips == s.clips,
        r.selected == s.selected || (r.selected is Some && has_id(r.clips, r.selected->0)),
        r.next_id == s.next_id,
        r.poll_interval_ms == s.poll_interval_ms,
    ensures
        sound(r),
{
    reveal(sound);
}

proof fn lemma_copied(s: State)
    requires
        sound(s),
    ensures
        sound(s.copied()),
{
    lemma_position(s.ids(), s.selected->0);
    let pos = s.selected_place();
    if pos < s.clips.len() {
        let seen = State { last_clipboard_hash: Some(s.clips[pos].hash), ..s };
        lemma_same_history(s, seen);
        lemma_bumped(seen, pos);
        lemma_same_history(seen.bumped(pos), s.copied());
    }
}

proof fn lemma_settings_saved(s: State)
    requires
        sound(s),
    ensures
        sound(s.settings_saved()),
{
    let set = s.history_size_set();
    if let Some(n) = parsed_u32(trimmed(s.settings_draft_history_size)) {
        if n > 0 {
            let resized = State {
                settings: Settings { history_size: n, ..s.settings },
                ..s
            };
            lemma_same_history(s, resized);
            lemma_cut(resized);
        }
    }
    assert(sound(set));
    let polling = set.poll_interval_set();
    assert(sound(polling)) by {
        reveal(sound);
    }
    lemma_same_history(polling, s.settings_saved());
}

proof fn lemma_emptied(s: State)
    requires
        sound(s),
    ensures
        sound(s.emptied()),
{
    reveal(sound);
}

/// Every event that can come keeps the application sound: no two entries with
/// one content, every id given once, the selected entry in the list.
pub proof fn every_event_keeps_the_state_sound(s: State, event: Event)
    requires
        sound(s),
        possible(s, event),
    ensures
        sound(s.updated(event)),
{
    match event {
        Event::Remove(id) => lemma_removed(s, id),
        Event::CopySelected { clipboard_opened } => {
            if clipboard_opened {
                lemma_copied(s);
            }
        },
        Event::Tick { text, image, .. } => lemma_polled(s, text, image),
        Event::SettingsSave => lemma_settings_saved(s),
        Event::SettingsDeleteAll => lemma_emptied(s),
        _ => lemma_same_history(s, s.updated(event)),
    }
}

/// Whether there are no more entries than the history size.
pub open spec fn within_cap(s: State) -> bool {
    s.clips.len() <= s.settings.history_size
}

proof fn lemma_ingested_cap(s: State, data: ClipContent, hash: u64)
    requires
        within_cap(s),
    ensures
        within_cap(s.ingested(data, hash)),
{
    lemma_position(s.hashes(), hash);
}

/// The number of entries stays within the history size, whatever happens.
pub proof fn every_event_keeps_the_cap(s: State, event: Event)
    requires
        within_cap(s),
    ensures
        within_cap(s.updated(event)),
{
    match event {
        Event::Remove(id) => {
            s.clips.lemma_filter_len(|c: Entry| c.id != id);
        },
        Event::CopySelected { .. } => {
            lemma_position(s.ids(), s.selected->0);
        },
        Event::Tick { text, image, .. } => {
            if let Some(data) = found(text, image) {
                let hash = data_hash(data);
                lemma_ingested_cap(State { last_clipboard_hash: Some(hash), ..s }, data, hash);
            }
        },
        _ => {},
    }
}

/// A start with nothing stored is sound, whatever the settings are.
pub proof fn a_fresh_start_is_sound(storage: Option<Seq<Write>>, settings: Settings)
    ensures
        ({
            let s = State::started(storage, StoredState { clips: Seq::empty(), settings });
            &&& s.clips.len() == 0
            &&& sound(s)
            &&& within_cap(s)
        }),
{
    reveal(sound);
}

/// The state after a run of events.
pub open spec fn after(s: State, events: Seq<Event>) -> State
    decreases events.len(),
{
    if events.len() == 0 {
        s
    } else {
        after(s.updated(events[0]), events.drop_first())
    }
}

/// Whether each event of a run can come from the window.
pub open spec fn possible_run(s: State, events: Seq<Event>) -> bool
    decreases events.len(),
{
    events.len() == 0 || (possible(s, events[0]) && possible_run(
        s.updated(events[0]),
        events.drop_first(),
    ))
}

/// From a sound state no run of events leads to one that is not, nor beyond the
/// history size.
pub proof fn every_run_is_sound(s: State, events: Seq<Event>)
    requires
        sound(s),
        within_cap(s),
        possible_run(s, events),
    ensures
        sound(after(s, events)),
        within_cap(after(s, events)),
    decreases events.len(),
{
    if events.len() > 0 {
        every_event_keeps_the_state_sound(s, events[0]);
        every_event_keeps_the_cap(s, events[0]);
        every_run_is_sound(s.updated(events[0]), events.drop_first());
    }
}

/// A new entry brings the history down to its size, however long it was.
pub proof fn a_new_entry_enforces_the_cap(s: State, data: ClipContent, hash: u64)
    requires
        !s.hashes().contains(hash),
    ensures
        s.ingested(data, hash).clips.len() <= s.settings.history_size,
        s.ingested(data, hash).clips.len() == if s.clips.len() < s.settings.history_size {
            s.clips.len() + 1
        } else {
            s.settings.history_size as nat
        },
        s.settings.history_size > 0 ==> s.ingested(data, hash).clips[0] == (Entry {
            id: s.next_id,
            data,
            hash,
            preview: content_preview(data),
        }),
{
    lemma_position(s.hashes(), hash);
    let pos = position(s.hashes(), hash) as int;
    if pos < s.clips.len() {
        assert(s.hashes()[pos] == hash);
    }
}

/// A content that is in the history already is moved to the front: nothing is
/// added, nothing is lost, and the other entries keep their order.
pub proof fn a_repeated_content_moves_to_the_front(s: State, data: ClipContent, hash: u64)
    requires
        s.hashes().contains(hash),
    ensures
        ({
            let pos = position(s.hashes(), hash) as int;
            let r = s.ingested(data, hash);
            &&& 0 <= pos < s.clips.len()
            &&& s.clips[pos].hash == hash
            &&& r.clips == seq![s.clips[pos]] + s.clips.remove(pos)
            &&& r.clips.len() == s.clips.len()
            &&& r.clips.to_multiset() == s.clips.to_multiset()
            &&& r.next_id == s.next_id
            &&& r.selected == s.selected
        }),
{
    lemma_position(s.hashes(), hash);
    let pos = position(s.hashes(), hash) as int;
    let k = choose|k: int| 0 <= k < s.hashes().len() && s.hashes()[k] == hash;
    assert(s.hashes()[k] == hash);
    let r = s.ingested(data, hash);
    lemma_front_multiset(s.clips, pos);
}

proof fn lemma_front_multiset(clips: Seq<Entry>, pos: int)
    requires
        0 <= pos < clips.len(),
    ensures
        (seq![clips[pos]] + clips.remove(pos)).to_multiset() == clips.to_multiset(),
{
    broadcast use vstd::seq_lib::group_to_multiset_ensures;

    let e = clips[pos];
    let rest = clips.remove(pos);
    assert(rest.insert(pos, e) =~= clips);
    assert(rest.insert(0, e) =~= seq![e] + rest);
}

/// Looking at an unchanged clipboard again changes nothing.
pub proof fn an_unchanged_clipboard_is_left_alone(
    s: State,
    text: Option<Seq<char>>,
    image: Option<Picture>,
)
    ensures
        s.polled(text, image).polled(text, image) == s.polled(text, image),
{
    lemma_polled_seen(s, text, image);
}

/// An entry that is removed does not come back while its content is still on
/// the clipboard.
pub proof fn a_removed_entry_does_not_reappear(
    s: State,
    text: Option<Seq<char>>,
    image: Option<Picture>,
    id: u64,
)
    ensures
        !has_id(s.polled(text, image).removed(id).clips, id),
        s.polled(text, image).removed(id).polled(text, image) == s.polled(text, image).removed(id),
{
    lemma_polled_seen(s, text, image);
    let clips = s.polled(text, image).clips;
    let rest = s.polled(text, image).removed(id).clips;
    assert(rest == without(clips, id));
    lemma_without_holds(clips, id);
    if has_id(rest, id) {
        let i = choose|i: int| 0 <= i < rest.len() && rest[i].id == id;
        assert(rest.contains(rest[i]));
    }
}

proof fn lemma_polled_seen(s: State, text: Option<Seq<char>>, image: Option<Picture>)
    ensures
        found(text, image) matches Some(data) ==> s.polled(text, image).last_clipboard_hash == Some(
            data_hash(data),
        ),
{
}

/// What is on the clipboard after the entry `e` was put there.
pub open spec fn on_clipboard(e: Entry, text: Option<Seq<char>>, image: Option<Picture>) -> bool {
    match e.data {
        ClipContent::Text(t) => has_text(text) && text == Some(t),
        ClipContent::Image { rgba, .. } => {
            &&& !has_text(text)
            &&& image matches Some(p)
            &&& p.bytes == rgba
        },
    }
}

/// An entry that is copied moves to the front, and finding its content on the
/// clipboard afterwards changes nothing.
pub proof fn a_copied_entry_is_not_taken_up_again(
    s: State,
    text: Option<Seq<char>>,
    image: Option<Picture>,
)
    requires
        sound(s),
        s.selected is Some,
        on_clipboard(s.clips[s.selected_place()], text, image),
    ensures
        s.selected_place() < s.clips.len(),
        s.copied().clips[0] == s.clips[s.selected_place()],
        s.copied().clips[0].id == s.selected->0,
        s.copied().polled(text, image) == s.copied(),
{
    reveal(sound);
    let id = s.selected->0;
    lemma_position(s.ids(), id);
    let k = choose|k: int| 0 <= k < s.clips.len() && s.clips[k].id == id;
    assert(s.ids()[k] == id);
    let pos = s.selected_place();
    assert(s.ids()[pos] == id);
    assert(entry_sound(s.clips[pos]));
}

} // verus!
