use fuzzy_matcher::skim::SkimMatcherV2;
use vstd::prelude::*;
use vstd::slice::slice_to_vec;

use crate::capture::{fix_zero_alpha, hash_slice};
use crate::model::{
    content_preview, deletions, entry_of, has_id, has_text, haystack, id_after, image_label, image_term,
    position, saves, Entry, Event, KeyName, Picture, State, Task, POLL_INTERVAL_DEFAULT_MS,
    POLL_INTERVAL_MAX_MS, POLL_INTERVAL_MIN_MS,
};
use crate::search::{
    compared, fits_machine, fuzzy_score, is_ranking, match_fits, new_matcher, rank_matches,
    skim_score,
};
use crate::storage::{
    clip_record, order_record, settings_record, ClipContent, ClipData, LoadedState, PersistedClip,
    Settings, Storage, StoredClip, Write,
};
use crate::text::{decimal, parse_u32, preview_text, trim};

verus! {

/// An entry of the history.
#[derive(Debug)]
pub struct Clip {
    pub id: u64,
    pub data: ClipData,
    pub hash: u64,
    pub preview: String,
}

impl View for Clip {
    type V = Entry;

    open spec fn view(&self) -> Entry {
        Entry { id: self.id, data: self.data@, hash: self.hash, preview: self.preview@ }
    }
}

/// An image as it was found on the clipboard.
#[derive(Debug)]
pub struct ClipboardImage {
    pub width: usize,
    pub height: usize,
    pub bytes: Vec<u8>,
}

impl View for ClipboardImage {
    type V = Picture;

    open spec fn view(&self) -> Picture {
        Picture { width: self.width, height: self.height, bytes: self.bytes@ }
    }
}

/// A key that was pressed.
#[derive(Debug)]
pub enum Key {
    Character(String),
    Escape,
    Other,
}

impl View for Key {
    type V = KeyName;

    open spec fn view(&self) -> KeyName {
        match *self {
            Key::Character(c) => KeyName::Character(c@),
            Key::Escape => KeyName::Escape,
            Key::Other => KeyName::Other,
        }
    }
}

/// Something that happened.
#[derive(Debug)]
pub enum Message {
    /// An entry was chosen.
    Select(u64),
    /// An entry is to be removed.
    Remove(u64),
    /// The selected entry was to be put on the clipboard, and the clipboard
    /// could be opened for it or not.
    CopySelected { clipboard_opened: bool },
    /// The clipboard was looked at: its text or its image, as far as there is
    /// one, and whether another instance asked for the window meanwhile.
    Tick { text: Option<String>, image: Option<ClipboardImage>, focus_requested: bool },
    ToggleSettings,
    SettingsHistorySizeChanged(String),
    SettingsPollIntervalChanged(String),
    SettingsDiskToggled(bool),
    SettingsDeleteAll,
    SettingsSave,
    WindowOpened(u64),
    Key { key: Key, control: bool },
    SearchChanged(String),
}

/// The characters of a text that may be missing.
pub open spec fn text_view(text: Option<String>) -> Option<Seq<char>> {
    match text {
        Some(t) => Some(t@),
        None => None,
    }
}

/// The picture in an image that may be missing.
pub open spec fn image_view(image: Option<ClipboardImage>) -> Option<Picture> {
    match image {
        Some(i) => Some(i@),
        None => None,
    }
}

impl View for Message {
    type V = Event;

    open spec fn view(&self) -> Event {
        match *self {
            Message::Select(id) => Event::Select(id),
            Message::Remove(id) => Event::Remove(id),
            Message::CopySelected { clipboard_opened } => Event::CopySelected { clipboard_opened },
            Message::Tick { text, image, focus_requested } => Event::Tick {
                text: text_view(text),
                image: image_view(image),
                focus_requested,
            },
            Message::ToggleSettings => Event::ToggleSettings,
            Message::SettingsHistorySizeChanged(value) => Event::SettingsHistorySizeChanged(
                value@,
            ),
            Message::SettingsPollIntervalChanged(value) => Event::SettingsPollIntervalChanged(
                value@,
            ),
            Message::SettingsDiskToggled(enabled) => Event::SettingsDiskToggled(enabled),
            Message::SettingsDeleteAll => Event::SettingsDeleteAll,
            Message::SettingsSave => Event::SettingsSave,
            Message::WindowOpened(id) => Event::WindowOpened(id),
            Message::Key { key, control } => Event::Key { key: key@, control },
            Message::SearchChanged(query) => Event::SearchChanged(query@),
        }
    }
}

/// The application: the clipboard history and everything around it.
#[derive(Debug)]
pub struct Clipper {
    pub clips: Vec<Clip>,
    pub selected: Option<u64>,
    pub next_id: u64,
    pub last_clipboard_hash: Option<u64>,
    pub settings: Settings,
    pub poll_interval_ms: u32,
    pub storage: Option<Storage>,
    pub settings_open: bool,
    pub settings_draft_history_size: String,
    pub settings_draft_poll_interval_ms: String,
    pub search_active: bool,
    pub search_query: String,
    pub main_window: Option<u64>,
}

/// The entries of a list of clips.
pub open spec fn entries(clips: Seq<Clip>) -> Seq<Entry> {
    clips.map_values(|c: Clip| c@)
}

/// The writes that a store is still to commit.
pub open spec fn storage_view(storage: Option<Storage>) -> Option<Seq<Write>> {
    match storage {
        Some(s) => Some(s@),
        None => None,
    }
}

impl View for Clipper {
    type V = State;

    open spec fn view(&self) -> State {
        State {
            clips: entries(self.clips@),
            selected: self.selected,
            next_id: self.next_id,
            last_clipboard_hash: self.last_clipboard_hash,
            settings: self.settings,
            poll_interval_ms: self.poll_interval_ms,
            storage: storage_view(self.storage),
            settings_open: self.settings_open,
            settings_draft_history_size: self.settings_draft_history_size@,
            settings_draft_poll_interval_ms: self.settings_draft_poll_interval_ms@,
            search_active: self.search_active,
            search_query: self.search_query@,
            main_window: self.main_window,
        }
    }
}

/// `image · W×H`.
pub fn image_preview(width: u32, height: u32) -> (r: String)
    ensures
        r@ == image_label(width, height),
{
    let mut r: String = "image · ".to_owned();
    r.append(decimal(width as u64).as_str());
    r.append("×");
    r.append(decimal(height as u64).as_str());
    r
}

/// Whether an image is to be read from the clipboard, for the text that is there.
pub fn needs_image(text: &Option<String>) -> (r: bool)
    ensures
        r == !has_text(text_view(*text)),
{
    match text {
        Some(t) => t.as_str().is_empty(),
        None => true,
    }
}

fn image_haystack(width: u32, height: u32) -> (r: String)
    ensures
        r@ == image_term(width, height),
{
    let mut r: String = "image ".to_owned();
    r.append(decimal(width as u64).as_str());
    r.append("x");
    r.append(decimal(height as u64).as_str());
    r
}

fn preview_of(data: &ClipData) -> (r: String)
    ensures
        r@ == content_preview(data@),
{
    match data {
        ClipData::Text(t) => preview_text(t.as_str()),
        ClipData::Image { width, height, .. } => image_preview(*width, *height),
    }
}

proof fn lemma_position_at(s: Seq<u64>, x: u64, i: int)
    requires
        0 <= i <= s.len(),
        forall|j: int| 0 <= j < i ==> #[trigger] s[j] != x,
        i < s.len() ==> s[i] == x,
    ensures
        position(s, x) == i,
    decreases i,
{
    if i > 0 {
        let rest = s.drop_first();
        assert(s[0] != x);
        assert forall|j: int| 0 <= j < i - 1 implies #[trigger] rest[j] != x by {
            assert(s[j + 1] != x);
        }
        lemma_position_at(rest, x, i - 1);
    }
}

impl Clipper {
    /// The application at start. `storage` is the store, where it could be
    /// opened, and `loaded` what was read from it.
    pub fn new(storage: Option<Storage>, loaded: LoadedState) -> (r: Self)
        requires
            forall|i: int| 0 <= i < loaded.clips@.len() ==> (#[trigger] loaded.clips@[i]).id < u64::MAX,
        ensures
            r@ == State::started(storage_view(storage), loaded@),
    {
        let settings: Settings = loaded.settings;
        let ghost stored = loaded@.clips;
        let ghost given = loaded.clips@;
        let mut next_id: u64 = 0;
        let mut clips: Vec<Clip> = Vec::new();
        assert(stored.take(0) =~= Seq::<StoredClip>::empty());
        for pc in it: loaded.clips
            invariant
                it.seq() == given,
                stored == given.map_values(|c: PersistedClip| c@),
                forall|i: int| 0 <= i < given.len() ==> (#[trigger] given[i]).id < u64::MAX,
                next_id == id_after(stored.take(it.index() as int)),
                clips@.len() == it.index(),
                forall|i: int|
                    0 <= i < clips@.len() ==> (#[trigger] clips@[i])@ == entry_of(stored[i]),
        {
            proof {
                let k = it.index() as int;
                assert(stored.take(k + 1).drop_last() =~= stored.take(k));
                assert(stored.take(k + 1).last() == stored[k]);
                assert(given[k].id < u64::MAX);
            }
            if pc.id >= next_id {
                next_id = pc.id + 1;
            }
            let preview: String = preview_of(&pc.data);
            clips.push(Clip { id: pc.id, data: pc.data, hash: pc.hash, preview });
        }
        proof {
            assert(stored.take(stored.len() as int) =~= stored);
            assert(entries(clips@) =~= stored.map_values(|c: StoredClip| entry_of(c)));
        }
        let selected: Option<u64> = if clips.len() > 0 {
            Some(clips[0].id)
        } else {
            None
        };
        Clipper {
            clips,
            selected,
            next_id,
            last_clipboard_hash: None,
            settings,
            poll_interval_ms: POLL_INTERVAL_DEFAULT_MS,
            storage,
            settings_open: false,
            settings_draft_history_size: decimal(settings.history_size as u64),
            settings_draft_poll_interval_ms: decimal(POLL_INTERVAL_DEFAULT_MS as u64),
            search_active: false,
            search_query: String::new(),
            main_window: None,
        }
    }

    /// The store, where changes of the history go there.
    fn storage_if_enabled(&mut self) -> (r: Option<&mut Storage>)
        ensures
            match r {
                Some(s) => {
                    &&& old(self).settings.storage_enabled
                    &&& old(self).storage == Some(*s)
                    &&& *final(self) == (Clipper { storage: Some(*final(s)), ..*old(self) })
                },
                None => !old(self)@.stores() && *final(self) == *old(self),
            },
    {
        if self.settings.storage_enabled {
            self.storage.as_mut()
        } else {
            None
        }
    }

    /// The ids of the entries, in their order.
    pub fn order_vec(&self) -> (r: Vec<u64>)
        ensures
            r@ == self@.ids(),
    {
        let mut out: Vec<u64> = Vec::new();
        for i in 0..self.clips.len()
            invariant
                out@.len() == i,
                forall|j: int| 0 <= j < i ==> #[trigger] out@[j] == self.clips@[j].id,
        {
            out.push(self.clips[i].id);
        }
        assert(out@ =~= self@.ids());
        out
    }

    fn store_order(&mut self)
        ensures
            final(self)@ == old(self)@.order_stored(),
    {
        let order: Vec<u64> = self.order_vec();
        if let Some(s) = self.storage_if_enabled() {
            s.save_order(order.as_slice());
        }
        proof {
            if old(self)@.stores() {
                let pending = old(self).storage->0@;
                assert(pending.push(old(self)@.order_write()) =~= pending + seq![
                    old(self)@.order_write(),
                ]);
            }
        }
    }

    /// Moves the entry at `pos` to the front.
    pub fn bump_to_top(&mut self, pos: usize)
        requires
            pos < old(self).clips@.len(),
        ensures
            final(self)@ == old(self)@.bumped(pos as int),
    {
        if pos != 0 {
            let clip: Clip = self.clips.remove(pos);
            self.clips.insert(0, clip);
        }
        assert(self@.clips =~= old(self)@.bumped(pos as int).clips);
    }

    /// The id of a new entry.
    pub fn alloc_id(&mut self) -> (id: u64)
        requires
            old(self).next_id < u64::MAX,
        ensures
            id == old(self).next_id,
            *final(self) == (Clipper { next_id: (id + 1) as u64, ..*old(self) }),
    {
        let id: u64 = self.next_id;
        self.next_id = self.next_id + 1;
        id
    }

    /// Drops the oldest entries beyond the history size.
    pub fn trim(&mut self)
        ensures
            final(self)@ == old(self)@.cut_to_size(),
    {
        let max: u64 = self.settings.history_size as u64;
        let ghost start = self@;
        let ghost all = start.clips;
        proof {
            let len = all.len() as int;
            assert(all.take(len) =~= all);
            assert(all.skip(len) =~= Seq::<Entry>::empty());
            assert(deletions(all.skip(len)) =~= Seq::<Write>::empty());
            if start.stores() {
                assert(start.storage->0 + deletions(all.skip(len)) =~= start.storage->0);
            }
            assert(start.cut_to(len) =~= start);
        }
        while self.clips.len() as u64 > max
            invariant
                max == start.settings.history_size,
                all == start.clips,
                self.clips@.len() <= all.len(),
                all.len() > max ==> self.clips@.len() >= max,
                all.len() <= max ==> self.clips@.len() == all.len(),
                self@ == start.cut_to(self.clips@.len() as int),
            decreases self.clips@.len(),
        {
            let ghost n = self.clips@.len() as int;
            let ghost gone = all.skip(n);
            let ghost next_gone = all.skip(n - 1);
            let ghost before = self@;
            if let Some(clip) = self.clips.pop() {
                let id: u64 = clip.id;
                proof {
                    assert(clip@ == before.clips[n - 1]);
                    assert(clip@ == all[n - 1]);
                    assert(entries(self.clips@) =~= all.take(n - 1));
                    assert(next_gone =~= seq![all[n - 1]] + gone);
                    assert(next_gone[0].id == id);
                    assert forall|x: u64| has_id(next_gone, x) <==> has_id(gone, x) || x == id by {
                        if has_id(gone, x) {
                            let i = choose|i: int| 0 <= i < gone.len() && gone[i].id == x;
                            assert(next_gone[i + 1].id == x);
                        }
                        if has_id(next_gone, x) && x != id {
                            let i = choose|i: int| 0 <= i < next_gone.len() && next_gone[i].id == x;
                            assert(gone[i - 1].id == x);
                        }
                    }
                    assert(deletions(next_gone) =~= deletions(gone).push(
                        Write::DeleteClip { id },
                    ));
                }
                if self.selected == Some(id) {
                    self.selected = if self.clips.len() > 0 {
                        Some(self.clips[0].id)
                    } else {
                        None
                    };
                }
                if let Some(s) = self.storage_if_enabled() {
                    s.delete_clip(id);
                }
                proof {
                    if start.stores() {
                        let pending = start.storage->0;
                        assert((pending + deletions(gone)).push(Write::DeleteClip { id }) =~= pending
                            + deletions(next_gone));
                    }
                    assert(self@ =~= start.cut_to(n - 1));
                }
            }
        }
    }

    /// The place of the first entry with the hash `hash`.
    fn find_hash(&self, hash: u64) -> (r: Option<usize>)
        ensures
            match r {
                Some(pos) => pos < self.clips@.len() && pos == position(self@.hashes(), hash),
                None => position(self@.hashes(), hash) == self.clips@.len(),
            },
    {
        for i in 0..self.clips.len()
            invariant
                forall|j: int| 0 <= j < i ==> #[trigger] self@.hashes()[j] != hash,
        {
            if self.clips[i].hash == hash {
                proof {
                    lemma_position_at(self@.hashes(), hash, i as int);
                }
                return Some(i);
            }
        }
        proof {
            lemma_position_at(self@.hashes(), hash, self.clips@.len() as int);
        }
        None
    }

    /// The place of the first entry with the id `id`.
    fn find_id(&self, id: u64) -> (r: Option<usize>)
        ensures
            match r {
                Some(pos) => pos < self.clips@.len() && pos == position(self@.ids(), id),
                None => position(self@.ids(), id) == self.clips@.len(),
            },
    {
        for i in 0..self.clips.len()
            invariant
                forall|j: int| 0 <= j < i ==> #[trigger] self@.ids()[j] != id,
        {
            if self.clips[i].id == id {
                proof {
                    lemma_position_at(self@.ids(), id, i as int);
                }
                return Some(i);
            }
        }
        proof {
            lemma_position_at(self@.ids(), id, self.clips@.len() as int);
        }
        None
    }

    /// Brings a content that is on the clipboard to the front of the history.
    fn ingest(&mut self, data: ClipData, hash: u64)
        requires
            old(self)@.can_ingest(hash),
        ensures
            final(self)@ == old(self)@.ingested(data@, hash),
    {
        if let Some(pos) = self.find_hash(hash) {
            self.bump_to_top(pos);
            self.store_order();
            return;
        }
        let preview: String = preview_of(&data);
        let id: u64 = self.alloc_id();
        if let Some(s) = self.storage_if_enabled() {
            s.save_clip(id, hash, &data);
        }
        let ghost entry = Entry { id, data: data@, hash, preview: preview@ };
        self.clips.insert(0, Clip { id, data, hash, preview });
        if self.selected.is_none() {
            self.selected = Some(id);
        }
        proof {
            assert(entries(self.clips@) =~= seq![entry] + old(self)@.clips);
            if old(self)@.stores() {
                let pending = old(self)@.storage->0;
                let w = Write::SaveClip { id, record: clip_record(hash, data@) };
                assert(pending.push(w) =~= pending + seq![w]);
            }
        }
        self.trim();
        self.store_order();
    }

    /// Brings a text that is on the clipboard to the front of the history.
    pub fn ingest_text(&mut self, txt: String, hash: u64)
        requires
            old(self)@.can_ingest(hash),
        ensures
            final(self)@ == old(self)@.ingested(ClipContent::Text(txt@), hash),
    {
        self.ingest(ClipData::Text(txt), hash);
    }

    /// Brings an image that is on the clipboard to the front of the history.
    pub fn ingest_image(&mut self, width: u32, height: u32, bytes: Vec<u8>, hash: u64)
        requires
            old(self)@.can_ingest(hash),
        ensures
            final(self)@ == old(self)@.ingested(
                ClipContent::Image { width, height, rgba: bytes@ },
                hash,
            ),
    {
        self.ingest(ClipData::Image { width, height, rgba: bytes }, hash);
    }

    /// Takes up what was found on the clipboard, unless it was there the last
    /// time.
    pub fn poll_clipboard(&mut self, text: Option<String>, image: Option<ClipboardImage>)
        requires
            old(self)@.can_poll(text_view(text), image_view(image)),
        ensures
            final(self)@ == old(self)@.polled(text_view(text), image_view(image)),
    {
        if let Some(txt) = text {
            if !txt.as_str().is_empty() {
                let hash: u64 = hash_slice(txt.as_str().as_bytes());
                if self.last_clipboard_hash != Some(hash) {
                    self.last_clipboard_hash = Some(hash);
                    self.ingest_text(txt, hash);
                }
                return;
            }
        }
        if let Some(img) = image {
            let mut bytes: Vec<u8> = img.bytes;
            fix_zero_alpha(bytes.as_mut_slice());
            let hash: u64 = hash_slice(bytes.as_slice());
            if self.last_clipboard_hash != Some(hash) {
                self.last_clipboard_hash = Some(hash);
                let width: u32 = (img.width as u64 % 0x1_0000_0000u64) as u32;
                let height: u32 = (img.height as u64 % 0x1_0000_0000u64) as u32;
                self.ingest_image(width, height, bytes, hash);
            }
        }
    }

    /// Removes the entries with the id `id`.
    pub fn remove_clip(&mut self, id: u64)
        ensures
            final(self)@ == old(self)@.removed(id),
    {
        let ghost all = self@.clips;
        let ghost keep = |c: Entry| c.id != id;
        let mut i: usize = 0;
        let ghost mut seen: int = 0;
        proof {
            assert(all.take(0) =~= Seq::<Entry>::empty());
            reveal(Seq::filter);
            assert(all.skip(0) =~= all);
        }
        while i < self.clips.len()
            invariant
                keep == (|c: Entry| c.id != id),
                0 <= seen <= all.len(),
                i <= self.clips@.len(),
                self.clips@.len() - i == all.len() - seen,
                entries(self.clips@).take(i as int) == all.take(seen).filter(keep),
                entries(self.clips@).skip(i as int) == all.skip(seen),
                self@ == (State { clips: entries(self.clips@), ..old(self)@ }),
            decreases self.clips@.len() - i,
        {
            let ghost now = entries(self.clips@);
            proof {
                reveal(Seq::filter);
                assert(all.take(seen + 1).drop_last() =~= all.take(seen));
                assert(all.take(seen + 1).last() == all[seen]);
                assert(all.skip(seen)[0] == all[seen]);
                assert(now.skip(i as int)[0] == now[i as int]);
            }
            if self.clips[i].id == id {
                self.clips.remove(i);
                proof {
                    assert(entries(self.clips@) =~= now.remove(i as int));
                    assert(entries(self.clips@).take(i as int) =~= now.take(i as int));
                    assert(entries(self.clips@).skip(i as int) =~= now.skip(i as int).skip(1));
                    assert(all.skip(seen).skip(1) =~= all.skip(seen + 1));
                }
            } else {
                proof {
                    assert(now.take(i + 1) =~= now.take(i as int).push(now[i as int]));
                    assert(now.skip(i + 1) =~= now.skip(i as int).skip(1));
                    assert(all.skip(seen).skip(1) =~= all.skip(seen + 1));
                }
                i = i + 1;
            }
            proof {
                seen = seen + 1;
            }
        }
        proof {
            assert(all.take(all.len() as int) =~= all);
            assert(entries(self.clips@).take(self.clips@.len() as int) =~= entries(self.clips@));
        }
        if self.selected == Some(id) {
            self.selected = if self.clips.len() > 0 {
                Some(self.clips[0].id)
            } else {
                None
            };
        }
        let order: Vec<u64> = self.order_vec();
        let ghost rest = self@;
        if let Some(s) = self.storage_if_enabled() {
            s.delete_clip(id);
            s.save_order(order.as_slice());
        }
        proof {
            if rest.stores() {
                let pending = rest.storage->0;
                let w = Write::DeleteClip { id };
                assert(pending.push(w).push(rest.order_write()) =~= pending + seq![
                    w,
                    rest.order_write(),
                ]);
            }
        }
    }

    /// The selected entry.
    pub fn selected_clip(&self) -> (r: Option<&Clip>)
        ensures
            match r {
                Some(clip) => self@.selected_place() < self@.clips.len() && clip@
                    == self@.clips[self@.selected_place()],
                None => self@.selected_place() >= self@.clips.len(),
            },
    {
        match self.selected {
            Some(id) => match self.find_id(id) {
                Some(pos) => Some(&self.clips[pos]),
                None => None,
            },
            None => None,
        }
    }

    /// What is to be put on the clipboard when the selected entry is copied.
    pub fn copy_content(&self) -> (r: Option<&ClipData>)
        ensures
            match r {
                Some(data) => self@.selected_place() < self@.clips.len() && data@
                    == self@.clips[self@.selected_place()].data,
                None => self@.selected_place() >= self@.clips.len(),
            },
    {
        match self.selected_clip() {
            Some(clip) => Some(&clip.data),
            None => None,
        }
    }

    /// Notes that the selected entry was put on the clipboard; without a
    /// clipboard that could be opened nothing happens.
    pub fn copy_selected(&mut self, clipboard_opened: bool)
        ensures
            final(self)@ == (if clipboard_opened {
                old(self)@.copied()
            } else {
                old(self)@
            }),
    {
        let sel_id: u64 = match self.selected {
            Some(id) => id,
            None => return,
        };
        let pos: usize = match self.find_id(sel_id) {
            Some(pos) => pos,
            None => return,
        };
        if !clipboard_opened {
            return;
        }
        self.last_clipboard_hash = Some(self.clips[pos].hash);
        self.bump_to_top(pos);
        self.store_order();
    }

    /// Puts the search away.
    pub fn close_search(&mut self)
        ensures
            final(self)@ == old(self)@.search_closed(),
    {
        self.search_active = false;
        self.search_query = String::new();
    }

    /// Opens the search, or puts it away.
    pub fn toggle_search(&mut self) -> (r: Task)
        ensures
            final(self)@ == old(self)@.search_toggled(),
            r == (if old(self).search_active {
                Task::Nothing
            } else {
                Task::FocusSearch
            }),
    {
        if self.search_active {
            self.close_search();
            Task::Nothing
        } else {
            self.search_active = true;
            Task::FocusSearch
        }
    }

    /// Stores the settings, and the order where the history is stored.
    pub fn persist_settings_and_order(&mut self)
        ensures
            final(self)@ == old(self)@.settings_stored(),
    {
        self.store_settings();
        self.store_order();
    }

    fn store_settings(&mut self)
        ensures
            final(self)@ == old(self)@.writing(
                seq![
                    Write::SaveSettings { record: settings_record(old(self).settings) },
                ],
            ),
    {
        let settings: Settings = self.settings;
        if let Some(s) = self.storage.as_mut() {
            s.save_settings(&settings);
        }
        proof {
            if let Some(pending) = old(self)@.storage {
                let w = Write::SaveSettings { record: settings_record(settings) };
                assert(pending.push(w) =~= pending + seq![w]);
            }
        }
    }

    /// Stores every entry and the order.
    pub fn flush_all_to_disk(&mut self)
        ensures
            final(self)@ == old(self)@.flushed(),
    {
        let order: Vec<u64> = self.order_vec();
        let ghost writes = saves(self@.clips);
        if let Some(s) = self.storage.as_mut() {
            let ghost pending = s@;
            assert(pending + writes.take(0) =~= pending);
            for i in 0..self.clips.len()
                invariant
                    writes == saves(entries(self.clips@)),
                    s@ == pending + writes.take(i as int),
            {
                let ghost before = s@;
                s.save_clip(self.clips[i].id, self.clips[i].hash, &self.clips[i].data);
                assert(writes.take(i + 1) =~= writes.take(i as int).push(writes[i as int]));
                assert(s@ =~= pending + writes.take(i + 1));
            }
            assert(writes.take(self.clips@.len() as int) =~= writes);
            s.save_order(order.as_slice());
            assert(s@ =~= pending + writes.push(old(self)@.order_write()));
        }
    }

    /// Takes over the drafts of the settings, as far as they are numbers.
    fn save_settings(&mut self)
        ensures
            final(self)@ == old(self)@.settings_saved(),
    {
        if let Some(n) = parse_u32(trim(self.settings_draft_history_size.as_str())) {
            if n > 0 {
                self.settings.history_size = n;
                self.trim();
            }
        }
        assert(self@ == old(self)@.history_size_set());
        if let Some(n) = parse_u32(trim(self.settings_draft_poll_interval_ms.as_str())) {
            self.poll_interval_ms = if n < POLL_INTERVAL_MIN_MS {
                POLL_INTERVAL_MIN_MS
            } else if n > POLL_INTERVAL_MAX_MS {
                POLL_INTERVAL_MAX_MS
            } else {
                n
            };
        }
        self.persist_settings_and_order();
        self.settings_open = false;
    }

    fn press_key(&mut self, key: Key, control: bool) -> (r: Task)
        ensures
            final(self)@ == old(self)@.key_pressed(key@, control),
            r == old(self)@.task(Event::Key { key: key@, control }),
    {
        match key {
            Key::Character(c) => {
                let c: &str = c.as_str();
                if control && c.unicode_len() == 1 && (c.get_char(0) == 'f' || c.get_char(0)
                    == 'F') {
                    return self.toggle_search();
                }
            },
            Key::Escape => {
                if self.search_active {
                    self.close_search();
                }
            },
            Key::Other => {},
        }
        Task::Nothing
    }

    /// Does what a message asks for, and says what the window is to do.
    pub fn update(&mut self, message: Message) -> (r: Task)
        requires
            old(self)@.can_update(message@),
        ensures
            final(self)@ == old(self)@.updated(message@),
            r == old(self)@.task(message@),
    {
        match message {
            Message::Select(id) => {
                let changed: bool = self.selected != Some(id);
                self.selected = Some(id);
                if changed {
                    return Task::ScrollToTop;
                }
            },
            Message::Remove(id) => {
                self.remove_clip(id);
            },
            Message::CopySelected { clipboard_opened } => {
                self.copy_selected(clipboard_opened);
            },
            Message::Tick { text, image, focus_requested } => {
                self.poll_clipboard(text, image);
                if let Some(id) = self.main_window {
                    if focus_requested {
                        return Task::FocusWindow(id);
                    }
                }
            },
            Message::ToggleSettings => {
                self.settings_open = !self.settings_open;
                if self.settings_open {
                    self.settings_draft_history_size = decimal(self.settings.history_size as u64);
                    self.settings_draft_poll_interval_ms = decimal(self.poll_interval_ms as u64);
                }
            },
            Message::SettingsHistorySizeChanged(value) => {
                self.settings_draft_history_size = value;
            },
            Message::SettingsPollIntervalChanged(value) => {
                self.settings_draft_poll_interval_ms = value;
            },
            Message::SettingsDiskToggled(enabled) => {
                let was_enabled: bool = self.settings.storage_enabled;
                self.settings.storage_enabled = enabled;
                self.store_settings();
                if enabled && !was_enabled {
                    self.flush_all_to_disk();
                }
            },
            Message::SettingsDeleteAll => {
                self.clips.clear();
                self.selected = None;
                self.last_clipboard_hash = None;
                if let Some(s) = self.storage.as_mut() {
                    s.delete_all_clips();
                }
                proof {
                    assert(self@.clips =~= Seq::<Entry>::empty());
                    if let Some(pending) = old(self)@.storage {
                        let w = Write::DeleteAllClips { order: order_record(Seq::empty()) };
                        assert(pending.push(w) =~= pending + seq![w]);
                    }
                }
            },
            Message::SettingsSave => {
                self.save_settings();
            },
            Message::WindowOpened(id) => {
                if self.main_window.is_none() {
                    self.main_window = Some(id);
                }
            },
            Message::Key { key, control } => {
                return self.press_key(key, control);
            },
            Message::SearchChanged(query) => {
                self.search_query = query;
            },
        }
        Task::Nothing
    }

    /// Whether what was found on the clipboard is known, or there is an id left
    /// for it.
    fn can_take_up(&self, text: &Option<String>, image: &Option<ClipboardImage>) -> (r: bool)
        ensures
            r == self@.can_poll(text_view(*text), image_view(*image)),
    {
        if self.next_id < u64::MAX {
            return true;
        }
        if let Some(txt) = text {
            if !txt.as_str().is_empty() {
                return self.is_known(hash_slice(txt.as_str().as_bytes()));
            }
        }
        match image {
            Some(img) => {
                let mut bytes: Vec<u8> = slice_to_vec(img.bytes.as_slice());
                fix_zero_alpha(bytes.as_mut_slice());
                self.is_known(hash_slice(bytes.as_slice()))
            },
            None => true,
        }
    }

    fn is_known(&self, hash: u64) -> (r: bool)
        ensures
            r == (self.last_clipboard_hash == Some(hash) || position(self@.hashes(), hash)
                < self@.clips.len()),
    {
        self.last_clipboard_hash == Some(hash) || self.find_hash(hash).is_some()
    }

    /// Does what a message asks for, unless it would take an id and none is
    /// left; nothing happens then.
    pub fn try_update(&mut self, message: Message) -> (r: Option<Task>)
        ensures
            match r {
                Some(task) => {
                    &&& old(self)@.can_update(message@)
                    &&& final(self)@ == old(self)@.updated(message@)
                    &&& task == old(self)@.task(message@)
                },
                None => !old(self)@.can_update(message@) && *final(self) == *old(self),
            },
    {
        if let Message::Tick { text, image, .. } = &message {
            if !self.can_take_up(text, image) {
                return None;
            }
        }
        Some(self.update(message))
    }

    fn score(&self, matcher: &mut SkimMatcherV2, i: usize, pattern: &str) -> (r: Option<i64>)
        requires
            i < self.clips@.len(),
            match_fits(haystack(self@.clips[i as int].data), pattern@),
        ensures
            r == skim_score(
                compared(*old(matcher)),
                haystack(self@.clips[i as int].data),
                pattern@,
            ),
            compared(*final(matcher)) == compared(*old(matcher)).push(
                (haystack(self@.clips[i as int].data), pattern@),
            ),
    {
        match &self.clips[i].data {
            ClipData::Text(t) => fuzzy_score(matcher, t.as_str(), pattern),
            ClipData::Image { width, height, .. } => fuzzy_score(
                matcher,
                image_haystack(*width, *height).as_str(),
                pattern,
            ),
        }
    }

    /// Whether the matches of the search fit the machine.
    pub fn can_search(&self) -> (r: bool)
        ensures
            r == self@.search_fits(),
    {
        let q: &str = trim(self.search_query.as_str());
        if !self.search_active || q.is_empty() {
            return true;
        }
        for i in 0..self.clips.len()
            invariant
                self@.searching(),
                q@ == self@.pattern(),
                forall|k: int|
                    0 <= k < i ==> match_fits(
                        haystack((#[trigger] self@.clips[k]).data),
                        self@.pattern(),
                    ),
        {
            let fits: bool = match &self.clips[i].data {
                ClipData::Text(t) => fits_machine(t.as_str(), q),
                ClipData::Image { width, height, .. } => fits_machine(
                    image_haystack(*width, *height).as_str(),
                    q,
                ),
            };
            assert(fits == match_fits(haystack(self@.clips[i as int].data), self@.pattern()));
            if !fits {
                return false;
            }
        }
        true
    }

    /// The entries that the list shows: in a search the matches from the best
    /// one down, else all of them as they are.
    pub fn filtered_clips(&self) -> (r: Vec<&Clip>)
        requires
            self@.search_fits(),
        ensures
            exists|places: Seq<usize>| #[trigger]
                self@.lists(places) && r@.len() == places.len() && forall|k: int|
                    0 <= k < places.len() ==> *#[trigger] r@[k] == self.clips@[places[k] as int],
    {
        let q: &str = trim(self.search_query.as_str());
        let mut r: Vec<&Clip> = Vec::new();
        if !self.search_active || q.is_empty() {
            for i in 0..self.clips.len()
                invariant
                    r@.len() == i,
                    forall|k: int| 0 <= k < i ==> *#[trigger] r@[k] == self.clips@[k],
            {
                r.push(&self.clips[i]);
            }
            proof {
                let places = Seq::new(self.clips@.len(), |i: int| i as usize);
                assert(self@.lists(places));
            }
            return r;
        }
        let mut matcher: SkimMatcherV2 = new_matcher();
        let mut scores: Vec<Option<i64>> = Vec::new();
        assert(compared(matcher) =~= self@.compared_before(0));
        for i in 0..self.clips.len()
            invariant
                self@.searching(),
                self@.search_fits(),
                q@ == self@.pattern(),
                compared(matcher) == self@.compared_before(i as int),
                scores@.len() == i,
                forall|k: int| 0 <= k < i ==> #[trigger] scores@[k] == self@.scores()[k],
        {
            scores.push(self.score(&mut matcher, i, q));
            assert(compared(matcher) =~= self@.compared_before(i + 1));
        }
        assert(scores@ =~= self@.scores());
        let places: Vec<usize> = rank_matches(&scores);
        assert(self@.lists(places@));
        for k in 0..places.len()
            invariant
                scores@.len() == self.clips@.len(),
                is_ranking(scores@, places@),
                r@.len() == k,
                forall|j: int| 0 <= j < k ==> *#[trigger] r@[j] == self.clips@[places@[j] as int],
        {
            assert(places@[k as int] < scores@.len());
            r.push(&self.clips[places[k]]);
        }
        r
    }
}

} // verus!
