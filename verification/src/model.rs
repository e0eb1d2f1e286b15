use vstd::prelude::*;
use vstd::utf8::encode_utf8;

use crate::capture::{content_hash, visible};
use crate::search::{is_ranking, match_fits, skim_score};
use crate::storage::{
    clip_record, order_record, settings_record, ClipContent, Settings, StoredClip, StoredState,
    Write,
};
use crate::text::{decimal_digits, parsed_u32, text_preview, trimmed};

verus! {

/// The shortest time between two looks at the clipboard, in milliseconds.
pub const POLL_INTERVAL_MIN_MS: u32 = 100;

/// The longest time between two looks at the clipboard, in milliseconds.
pub const POLL_INTERVAL_MAX_MS: u32 = 10_000;

/// The time between two looks at the clipboard until the user sets another.
pub const POLL_INTERVAL_DEFAULT_MS: u32 = 500;

/// An entry of the history.
#[verifier::ext_equal]
pub struct Entry {
    pub id: u64,
    pub data: ClipContent,
    pub hash: u64,
    pub preview: Seq<char>,
}

/// What the application remembers.
#[verifier::ext_equal]
pub struct State {
    /// The history, the most recent entry first.
    pub clips: Seq<Entry>,
    /// The id of the entry that is shown in full.
    pub selected: Option<u64>,
    /// The id of the next new entry.
    pub next_id: u64,
    /// The hash of what was last seen on the clipboard.
    pub last_clipboard_hash: Option<u64>,
    pub settings: Settings,
    pub poll_interval_ms: u32,
    /// The writes that the store is still to commit, where there is a store.
    pub storage: Option<Seq<Write>>,
    pub settings_open: bool,
    pub settings_draft_history_size: Seq<char>,
    pub settings_draft_poll_interval_ms: Seq<char>,
    pub search_active: bool,
    pub search_query: Seq<char>,
    pub main_window: Option<u64>,
}

/// An image as it was found on the clipboard.
#[verifier::ext_equal]
pub struct Picture {
    pub width: usize,
    pub height: usize,
    pub bytes: Seq<u8>,
}

/// A key that was pressed.
pub enum KeyName {
    Character(Seq<char>),
    Escape,
    Other,
}

/// Something that happened.
pub enum Event {
    Select(u64),
    Remove(u64),
    CopySelected { clipboard_opened: bool },
    Tick { text: Option<Seq<char>>, image: Option<Picture>, focus_requested: bool },
    ToggleSettings,
    SettingsHistorySizeChanged(Seq<char>),
    SettingsPollIntervalChanged(Seq<char>),
    SettingsDiskToggled(bool),
    SettingsDeleteAll,
    SettingsSave,
    WindowOpened(u64),
    Key { key: KeyName, control: bool },
    SearchChanged(Seq<char>),
}

/// What the window is asked to do after an event.
#[derive(Debug, Clone, Copy, PartialEq, Eq, Structural)]
pub enum Task {
    Nothing,
    /// Scroll the content back to its start.
    ScrollToTop,
    /// Put the cursor in the search field.
    FocusSearch,
    /// Restore the window and bring it to the front.
    FocusWindow(u64),
}

/// The first place of `x` in `s`, and the length of `s` where there is none.
pub open spec fn position(s: Seq<u64>, x: u64) -> nat
    decreases s.len(),
{
    if s.len() == 0 || s[0] == x {
        0
    } else {
        1 + position(s.drop_first(), x)
    }
}

/// `image · W×H`.
pub open spec fn image_label(width: u32, height: u32) -> Seq<char> {
    "image · "@ + decimal_digits(width as nat) + "×"@ + decimal_digits(height as nat)
}

/// What a history row shows of an entry with the content `data`.
pub open spec fn content_preview(data: ClipContent) -> Seq<char> {
    match data {
        ClipContent::Text(t) => text_preview(t),
        ClipContent::Image { width, height, .. } => image_label(width, height),
    }
}

/// `image WxH`.
pub open spec fn image_term(width: u32, height: u32) -> Seq<char> {
    "image "@ + decimal_digits(width as nat) + "x"@ + decimal_digits(height as nat)
}

/// What a search looks at in an entry with the content `data`.
pub open spec fn haystack(data: ClipContent) -> Seq<char> {
    match data {
        ClipContent::Text(t) => t,
        ClipContent::Image { width, height, .. } => image_term(width, height),
    }
}

/// The entry of a stored clip.
pub open spec fn entry_of(clip: StoredClip) -> Entry {
    Entry { id: clip.id, data: clip.data, hash: clip.hash, preview: content_preview(clip.data) }
}

/// The stored form of an entry.
pub open spec fn stored_of(entry: Entry) -> StoredClip {
    StoredClip { id: entry.id, hash: entry.hash, data: entry.data }
}

/// The id of the first entry.
pub open spec fn first_id(clips: Seq<Entry>) -> Option<u64> {
    if clips.len() == 0 {
        None
    } else {
        Some(clips[0].id)
    }
}

/// Whether one of `clips` has the id `id`.
pub open spec fn has_id(clips: Seq<Entry>, id: u64) -> bool {
    exists|i: int| 0 <= i < clips.len() && (#[trigger] clips[i]).id == id
}

/// One more than the greatest id; zero where there are no clips.
pub open spec fn id_after(clips: Seq<StoredClip>) -> int
    decreases clips.len(),
{
    if clips.len() == 0 {
        0
    } else if clips.last().id >= id_after(clips.drop_last()) {
        clips.last().id + 1
    } else {
        id_after(clips.drop_last())
    }
}

/// The lowest 32 bits of a side of an image.
pub open spec fn side(n: usize) -> u32 {
    (n as int % 0x1_0000_0000) as u32
}

/// The hash of the content `data`.
pub open spec fn data_hash(data: ClipContent) -> u64 {
    match data {
        ClipContent::Text(t) => content_hash(encode_utf8(t)),
        ClipContent::Image { rgba, .. } => content_hash(rgba),
    }
}

/// Whether there is a text on the clipboard; an empty one is none.
pub open spec fn has_text(text: Option<Seq<char>>) -> bool {
    text matches Some(t) && t.len() > 0
}

/// What a look at the clipboard finds there: a text, or an image where there is
/// no text.
pub open spec fn found(text: Option<Seq<char>>, image: Option<Picture>) -> Option<ClipContent> {
    if has_text(text) {
        Some(ClipContent::Text(text->0))
    } else {
        match image {
            Some(p) => Some(
                ClipContent::Image {
                    width: side(p.width),
                    height: side(p.height),
                    rgba: visible(p.bytes),
                },
            ),
            None => None,
        }
    }
}

/// `n` within the bounds of a poll interval.
pub open spec fn clamped_interval(n: u32) -> u32 {
    if n < POLL_INTERVAL_MIN_MS {
        POLL_INTERVAL_MIN_MS
    } else if n > POLL_INTERVAL_MAX_MS {
        POLL_INTERVAL_MAX_MS
    } else {
        n
    }
}

/// Whether `c` is the letter F.
pub open spec fn is_letter_f(c: Seq<char>) -> bool {
    c.len() == 1 && (c[0] == 'f' || c[0] == 'F')
}

impl State {
    /// The application at start, with a store or without one.
    pub open spec fn started(storage: Option<Seq<Write>>, loaded: StoredState) -> State {
        let clips = loaded.clips.map_values(|c: StoredClip| entry_of(c));
        State {
            clips,
            selected: first_id(clips),
            next_id: id_after(loaded.clips) as u64,
            last_clipboard_hash: None,
            settings: loaded.settings,
            poll_interval_ms: POLL_INTERVAL_DEFAULT_MS,
            storage,
            settings_open: false,
            settings_draft_history_size: decimal_digits(loaded.settings.history_size as nat),
            settings_draft_poll_interval_ms: decimal_digits(POLL_INTERVAL_DEFAULT_MS as nat),
            search_active: false,
            search_query: Seq::empty(),
            main_window: None,
        }
    }

    /// The ids of the entries.
    pub open spec fn ids(self) -> Seq<u64> {
        self.clips.map_values(|c: Entry| c.id)
    }

    /// The hashes of the entries.
    pub open spec fn hashes(self) -> Seq<u64> {
        self.clips.map_values(|c: Entry| c.hash)
    }

    /// Whether changes of the history go to the store.
    pub open spec fn stores(self) -> bool {
        self.settings.storage_enabled && self.storage is Some
    }

    /// With `writes` handed to the store, if there is one.
    pub open spec fn writing(self, writes: Seq<Write>) -> State {
        match self.storage {
            Some(pending) => State { storage: Some(pending + writes), ..self },
            None => self,
        }
    }

    /// With `writes` handed to the store, if changes of the history go there.
    pub open spec fn storing(self, writes: Seq<Write>) -> State {
        if self.stores() {
            self.writing(writes)
        } else {
            self
        }
    }

    /// The write that stores the order of the entries.
    pub open spec fn order_write(self) -> Write {
        Write::SaveOrder { record: order_record(self.ids()) }
    }

    /// With the order of the entries stored.
    pub open spec fn order_stored(self) -> State {
        self.storing(seq![self.order_write()])
    }

    /// With the entry at `pos` in front.
    pub open spec fn bumped(self, pos: int) -> State {
        State { clips: seq![self.clips[pos]] + self.clips.remove(pos), ..self }
    }

    /// With the entries beyond the history size gone, the oldest first, from
    /// the history and from the store. Where the selected entry is among them,
    /// the first entry is selected.
    pub open spec fn cut_to_size(self) -> State {
        let max = self.settings.history_size as int;
        if self.clips.len() <= max {
            self
        } else {
            self.cut_to(max)
        }
    }

    /// With the first `n` entries alone.
    pub open spec fn cut_to(self, n: int) -> State {
        let gone = self.clips.skip(n);
        State {
            clips: self.clips.take(n),
            selected: match self.selected {
                Some(id) if has_id(gone, id) => first_id(self.clips.take(n)),
                _ => self.selected,
            },
            ..self
        }.storing(deletions(gone))
    }

    /// With a content that is on the clipboard in front of the history: an
    /// entry with its hash moves there, or a new one is made.
    pub open spec fn ingested(self, data: ClipContent, hash: u64) -> State {
        let pos = position(self.hashes(), hash) as int;
        if pos < self.clips.len() {
            self.bumped(pos).order_stored()
        } else {
            self.entered(data, hash)
        }
    }

    /// With a new entry in front, which is handed to the store.
    pub open spec fn with_entry(self, data: ClipContent, hash: u64) -> State {
        let id = self.next_id;
        let entry = Entry { id, data, hash, preview: content_preview(data) };
        State {
            clips: seq![entry] + self.clips,
            selected: match self.selected {
                Some(selected) => Some(selected),
                None => Some(id),
            },
            next_id: (id + 1) as u64,
            ..self.storing(seq![Write::SaveClip { id, record: clip_record(hash, data) }])
        }
    }

    /// With a new entry in front, the history cut to its size and the order
    /// stored.
    pub open spec fn entered(self, data: ClipContent, hash: u64) -> State {
        self.with_entry(data, hash).cut_to_size().order_stored()
    }

    /// Whether there is an entry with the hash `hash`, or an id for a new one.
    pub open spec fn can_ingest(self, hash: u64) -> bool {
        position(self.hashes(), hash) < self.clips.len() || self.next_id < u64::MAX
    }

    /// Whether what a look at the clipboard finds can be taken up.
    pub open spec fn can_poll(self, text: Option<Seq<char>>, image: Option<Picture>) -> bool {
        match found(text, image) {
            Some(data) => self.last_clipboard_hash == Some(data_hash(data)) || self.can_ingest(
                data_hash(data),
            ),
            None => true,
        }
    }

    /// With a content of the hash `hash` seen on the clipboard. What was there
    /// when it was last looked at is not taken up again.
    pub open spec fn noticed(self, data: ClipContent, hash: u64) -> State {
        if self.last_clipboard_hash == Some(hash) {
            self
        } else {
            State { last_clipboard_hash: Some(hash), ..self }.ingested(data, hash)
        }
    }

    /// After a look at the clipboard.
    pub open spec fn polled(self, text: Option<Seq<char>>, image: Option<Picture>) -> State {
        match found(text, image) {
            Some(data) => self.noticed(data, data_hash(data)),
            None => self,
        }
    }

    /// With no entry of the id `id`. Where it was the selected one, the first
    /// entry is selected.
    pub open spec fn removed(self, id: u64) -> State {
        let clips = self.clips.filter(|c: Entry| c.id != id);
        let rest = State {
            clips,
            selected: if self.selected == Some(id) {
                first_id(clips)
            } else {
                self.selected
            },
            ..self
        };
        rest.storing(seq![Write::DeleteClip { id }, rest.order_write()])
    }

    /// The place of the selected entry; the number of entries where there is
    /// none.
    pub open spec fn selected_place(self) -> int {
        match self.selected {
            Some(id) => position(self.ids(), id) as int,
            None => self.clips.len() as int,
        }
    }

    /// After the selected entry was put on the clipboard: it moves to the front
    /// and counts as seen.
    pub open spec fn copied(self) -> State {
        let pos = self.selected_place();
        if pos < self.clips.len() {
            State { last_clipboard_hash: Some(self.clips[pos].hash), ..self }.bumped(
                pos,
            ).order_stored()
        } else {
            self
        }
    }

    /// With the search put away.
    pub open spec fn search_closed(self) -> State {
        State { search_active: false, search_query: Seq::empty(), ..self }
    }

    /// With the search opened, or put away where it was open.
    pub open spec fn search_toggled(self) -> State {
        if self.search_active {
            self.search_closed()
        } else {
            State { search_active: true, ..self }
        }
    }

    /// With every entry and the order handed to the store.
    pub open spec fn flushed(self) -> State {
        self.writing(saves(self.clips).push(self.order_write()))
    }

    /// With the settings handed to the store, and the order where the history
    /// goes there.
    pub open spec fn settings_stored(self) -> State {
        self.writing(
            seq![Write::SaveSettings { record: settings_record(self.settings) }],
        ).order_stored()
    }

    /// With the history kept in the store from now on, or no longer.
    pub open spec fn disk_toggled(self, enabled: bool) -> State {
        let settings = Settings { storage_enabled: enabled, ..self.settings };
        let s = State { settings, ..self }.writing(
            seq![Write::SaveSettings { record: settings_record(settings) }],
        );
        if enabled && !self.settings.storage_enabled {
            s.flushed()
        } else {
            s
        }
    }

    /// With no entries.
    pub open spec fn emptied(self) -> State {
        State {
            clips: Seq::empty(),
            selected: None,
            last_clipboard_hash: None,
            ..self
        }.writing(seq![Write::DeleteAllClips { order: order_record(Seq::empty()) }])
    }

    /// With the history size of the draft, where it is a positive number.
    pub open spec fn history_size_set(self) -> State {
        match parsed_u32(trimmed(self.settings_draft_history_size)) {
            Some(n) if n > 0 => State {
                settings: Settings { history_size: n, ..self.settings },
                ..self
            }.cut_to_size(),
            _ => self,
        }
    }

    /// With the poll interval of the draft, within its bounds, where it is a
    /// number.
    pub open spec fn poll_interval_set(self) -> State {
        match parsed_u32(trimmed(self.settings_draft_poll_interval_ms)) {
            Some(n) => State { poll_interval_ms: clamped_interval(n), ..self },
            None => self,
        }
    }

    /// With the drafts taken over and the settings put away.
    pub open spec fn settings_saved(self) -> State {
        State {
            settings_open: false,
            ..self.history_size_set().poll_interval_set().settings_stored()
        }
    }

    /// With the settings opened, their drafts being the current values, or put
    /// away where they were open.
    pub open spec fn settings_toggled(self) -> State {
        if self.settings_open {
            State { settings_open: false, ..self }
        } else {
            State {
                settings_open: true,
                settings_draft_history_size: decimal_digits(self.settings.history_size as nat),
                settings_draft_poll_interval_ms: decimal_digits(self.poll_interval_ms as nat),
                ..self
            }
        }
    }

    /// After a key press: Control and F open or put away the search, and Escape
    /// puts it away.
    pub open spec fn key_pressed(self, key: KeyName, control: bool) -> State {
        match key {
            KeyName::Character(c) if control && is_letter_f(c) => self.search_toggled(),
            KeyName::Escape if self.search_active => self.search_closed(),
            _ => self,
        }
    }

    /// Whether an event takes no id where none is left.
    pub open spec fn can_update(self, event: Event) -> bool {
        event matches Event::Tick { text, image, .. } ==> self.can_poll(text, image)
    }

    /// After an event.
    pub open spec fn updated(self, event: Event) -> State {
        match event {
            Event::Select(id) => State { selected: Some(id), ..self },
            Event::Remove(id) => self.removed(id),
            Event::CopySelected { clipboard_opened } => if clipboard_opened {
                self.copied()
            } else {
                self
            },
            Event::Tick { text, image, .. } => self.polled(text, image),
            Event::ToggleSettings => self.settings_toggled(),
            Event::SettingsHistorySizeChanged(value) => State {
                settings_draft_history_size: value,
                ..self
            },
            Event::SettingsPollIntervalChanged(value) => State {
                settings_draft_poll_interval_ms: value,
                ..self
            },
            Event::SettingsDiskToggled(enabled) => self.disk_toggled(enabled),
            Event::SettingsDeleteAll => self.emptied(),
            Event::SettingsSave => self.settings_saved(),
            Event::WindowOpened(id) => if self.main_window is None {
                State { main_window: Some(id), ..self }
            } else {
                self
            },
            Event::Key { key, control } => self.key_pressed(key, control),
            Event::SearchChanged(query) => State { search_query: query, ..self },
        }
    }

    /// What the window is asked to do after an event.
    pub open spec fn task(self, event: Event) -> Task {
        match event {
            Event::Select(id) if self.selected != Some(id) => Task::ScrollToTop,
            Event::Tick { focus_requested, .. } => match self.main_window {
                Some(id) if focus_requested => Task::FocusWindow(id),
                _ => Task::Nothing,
            },
            Event::Key { key: KeyName::Character(c), control } if control && is_letter_f(c)
                && !self.search_active => Task::FocusSearch,
            _ => Task::Nothing,
        }
    }

    /// What is searched for.
    pub open spec fn pattern(self) -> Seq<char> {
        trimmed(self.search_query)
    }

    /// Whether the list is narrowed to the matches of a search.
    pub open spec fn searching(self) -> bool {
        self.search_active && self.pattern().len() > 0
    }

    /// Whether every match of the search fits the machine.
    pub open spec fn search_fits(self) -> bool {
        self.searching() ==> forall|i: int|
            0 <= i < self.clips.len() ==> match_fits(
                haystack((#[trigger] self.clips[i]).data),
                self.pattern(),
            )
    }

    /// What a search compares before the entry at `i`: the pattern with the
    /// entries before it.
    pub open spec fn compared_before(self, i: int) -> Seq<(Seq<char>, Seq<char>)> {
        Seq::new(i as nat, |k: int| (haystack(self.clips[k].data), self.pattern()))
    }

    /// The score of each entry in the search, which one matcher compares in
    /// their order.
    pub open spec fn scores(self) -> Seq<Option<i64>> {
        Seq::new(
            self.clips.len(),
            |i: int|
                skim_score(
                    self.compared_before(i),
                    haystack(self.clips[i].data),
                    self.pattern(),
                ),
        )
    }

    /// Whether `places` are the places of the entries in the list, in the order
    /// in which it shows them: in a search the matches from the best one down,
    /// else all of them as they are.
    pub open spec fn lists(self, places: Seq<usize>) -> bool {
        if self.searching() {
            is_ranking(self.scores(), places)
        } else {
            places.len() == self.clips.len() && forall|i: int|
                0 <= i < places.len() ==> #[trigger] places[i] == i
        }
    }
}

/// The writes that remove `gone` from the store, the last one first.
pub open spec fn deletions(gone: Seq<Entry>) -> Seq<Write> {
    Seq::new(gone.len(), |i: int| Write::DeleteClip { id: gone[gone.len() - 1 - i].id })
}

/// The writes that store `clips`.
pub open spec fn saves(clips: Seq<Entry>) -> Seq<Write> {
    clips.map_values(
        |c: Entry| Write::SaveClip { id: c.id, record: clip_record(c.hash, c.data) },
    )
}

} // verus!
