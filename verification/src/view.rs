use vstd::prelude::*;

use crate::clipper::{image_preview, Clip, Clipper};
use crate::model::{
    image_label, Entry, State, POLL_INTERVAL_MAX_MS, POLL_INTERVAL_MIN_MS,
};
use crate::storage::{ClipContent, ClipData};
use crate::text::{decimal, decimal_digits};

verus! {

/// What a row of the list shows.
#[derive(Debug)]
pub struct Row {
    pub id: u64,
    pub preview: String,
    pub selected: bool,
}

/// What a row of the list shows.
#[verifier::ext_equal]
pub struct RowView {
    pub id: u64,
    pub preview: Seq<char>,
    pub selected: bool,
}

impl View for Row {
    type V = RowView;

    open spec fn view(&self) -> RowView {
        RowView { id: self.id, preview: self.preview@, selected: self.selected }
    }
}

/// What is shown of the selected entry.
#[derive(Debug)]
pub enum Body {
    Text(String),
    /// The image of the entry with this id.
    Image(u64),
    /// There is no selected entry.
    Waiting,
}

/// What is shown of the selected entry.
pub enum BodyView {
    Text(Seq<char>),
    Image(u64),
    Waiting,
}

impl View for Body {
    type V = BodyView;

    open spec fn view(&self) -> BodyView {
        match *self {
            Body::Text(t) => BodyView::Text(t@),
            Body::Image(id) => BodyView::Image(id),
            Body::Waiting => BodyView::Waiting,
        }
    }
}

/// The panel with the selected entry.
#[derive(Debug)]
pub struct ContentPanel {
    pub body: Body,
    /// The kind and the size of the content.
    pub meta: String,
    /// Whether there is something to copy.
    pub can_copy: bool,
}

/// The kind and the size of a content.
pub open spec fn content_meta(data: ClipContent) -> Seq<char> {
    match data {
        ClipContent::Text(t) => "text · "@ + decimal_digits(t.len()) + " chars"@,
        ClipContent::Image { width, height, .. } => image_label(width, height),
    }
}

/// What is shown of an entry.
pub open spec fn body_of(entry: Entry) -> BodyView {
    match entry.data {
        ClipContent::Text(t) => BodyView::Text(t),
        ClipContent::Image { .. } => BodyView::Image(entry.id),
    }
}

impl State {
    /// The row of the entry at `i`.
    pub open spec fn row(self, i: int) -> RowView {
        RowView {
            id: self.clips[i].id,
            preview: self.clips[i].preview,
            selected: self.selected == Some(self.clips[i].id),
        }
    }

    /// The entry that is shown in full.
    pub open spec fn shown(self) -> Option<Entry> {
        if self.selected_place() < self.clips.len() {
            Some(self.clips[self.selected_place()])
        } else {
            None
        }
    }
}

impl Clipper {
    /// The rows of the list; none where the search does not fit the machine.
    pub fn rows(&self) -> (r: Option<Vec<Row>>)
        ensures
            match r {
                Some(rows) => self@.search_fits() && exists|places: Seq<usize>| #[trigger]
                    self@.lists(places) && rows@.len() == places.len() && forall|k: int|
                        0 <= k < places.len() ==> (#[trigger] rows@[k])@ == self@.row(
                            places[k] as int,
                        ),
                None => !self@.search_fits(),
            },
    {
        if !self.can_search() {
            return None;
        }
        let clips: Vec<&Clip> = self.filtered_clips();
        let ghost places = choose|places: Seq<usize>| #[trigger]
            self@.lists(places) && clips@.len() == places.len() && forall|k: int|
                0 <= k < places.len() ==> *#[trigger] clips@[k] == self.clips@[places[k] as int];
        let mut rows: Vec<Row> = Vec::new();
        for k in 0..clips.len()
            invariant
                self@.lists(places),
                clips@.len() == places.len(),
                forall|j: int|
                    0 <= j < places.len() ==> *#[trigger] clips@[j]
                        == self.clips@[places[j] as int],
                rows@.len() == k,
                forall|j: int|
                    0 <= j < k ==> (#[trigger] rows@[j])@ == self@.row(places[j] as int),
        {
            let clip: &Clip = clips[k];
            let selected: bool = match self.selected {
                Some(id) => id == clip.id,
                None => false,
            };
            assert(*clips@[k as int] == self.clips@[places[k as int] as int]);
            assert(places[k as int] < self.clips@.len()) by {
                if !self@.searching() {
                    assert(places[k as int] == k);
                }
            }
            rows.push(Row { id: clip.id, preview: clip.preview.clone(), selected });
        }
        Some(rows)
    }

    /// The panel with the selected entry.
    pub fn content_panel(&self) -> (r: ContentPanel)
        ensures
            match self@.shown() {
                Some(entry) => {
                    &&& r.body@ == body_of(entry)
                    &&& r.meta@ == content_meta(entry.data)
                    &&& r.can_copy
                },
                None => {
                    &&& r.body@ == BodyView::Waiting
                    &&& r.meta@ == Seq::<char>::empty()
                    &&& !r.can_copy
                },
            },
    {
        let clip: &Clip = match self.selected_clip() {
            Some(clip) => clip,
            None => return ContentPanel { body: Body::Waiting, meta: String::new(), can_copy: false },
        };
        match &clip.data {
            ClipData::Text(t) => {
                let mut meta: String = "text · ".to_owned();
                meta.append(decimal(t.as_str().unicode_len() as u64).as_str());
                meta.append(" chars");
                ContentPanel { body: Body::Text(t.clone()), meta, can_copy: true }
            },
            ClipData::Image { width, height, .. } => ContentPanel {
                body: Body::Image(clip.id),
                meta: image_preview(*width, *height),
                can_copy: true,
            },
        }
    }
}

/// What the settings say about the poll interval.
pub fn poll_hint() -> (r: String)
    ensures
        r@ == "How often to read the clipboard ("@ + decimal_digits(POLL_INTERVAL_MIN_MS as nat)
            + "–"@ + decimal_digits(POLL_INTERVAL_MAX_MS as nat) + " ms)."@,
{
    let mut r: String = "How often to read the clipboard (".to_owned();
    r.append(decimal(POLL_INTERVAL_MIN_MS as u64).as_str());
    r.append("–");
    r.append(decimal(POLL_INTERVAL_MAX_MS as u64).as_str());
    r.append(" ms).");
    r
}

/// Whether the pointer is at a button, and whether the button can be pressed.
#[derive(Debug, Clone, Copy, PartialEq, Eq, Structural)]
pub enum Status {
    Active,
    Hovered,
    Pressed,
    Disabled,
}

/// A button of the window.
#[derive(Debug, Clone, Copy, PartialEq, Eq, Structural)]
pub enum ButtonKind {
    Settings,
    Copy,
    Save,
    Cancel,
    DeleteAll,
    Row { selected: bool },
    Remove,
}

/// The colours of a button, each as `0xRRGGBB`.
#[derive(Debug, Clone, Copy, PartialEq, Eq, Structural)]
pub struct Colors {
    pub background: u32,
    pub border: u32,
}

/// The background of a button.
pub open spec fn background_of(kind: ButtonKind, status: Status) -> u32 {
    match (kind, status) {
        (ButtonKind::Settings | ButtonKind::Cancel, Status::Hovered) => 0x2a2e38,
        (ButtonKind::Settings, Status::Pressed) => 0x20242c,
        (ButtonKind::Settings | ButtonKind::Cancel, _) => 0x22252c,
        (ButtonKind::Copy | ButtonKind::Save, Status::Hovered) => 0x3b5ba9,
        (ButtonKind::Copy | ButtonKind::Save, Status::Pressed) => 0x304a90,
        (ButtonKind::Copy, Status::Disabled) => 0x232730,
        (ButtonKind::Copy | ButtonKind::Save, _) => 0x2b3655,
        (ButtonKind::DeleteAll | ButtonKind::Remove, Status::Hovered) => 0xb53a3a,
        (ButtonKind::DeleteAll | ButtonKind::Remove, Status::Pressed) => 0x8f2828,
        (ButtonKind::DeleteAll, _) => 0x7a2a2a,
        (ButtonKind::Row { selected: true }, _) => 0x3b5ba9,
        (ButtonKind::Row { selected: false }, Status::Hovered) => 0x232730,
        (ButtonKind::Row { selected: false } | ButtonKind::Remove, _) => 0x1b1d23,
    }
}

/// The border of a button.
pub open spec fn border_of(kind: ButtonKind, status: Status) -> u32 {
    match (kind, status) {
        (ButtonKind::Settings | ButtonKind::Cancel, _) => 0x2e333e,
        (ButtonKind::Copy, Status::Disabled) => 0x2e333e,
        (ButtonKind::Copy | ButtonKind::Save, _) => 0x5c82d6,
        (ButtonKind::DeleteAll, _) => 0xd85a5a,
        (ButtonKind::Row { selected: true }, _) => 0x5c82d6,
        (ButtonKind::Row { selected: false }, Status::Hovered) => 0x2e333e,
        (ButtonKind::Remove, Status::Hovered) => 0xd85a5a,
        (ButtonKind::Remove, Status::Pressed) => 0xb53a3a,
        (ButtonKind::Row { selected: false } | ButtonKind::Remove, _) => 0x252831,
    }
}

/// The colours of a button.
pub fn button_colors(kind: ButtonKind, status: Status) -> (r: Colors)
    ensures
        r.background == background_of(kind, status),
        r.border == border_of(kind, status),
{
    let (background, border): (u32, u32) = match kind {
        ButtonKind::Settings => match status {
            Status::Hovered => (0x2a2e38, 0x2e333e),
            Status::Pressed => (0x20242c, 0x2e333e),
            _ => (0x22252c, 0x2e333e),
        },
        ButtonKind::Copy => match status {
            Status::Hovered => (0x3b5ba9, 0x5c82d6),
            Status::Pressed => (0x304a90, 0x5c82d6),
            Status::Disabled => (0x232730, 0x2e333e),
            Status::Active => (0x2b3655, 0x5c82d6),
        },
        ButtonKind::Save => match status {
            Status::Hovered => (0x3b5ba9, 0x5c82d6),
            Status::Pressed => (0x304a90, 0x5c82d6),
            _ => (0x2b3655, 0x5c82d6),
        },
        ButtonKind::Cancel => match status {
            Status::Hovered => (0x2a2e38, 0x2e333e),
            _ => (0x22252c, 0x2e333e),
        },
        ButtonKind::DeleteAll => match status {
            Status::Hovered => (0xb53a3a, 0xd85a5a),
            Status::Pressed => (0x8f2828, 0xd85a5a),
            _ => (0x7a2a2a, 0xd85a5a),
        },
        ButtonKind::Row { selected: true } => (0x3b5ba9, 0x5c82d6),
        ButtonKind::Row { selected: false } => match status {
            Status::Hovered => (0x232730, 0x2e333e),
            _ => (0x1b1d23, 0x252831),
        },
        ButtonKind::Remove => match status {
            Status::Hovered => (0xb53a3a, 0xd85a5a),
            Status::Pressed => (0x8f2828, 0xb53a3a),
            _ => (0x1b1d23, 0x252831),
        },
    };
    Colors { background, border }
}

/// The colour of a row's text.
pub fn label_color(selected: bool) -> (r: u32)
    ensures
        r == if selected {
            0xffffffu32
        } else {
            0xc3c7d1u32
        },
{
    if selected {
        0xffffff
    } else {
        0xc3c7d1
    }
}

} // verus!
