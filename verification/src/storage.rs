use std::collections::HashMap;
use vstd::prelude::*;
use vstd::slice::slice_subrange;
use vstd::slice::slice_to_vec;
use vstd::utf8::{decode_utf8, encode_utf8, valid_utf8};

use crate::little_endian::{
    le_bytes, le_value, lemma_le_ranges, lemma_le_value_bound, push_le, read_le,
};

verus! {

/// The record tag of a text clip.
pub const TAG_TEXT: u8 = 1;

/// The record tag of an image clip.
pub const TAG_IMAGE: u8 = 2;

/// What a clip holds.
#[derive(Debug)]
pub enum ClipData {
    Text(String),
    Image { width: u32, height: u32, rgba: Vec<u8> },
}

/// What a clip holds, as characters and bytes.
#[verifier::ext_equal]
pub enum ClipContent {
    Text(Seq<char>),
    Image { width: u32, height: u32, rgba: Seq<u8> },
}

impl View for ClipData {
    type V = ClipContent;

    open spec fn view(&self) -> ClipContent {
        match *self {
            ClipData::Text(t) => ClipContent::Text(t@),
            ClipData::Image { width, height, rgba } => ClipContent::Image {
                width,
                height,
                rgba: rgba@,
            },
        }
    }
}

impl Clone for ClipData {
    fn clone(&self) -> (r: Self)
        ensures
            r@ == self@,
    {
        match self {
            ClipData::Text(t) => ClipData::Text(t.clone()),
            ClipData::Image { width, height, rgba } => {
                let rgba: Vec<u8> = slice_to_vec(rgba.as_slice());
                ClipData::Image { width: *width, height: *height, rgba }
            },
        }
    }
}

/// A clip as the store keeps it.
#[derive(Debug)]
pub struct PersistedClip {
    pub id: u64,
    pub hash: u64,
    pub data: ClipData,
}

/// A stored clip, as characters and bytes.
#[verifier::ext_equal]
pub struct StoredClip {
    pub id: u64,
    pub hash: u64,
    pub data: ClipContent,
}

impl View for PersistedClip {
    type V = StoredClip;

    open spec fn view(&self) -> StoredClip {
        StoredClip { id: self.id, hash: self.hash, data: self.data@ }
    }
}

/// The user's settings.
#[derive(Debug, Clone, Copy, PartialEq, Eq, Structural)]
pub struct Settings {
    pub history_size: u32,
    pub storage_enabled: bool,
}

/// The settings of a new installation: the history is in memory only.
pub open spec fn default_settings() -> Settings {
    Settings { history_size: 200, storage_enabled: false }
}

impl Default for Settings {
    fn default() -> (r: Self)
        ensures
            r == default_settings(),
    {
        Settings { history_size: 200, storage_enabled: false }
    }
}

/// What is read from the store at start.
#[derive(Debug)]
pub struct LoadedState {
    pub clips: Vec<PersistedClip>,
    pub settings: Settings,
}

/// A loaded state, as stored clips and settings.
#[verifier::ext_equal]
pub struct StoredState {
    pub clips: Seq<StoredClip>,
    pub settings: Settings,
}

impl View for LoadedState {
    type V = StoredState;

    open spec fn view(&self) -> StoredState {
        StoredState {
            clips: self.clips@.map_values(|c: PersistedClip| c@),
            settings: self.settings,
        }
    }
}

impl Default for LoadedState {
    fn default() -> (r: Self)
        ensures
            r@ == (StoredState { clips: Seq::empty(), settings: default_settings() }),
    {
        let r = LoadedState { clips: Vec::new(), settings: Settings::default() };
        assert(r@.clips =~= Seq::<StoredClip>::empty());
        r
    }
}

/// A length as the four bytes that the format has for it.
pub open spec fn length_bytes(len: nat) -> Seq<u8> {
    le_bytes(len % 0x1_0000_0000, 4)
}

/// The record of a clip: its hash, a tag, and the tagged content. Of a text the
/// content is its length in bytes and its bytes; of an image its width, its
/// height, the length of its pixels and the pixels. All numbers are little
/// endian, and of a length only the lowest four bytes are kept.
pub open spec fn clip_record(hash: u64, data: ClipContent) -> Seq<u8> {
    le_bytes(hash as nat, 8) + match data {
        ClipContent::Text(t) => seq![TAG_TEXT] + length_bytes(encode_utf8(t).len()) + encode_utf8(
            t,
        ),
        ClipContent::Image { width, height, rgba } => seq![TAG_IMAGE] + le_bytes(width as nat, 4)
            + le_bytes(height as nat, 4) + length_bytes(rgba.len()) + rgba,
    }
}

/// The content in a record's bytes after its hash and its tag.
pub open spec fn content_of(tag: u8, rest: Seq<u8>) -> Option<ClipContent> {
    if tag == TAG_TEXT {
        let len = le_value(rest.subrange(0, 4)) as int;
        if rest.len() >= 4 && rest.len() >= 4 + len && valid_utf8(rest.subrange(4, 4 + len)) {
            Some(ClipContent::Text(decode_utf8(rest.subrange(4, 4 + len))))
        } else {
            None
        }
    } else if tag == TAG_IMAGE {
        let len = le_value(rest.subrange(8, 12)) as int;
        if rest.len() >= 12 && rest.len() >= 12 + len {
            Some(
                ClipContent::Image {
                    width: le_value(rest.subrange(0, 4)) as u32,
                    height: le_value(rest.subrange(4, 8)) as u32,
                    rgba: rest.subrange(12, 12 + len),
                },
            )
        } else {
            None
        }
    } else {
        None
    }
}

/// The clip in a record, where the bytes are one: what follows a complete
/// record is ignored, an unknown tag, a short record and a text that is not
/// UTF-8 are no clip.
pub open spec fn clip_of_record(id: u64, bytes: Seq<u8>) -> Option<StoredClip> {
    if bytes.len() < 9 {
        None
    } else {
        match content_of(bytes[8], bytes.skip(9)) {
            Some(data) => Some(
                StoredClip { id, hash: le_value(bytes.subrange(0, 8)) as u64, data },
            ),
            None => None,
        }
    }
}

/// The record of the order of the clips: their number and their ids.
pub open spec fn order_record(order: Seq<u64>) -> Seq<u8> {
    length_bytes(order.len()) + ids_bytes(order)
}

/// Each id in eight bytes.
pub open spec fn ids_bytes(ids: Seq<u64>) -> Seq<u8>
    decreases ids.len(),
{
    if ids.len() == 0 {
        Seq::empty()
    } else {
        ids_bytes(ids.drop_last()) + le_bytes(ids.last() as nat, 8)
    }
}

/// The ids in an order record, where the bytes are one.
pub open spec fn order_of_record(bytes: Seq<u8>) -> Option<Seq<u64>> {
    if bytes.len() < 4 || bytes.len() < 4 + 8 * le_value(bytes.subrange(0, 4)) {
        None
    } else {
        Some(
            Seq::new(
                le_value(bytes.subrange(0, 4)),
                |i: int| le_value(bytes.subrange(4 + 8 * i, 4 + 8 * i + 8)) as u64,
            ),
        )
    }
}

/// The record of the settings.
pub open spec fn settings_record(s: Settings) -> Seq<u8> {
    le_bytes(s.history_size as nat, 4).push(
        if s.storage_enabled {
            1u8
        } else {
            0u8
        },
    )
}

/// The settings in a record, where the bytes are one. A record of four bytes
/// has no word on storage, which is then enabled.
pub open spec fn settings_of_record(bytes: Seq<u8>) -> Option<Settings> {
    if bytes.len() < 4 {
        None
    } else {
        Some(
            Settings {
                history_size: le_value(bytes.subrange(0, 4)) as u32,
                storage_enabled: bytes.len() >= 5 ==> bytes[4] != 0,
            },
        )
    }
}

fn push_bytes(out: &mut Vec<u8>, bytes: &[u8])
    ensures
        final(out)@ == old(out)@ + bytes@,
{
    out.extend_from_slice(bytes);
    assert(out@ =~= old(out)@ + bytes@);
}

fn push_length(out: &mut Vec<u8>, len: usize)
    ensures
        final(out)@ == old(out)@ + length_bytes(len as nat),
{
    push_le(out, (len as u64) % 0x1_0000_0000u64, 4);
}

/// The record of a clip.
pub fn encode_clip(hash: u64, data: &ClipData) -> (r: Vec<u8>)
    ensures
        r@ == clip_record(hash, data@),
{
    let mut out: Vec<u8> = Vec::new();
    push_le(&mut out, hash, 8);
    match data {
        ClipData::Text(t) => {
            out.push(TAG_TEXT);
            let bytes: &[u8] = t.as_str().as_bytes();
            push_length(&mut out, bytes.len());
            push_bytes(&mut out, bytes);
        },
        ClipData::Image { width, height, rgba } => {
            out.push(TAG_IMAGE);
            push_le(&mut out, *width as u64, 4);
            push_le(&mut out, *height as u64, 4);
            push_length(&mut out, rgba.len());
            push_bytes(&mut out, rgba.as_slice());
        },
    }
    assert(out@ =~= clip_record(hash, data@));
    out
}

/// `std::str::from_utf8`: the text that `bytes` encode, exactly where they are
/// valid UTF-8.
#[verifier::external_body]
fn text_of_utf8(bytes: &[u8]) -> (r: Option<&str>)
    ensures
        match r {
            Some(s) => valid_utf8(bytes@) && s@ == decode_utf8(bytes@),
            None => !valid_utf8(bytes@),
        },
{
    std::str::from_utf8(bytes).ok()
}

fn decode_content(tag: u8, rest: &[u8]) -> (r: Option<ClipData>)
    ensures
        match r {
            Some(data) => content_of(tag, rest@) == Some(data@),
            None => content_of(tag, rest@) is None,
        },
{
    match tag {
        TAG_TEXT => {
            if rest.len() < 4 {
                return None;
            }
            let len: u64 = read_le(rest, 0, 4);
            if ((rest.len() - 4) as u64) < len {
                return None;
            }
            match text_of_utf8(slice_subrange(rest, 4, 4 + len as usize)) {
                Some(s) => Some(ClipData::Text(s.to_owned())),
                None => None,
            }
        },
        TAG_IMAGE => {
            if rest.len() < 12 {
                return None;
            }
            let width: u64 = read_le(rest, 0, 4);
            let height: u64 = read_le(rest, 4, 4);
            let len: u64 = read_le(rest, 8, 4);
            if ((rest.len() - 12) as u64) < len {
                return None;
            }
            let rgba: Vec<u8> = slice_to_vec(slice_subrange(rest, 12, 12 + len as usize));
            Some(ClipData::Image { width: width as u32, height: height as u32, rgba })
        },
        _ => None,
    }
}

/// The clip in a record, if the bytes are one.
pub fn decode_clip(id: u64, bytes: &[u8]) -> (r: Option<PersistedClip>)
    ensures
        match r {
            Some(clip) => clip_of_record(id, bytes@) == Some(clip@),
            None => clip_of_record(id, bytes@) is None,
        },
{
    if bytes.len() < 9 {
        return None;
    }
    let hash: u64 = read_le(bytes, 0, 8);
    let rest: &[u8] = slice_subrange(bytes, 9, bytes.len());
    assert(rest@ =~= bytes@.skip(9));
    match decode_content(bytes[8], rest) {
        Some(data) => Some(PersistedClip { id, hash, data }),
        None => None,
    }
}

/// The record of an order.
pub fn encode_order(order: &[u64]) -> (r: Vec<u8>)
    ensures
        r@ == order_record(order@),
{
    let mut out: Vec<u8> = Vec::new();
    push_length(&mut out, order.len());
    let mut i: usize = 0;
    assert(order@.take(0) =~= Seq::<u64>::empty());
    assert(out@ + ids_bytes(order@.take(0)) =~= out@);
    while i < order.len()
        invariant
            i <= order@.len(),
            out@ == length_bytes(order@.len()) + ids_bytes(order@.take(i as int)),
        decreases order@.len() - i,
    {
        proof {
            let next = order@.take(i + 1);
            assert(next.drop_last() =~= order@.take(i as int));
        }
        push_le(&mut out, order[i], 8);
        i = i + 1;
        assert(out@ =~= length_bytes(order@.len()) + ids_bytes(order@.take(i as int)));
    }
    assert(order@.take(order@.len() as int) =~= order@);
    out
}

/// The ids in an order record, if the bytes are one.
pub fn decode_order(bytes: &[u8]) -> (r: Option<Vec<u64>>)
    ensures
        match r {
            Some(ids) => order_of_record(bytes@) == Some(ids@),
            None => order_of_record(bytes@) is None,
        },
{
    if bytes.len() < 4 {
        return None;
    }
    let count: u64 = read_le(bytes, 0, 4);
    proof {
        lemma_le_value_bound(bytes@.subrange(0, 4));
        lemma_le_ranges();
    }
    if (bytes.len() as u64) < 4 + count * 8 {
        return None;
    }
    let mut out: Vec<u64> = Vec::new();
    let mut i: u64 = 0;
    while i < count
        invariant
            i <= count,
            out@.len() == i,
            count == le_value(bytes@.subrange(0, 4)),
            4 + 8 * count <= bytes@.len() <= usize::MAX,
            forall|j: int|
                0 <= j < i ==> #[trigger] out@[j] == le_value(
                    bytes@.subrange(4 + 8 * j, 4 + 8 * j + 8),
                ) as u64,
        decreases count - i,
    {
        let start: usize = 4 + 8 * (i as usize);
        out.push(read_le(bytes, start, 8));
        i = i + 1;
    }
    assert(out@ =~= order_of_record(bytes@).unwrap());
    Some(out)
}

/// The record of the settings.
pub fn encode_settings(s: &Settings) -> (r: Vec<u8>)
    ensures
        r@ == settings_record(*s),
{
    let mut out: Vec<u8> = Vec::new();
    push_le(&mut out, s.history_size as u64, 4);
    out.push(
        if s.storage_enabled {
            1
        } else {
            0
        },
    );
    assert(out@ =~= settings_record(*s));
    out
}

/// The settings in a record, if the bytes are one.
pub fn decode_settings(bytes: &[u8]) -> (r: Option<Settings>)
    ensures
        r == settings_of_record(bytes@),
{
    if bytes.len() < 4 {
        return None;
    }
    let history_size: u64 = read_le(bytes, 0, 4);
    let storage_enabled: bool = if bytes.len() >= 5 {
        bytes[4] != 0
    } else {
        true
    };
    Some(Settings { history_size: history_size as u32, storage_enabled })
}

/// One write transaction on the two tables of the store: the clips by their id,
/// and the records of the order and of the settings.
#[derive(Debug)]
pub enum Request {
    SaveClip { id: u64, record: Vec<u8> },
    DeleteClip { id: u64 },
    SaveOrder { record: Vec<u8> },
    DeleteAllClips { order: Vec<u8> },
    SaveSettings { record: Vec<u8> },
}

/// A write transaction, its records as bytes.
#[verifier::ext_equal]
pub enum Write {
    SaveClip { id: u64, record: Seq<u8> },
    DeleteClip { id: u64 },
    SaveOrder { record: Seq<u8> },
    DeleteAllClips { order: Seq<u8> },
    SaveSettings { record: Seq<u8> },
}

impl View for Request {
    type V = Write;

    open spec fn view(&self) -> Write {
        match *self {
            Request::SaveClip { id, record } => Write::SaveClip { id, record: record@ },
            Request::DeleteClip { id } => Write::DeleteClip { id },
            Request::SaveOrder { record } => Write::SaveOrder { record: record@ },
            Request::DeleteAllClips { order } => Write::DeleteAllClips { order: order@ },
            Request::SaveSettings { record } => Write::SaveSettings { record: record@ },
        }
    }
}

/// What the two tables of the store hold.
#[verifier::ext_equal]
pub struct Tables {
    pub clips: Map<u64, Seq<u8>>,
    pub order: Option<Seq<u8>>,
    pub settings: Option<Seq<u8>>,
}

/// The clips that are stored under `ids`, in that order; an id without a
/// readable record has none.
pub open spec fn stored_clips(clips: Map<u64, Seq<u8>>, ids: Seq<u64>) -> Seq<StoredClip>
    decreases ids.len(),
{
    if ids.len() == 0 {
        Seq::empty()
    } else {
        let before = stored_clips(clips, ids.drop_last());
        let id = ids.last();
        if clips.contains_key(id) {
            match clip_of_record(id, clips[id]) {
                Some(clip) => before.push(clip),
                None => before,
            }
        } else {
            before
        }
    }
}

impl Tables {
    /// The tables after one write.
    pub open spec fn after(self, w: Write) -> Tables {
        match w {
            Write::SaveClip { id, record } => Tables {
                clips: self.clips.insert(id, record),
                ..self
            },
            Write::DeleteClip { id } => Tables { clips: self.clips.remove(id), ..self },
            Write::SaveOrder { record } => Tables { order: Some(record), ..self },
            Write::DeleteAllClips { order } => Tables {
                clips: Map::empty(),
                order: Some(order),
                ..self
            },
            Write::SaveSettings { record } => Tables { settings: Some(record), ..self },
        }
    }

    /// The tables after a sequence of writes.
    pub open spec fn after_all(self, writes: Seq<Write>) -> Tables
        decreases writes.len(),
    {
        if writes.len() == 0 {
            self
        } else {
            self.after_all(writes.drop_last()).after(writes.last())
        }
    }

    /// The ids in the stored order; none where there is no readable order.
    pub open spec fn stored_order(self) -> Seq<u64> {
        match self.order {
            Some(bytes) => match order_of_record(bytes) {
                Some(ids) => ids,
                None => Seq::empty(),
            },
            None => Seq::empty(),
        }
    }

    /// The stored settings; the default ones where there are no readable ones.
    pub open spec fn stored_settings(self) -> Settings {
        match self.settings {
            Some(bytes) => match settings_of_record(bytes) {
                Some(settings) => settings,
                None => default_settings(),
            },
            None => default_settings(),
        }
    }

    /// What is read from the tables at start.
    pub open spec fn loaded(self) -> StoredState {
        StoredState {
            clips: stored_clips(self.clips, self.stored_order()),
            settings: self.stored_settings(),
        }
    }
}

/// The tables of the store as they were read from disk.
#[derive(Debug)]
pub struct StoredTables {
    pub clips: HashMap<u64, Vec<u8>>,
    pub order: Option<Vec<u8>>,
    pub settings: Option<Vec<u8>>,
}

/// The bytes of a record that may be missing.
pub open spec fn record_bytes(record: Option<Vec<u8>>) -> Option<Seq<u8>> {
    match record {
        Some(bytes) => Some(bytes@),
        None => None,
    }
}

impl View for StoredTables {
    type V = Tables;

    open spec fn view(&self) -> Tables {
        Tables {
            clips: self.clips@.map_values(|record: Vec<u8>| record@),
            order: record_bytes(self.order),
            settings: record_bytes(self.settings),
        }
    }
}

/// An open store: the writes that are still to be committed, the first one
/// first.
#[derive(Debug)]
pub struct Storage {
    pending: Vec<Request>,
}

impl View for Storage {
    type V = Seq<Write>;

    closed spec fn view(&self) -> Seq<Write> {
        self.pending@.map_values(|r: Request| r@)
    }
}

impl Storage {
    /// A store with nothing to commit.
    pub fn open() -> (r: Storage)
        ensures
            r@ == Seq::<Write>::empty(),
    {
        let r = Storage { pending: Vec::new() };
        assert(r@ =~= Seq::<Write>::empty());
        r
    }

    /// Hands out the writes to commit, in their order.
    pub fn take_pending(&mut self) -> (r: Vec<Request>)
        ensures
            r@.map_values(|q: Request| q@) == old(self)@,
            final(self)@ == Seq::<Write>::empty(),
    {
        let mut r: Vec<Request> = Vec::new();
        r.append(&mut self.pending);
        assert(r@ =~= old(self).pending@);
        assert(self@ =~= Seq::<Write>::empty());
        r
    }

    fn push(&mut self, request: Request)
        ensures
            final(self)@ == old(self)@.push(request@),
    {
        self.pending.push(request);
        assert(self@ =~= old(self)@.push(request@));
    }

    /// The clips in the stored order and the settings. Ids without a readable
    /// record are passed over, and without a readable order or readable
    /// settings there are no clips or the default settings.
    pub fn load(tables: &StoredTables) -> (r: LoadedState)
        ensures
            r@ == tables@.loaded(),
    {
        let settings: Settings = match &tables.settings {
            Some(bytes) => match decode_settings(bytes.as_slice()) {
                Some(settings) => settings,
                None => Settings::default(),
            },
            None => Settings::default(),
        };
        let order: Vec<u64> = match &tables.order {
            Some(bytes) => match decode_order(bytes.as_slice()) {
                Some(order) => order,
                None => Vec::new(),
            },
            None => Vec::new(),
        };
        assert(order@ =~= tables@.stored_order());
        let mut clips: Vec<PersistedClip> = Vec::new();
        let mut i: usize = 0;
        assert(order@.take(0) =~= Seq::<u64>::empty());
        assert(clips@.map_values(|c: PersistedClip| c@) =~= Seq::<StoredClip>::empty());
        while i < order.len()
            invariant
                i <= order@.len(),
                clips@.map_values(|c: PersistedClip| c@) == stored_clips(
                    tables@.clips,
                    order@.take(i as int),
                ),
            decreases order@.len() - i,
        {
            let id: u64 = order[i];
            let ghost before = clips@;
            proof {
                let next = order@.take(i + 1);
                assert(next.drop_last() =~= order@.take(i as int));
            }
            if let Some(bytes) = tables.clips.get(&id) {
                if let Some(clip) = decode_clip(id, bytes.as_slice()) {
                    let ghost view = clip@;
                    clips.push(clip);
                    assert(clips@.map_values(|c: PersistedClip| c@) =~= before.map_values(
                        |c: PersistedClip| c@,
                    ).push(view));
                }
            }
            i = i + 1;
        }
        assert(order@.take(order@.len() as int) =~= order@);
        LoadedState { clips, settings }
    }

    /// Stores a clip under its id.
    pub fn save_clip(&mut self, id: u64, hash: u64, data: &ClipData)
        ensures
            final(self)@ == old(self)@.push(
                Write::SaveClip { id, record: clip_record(hash, data@) },
            ),
    {
        let record: Vec<u8> = encode_clip(hash, data);
        self.push(Request::SaveClip { id, record });
    }

    /// Removes the clip of an id.
    pub fn delete_clip(&mut self, id: u64)
        ensures
            final(self)@ == old(self)@.push(Write::DeleteClip { id }),
    {
        self.push(Request::DeleteClip { id });
    }

    /// Stores the order of the clips.
    pub fn save_order(&mut self, order: &[u64])
        ensures
            final(self)@ == old(self)@.push(Write::SaveOrder { record: order_record(order@) }),
    {
        let record: Vec<u8> = encode_order(order);
        self.push(Request::SaveOrder { record });
    }

    /// Removes every clip and stores an empty order.
    pub fn delete_all_clips(&mut self)
        ensures
            final(self)@ == old(self)@.push(
                Write::DeleteAllClips { order: order_record(Seq::empty()) },
            ),
    {
        let none: Vec<u64> = Vec::new();
        assert(none@ =~= Seq::<u64>::empty());
        let order: Vec<u8> = encode_order(none.as_slice());
        self.push(Request::DeleteAllClips { order });
    }

    /// Stores the settings.
    pub fn save_settings(&mut self, settings: &Settings)
        ensures
            final(self)@ == old(self)@.push(
                Write::SaveSettings { record: settings_record(*settings) },
            ),
    {
        let record: Vec<u8> = encode_settings(settings);
        self.push(Request::SaveSettings { record });
    }
}

} // verus!
