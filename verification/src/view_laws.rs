use vstd::prelude::*;

use crate::history_laws::{has_distinct_ids, lemma_position};
use crate::model::{
    haystack, position, Event, State, Task, POLL_INTERVAL_DEFAULT_MS, POLL_INTERVAL_MAX_MS,
    POLL_INTERVAL_MIN_MS,
};
use crate::search::{match_fits, ranking_is_unique, ranks_before, skim_score};
use crate::storage::ClipContent;
use crate::text::{decimal_digits, trimmed};
use crate::view::{background_of, body_of, border_of, content_meta, BodyView, ButtonKind, Status};

verus! {

/// The state fixes what the list shows: there is one way to list its entries.
pub proof fn the_list_is_determined(s: State, a: Seq<usize>, b: Seq<usize>)
    requires
        s.lists(a),
        s.lists(b),
    ensures
        a == b,
{
    if s.searching() {
        ranking_is_unique(s.scores(), a, b);
    } else {
        assert forall|i: int| 0 <= i < a.len() implies a[i] == b[i] by {
            assert(a[i] == i);
            assert(b[i] == i);
        }
        assert(a =~= b);
    }
}

/// The list shows entries of the history, none of them twice: in a search those
/// that match, else all of them.
pub proof fn the_list_shows_each_entry_once(s: State, places: Seq<usize>)
    requires
        s.lists(places),
    ensures
        places.no_duplicates(),
        forall|i: usize| #[trigger]
            places.contains(i) <==> i < s.clips.len() && (s.searching()
                ==> s.scores()[i as int] is Some),
{
    let scores = s.scores();
    assert forall|k: int, l: int| 0 <= k < places.len() && 0 <= l < places.len() && k
        != l implies places[k] != places[l] by {
        if s.searching() {
            if k < l {
                assert(ranks_before(scores, places[k], places[l]));
            } else {
                assert(ranks_before(scores, places[l], places[k]));
            }
        } else {
            assert(places[k] == k);
            assert(places[l] == l);
        }
    }
    assert forall|i: usize| #[trigger]
        places.contains(i) <==> i < s.clips.len() && (s.searching()
            ==> s.scores()[i as int] is Some) by {
        if places.contains(i) {
            let k = choose|k: int| 0 <= k < places.len() && places[k] == i;
            assert(places[k] == i);
        } else if i < s.clips.len() {
            if s.searching() {
                if scores[i as int] is Some {
                    assert(places.contains(i));
                }
            } else {
                assert(places[i as int] == i);
                assert(places.contains(i));
            }
        }
    }
}

/// At most one row of the list is shown as selected.
pub proof fn at_most_one_row_is_selected(s: State, i: int, j: int)
    requires
        has_distinct_ids(s.clips),
        0 <= i < s.clips.len(),
        0 <= j < s.clips.len(),
        s.row(i).selected,
        s.row(j).selected,
    ensures
        i == j,
{
    if i < j {
        assert(s.clips[i].id != s.clips[j].id);
    } else if j < i {
        assert(s.clips[j].id != s.clips[i].id);
    }
}

/// The entry that is shown in full is the one that Copy puts on the clipboard
/// and in front; where none is shown, Copy does nothing.
pub proof fn copy_takes_what_is_shown(s: State)
    ensures
        match s.shown() {
            Some(entry) => {
                let r = s.updated(Event::CopySelected { clipboard_opened: true });
                &&& r.clips.len() == s.clips.len()
                &&& r.clips[0] == entry
                &&& r.last_clipboard_hash == Some(entry.hash)
                &&& r.selected == s.selected
                &&& r.shown() == s.shown()
            },
            None => s.updated(Event::CopySelected { clipboard_opened: true }) == s,
        },
{
    if let Some(id) = s.selected {
        lemma_position(s.ids(), id);
        if let Some(entry) = s.shown() {
            let r = s.copied();
            assert(r.clips[0] == entry);
            assert(r.ids()[0] == id);
        }
    }
}

/// A search that is put away leaves no trace, whatever was searched for.
pub proof fn a_search_leaves_no_trace(s: State, query: Seq<char>)
    requires
        !s.search_active,
        s.search_query == Seq::<char>::empty(),
    ensures
        s.search_toggled().updated(Event::SearchChanged(query)).search_toggled() == s,
        s.search_toggled().updated(Event::SearchChanged(query)).search_closed() == s,
{
}

/// The window that was opened first stays the main one.
pub proof fn the_first_window_stays_the_main_one(s: State, event: Event)
    requires
        s.main_window is Some,
    ensures
        s.updated(event).main_window == s.main_window,
{
}

/// The window comes to the front if another instance asked for it, and only
/// then.
pub proof fn the_window_comes_to_the_front_on_request(s: State, event: Event, window: u64)
    ensures
        s.task(event) == Task::FocusWindow(window) <==> s.main_window == Some(window)
            && event is Tick && event->focus_requested,
{
}

/// What is searched in a content: the whole text, or `image WxH`.
pub open spec fn searched(data: ClipContent) -> Seq<char> {
    match data {
        ClipContent::Text(t) => t,
        ClipContent::Image { width, height, .. } => "image "@ + decimal_digits(width as nat)
            + "x"@ + decimal_digits(height as nat),
    }
}

/// A search looks at every character of a text: what occurs anywhere in it is
/// where it occurs in what is searched.
pub proof fn a_search_looks_at_the_whole_text(t: Seq<char>, from: int, to: int)
    requires
        0 <= from <= to <= t.len(),
    ensures
        haystack(ClipContent::Text(t)).len() == t.len(),
        haystack(ClipContent::Text(t)).subrange(from, to) == t.subrange(from, to),
{
}

/// In a search every entry has the score of the trimmed query in its whole
/// content, with a matcher that has compared the entries before it and no
/// others.
pub proof fn every_entry_is_compared_with_the_query(s: State, i: int)
    requires
        0 <= i < s.clips.len(),
    ensures
        s.scores().len() == s.clips.len(),
        s.scores()[i] == skim_score(
            Seq::new(
                i as nat,
                |k: int| (searched(s.clips[k].data), trimmed(s.search_query)),
            ),
            searched(s.clips[i].data),
            trimmed(s.search_query),
        ),
{
    assert(s.compared_before(i) =~= Seq::new(
        i as nat,
        |k: int| (searched(s.clips[k].data), trimmed(s.search_query)),
    ));
}

/// The list is narrowed exactly while the search is open and has a query that is
/// not blank.
pub proof fn a_blank_query_does_not_narrow_the_list(s: State)
    ensures
        s.searching() <==> s.search_active && trimmed(s.search_query).len() > 0,
{
}

/// Without a search the list shows every entry at its place in the history.
pub proof fn without_a_search_everything_is_listed(s: State, places: Seq<usize>)
    requires
        !s.search_active || trimmed(s.search_query).len() == 0,
    ensures
        s.lists(places) <==> places.len() == s.clips.len() && forall|k: int|
            0 <= k < places.len() ==> #[trigger] places[k] == k,
{
}

/// In a search the list shows exactly the entries with a score, a greater score
/// before a smaller one, and equal scores in the order of the history.
pub proof fn a_search_lists_the_best_first(s: State, places: Seq<usize>)
    requires
        s.search_active,
        trimmed(s.search_query).len() > 0,
    ensures
        s.lists(places) <==> {
            let scores = s.scores();
            &&& forall|k: int|
                0 <= k < places.len() ==> #[trigger] places[k] < s.clips.len()
                    && scores[places[k] as int] is Some
            &&& forall|k: int, l: int|
                0 <= k < l < places.len() ==> {
                    let a = scores[#[trigger] places[k] as int]->0;
                    let b = scores[#[trigger] places[l] as int]->0;
                    a > b || (a == b && places[k] < places[l])
                }
            &&& forall|i: usize|
                i < s.clips.len() && (#[trigger] scores[i as int]) is Some ==> exists|k: int|
                    0 <= k < places.len() && #[trigger] places[k] == i
        },
{
    let scores = s.scores();
    if s.lists(places) {
        assert forall|k: int, l: int| 0 <= k < l < places.len() implies {
            let a = scores[#[trigger] places[k] as int]->0;
            let b = scores[#[trigger] places[l] as int]->0;
            a > b || (a == b && places[k] < places[l])
        } by {
            assert(ranks_before(scores, places[k], places[l]));
        }
        assert forall|i: usize|
            i < s.clips.len() && (#[trigger] scores[i as int]) is Some implies exists|k: int|
            0 <= k < places.len() && #[trigger] places[k] == i by {
            assert(places.contains(i));
        }
    }
}

/// Every search fits the machine whose texts have fewer than 2^24 characters and
/// whose query has fewer than 2^26.
pub proof fn ordinary_searches_fit(s: State)
    requires
        trimmed(s.search_query).len() < 0x400_0000,
        forall|i: int|
            0 <= i < s.clips.len() ==> searched((#[trigger] s.clips[i]).data).len() < 0x100_0000,
    ensures
        s.search_fits(),
{
    assert forall|i: int| 0 <= i < s.clips.len() implies match_fits(
        haystack((#[trigger] s.clips[i]).data),
        s.pattern(),
    ) by {
        assert(searched(s.clips[i].data).len() < 0x100_0000);
    }
}

/// A match fits the machine exactly where its text has room for sixty-four bytes
/// for each character, and where its pattern is below 2^26 characters or longer
/// than the text with room for eight bytes for each character.
pub proof fn the_limits_of_a_match(choice: Seq<char>, pattern: Seq<char>)
    ensures
        match_fits(choice, pattern) <==> 64 * choice.len() + 64 <= isize::MAX && (pattern.len()
            < 0x400_0000 || (pattern.len() > choice.len() && 8 * pattern.len() <= isize::MAX)),
{
}

/// A search is possible exactly where each of its matches fits the machine, and
/// what is no search always is.
pub proof fn a_search_is_possible_where_its_matches_fit(s: State)
    ensures
        !s.search_active || trimmed(s.search_query).len() == 0 ==> s.search_fits(),
        s.search_active && trimmed(s.search_query).len() > 0 ==> (s.search_fits() <==> forall|
            i: int,
        |
            0 <= i < s.clips.len() ==> match_fits(
                searched((#[trigger] s.clips[i]).data),
                trimmed(s.search_query),
            )),
{
    assert forall|i: int| 0 <= i < s.clips.len() implies haystack((#[trigger] s.clips[i]).data)
        == searched(s.clips[i].data) by {}
}

/// A row shows the preview of its entry and is selected where the entry is.
pub proof fn a_row_shows_its_entry(s: State, i: int)
    requires
        0 <= i < s.clips.len(),
    ensures
        s.row(i).id == s.clips[i].id,
        s.row(i).preview == s.clips[i].preview,
        s.row(i).selected <==> s.selected == Some(s.clips[i].id),
{
}

/// The first entry with the selected id is shown in full: all of its text, or
/// its image, with their size above it.
pub proof fn the_selected_entry_is_shown_in_full(s: State, i: int)
    requires
        0 <= i < s.clips.len(),
        s.selected == Some(s.clips[i].id),
        forall|j: int| 0 <= j < i ==> (#[trigger] s.clips[j]).id != s.clips[i].id,
    ensures
        s.selected_place() == i,
        s.shown() == Some(s.clips[i]),
        match s.clips[i].data {
            ClipContent::Text(t) => {
                &&& body_of(s.clips[i]) == BodyView::Text(t)
                &&& content_meta(s.clips[i].data) == "text · "@ + decimal_digits(t.len())
                    + " chars"@
            },
            ClipContent::Image { width, height, .. } => {
                &&& body_of(s.clips[i]) == BodyView::Image(s.clips[i].id)
                &&& content_meta(s.clips[i].data) == "image · "@ + decimal_digits(width as nat)
                    + "×"@ + decimal_digits(height as nat)
            },
        },
{
    let id = s.clips[i].id;
    lemma_position(s.ids(), id);
    let p = position(s.ids(), id) as int;
    assert(s.ids()[i] == id);
    if p < i {
        assert(s.ids()[p] == s.clips[p].id);
    }
}

/// Nothing is shown in full where no entry has the selected id.
pub proof fn without_a_selected_entry_nothing_is_shown(s: State)
    requires
        forall|j: int| 0 <= j < s.clips.len() ==> s.selected != Some((#[trigger] s.clips[j]).id),
    ensures
        s.shown() is None,
        s.selected_place() >= s.clips.len(),
{
    if let Some(id) = s.selected {
        lemma_position(s.ids(), id);
        let p = position(s.ids(), id) as int;
        if p < s.clips.len() {
            assert(s.ids()[p] == s.clips[p].id);
        }
    }
}

/// A poll interval is between a tenth of a second and ten seconds, and half a
/// second until the user sets another.
pub proof fn poll_intervals_have_bounds()
    ensures
        POLL_INTERVAL_MIN_MS == 100,
        POLL_INTERVAL_MAX_MS == 10_000,
        POLL_INTERVAL_DEFAULT_MS == 500,
{
}

/// The colours of quiet buttons, which open the settings and put them away.
pub proof fn quiet_buttons_are_grey(status: Status)
    ensures
        border_of(ButtonKind::Settings, status) == 0x2e333e,
        border_of(ButtonKind::Cancel, status) == 0x2e333e,
        background_of(ButtonKind::Settings, status) == if status is Hovered {
            0x2a2e38u32
        } else if status is Pressed {
            0x20242cu32
        } else {
            0x22252cu32
        },
        background_of(ButtonKind::Cancel, status) == if status is Hovered {
            0x2a2e38u32
        } else {
            0x22252cu32
        },
{
}

/// The colours of the buttons that copy and save; the former can be disabled.
pub proof fn main_buttons_are_blue(status: Status)
    ensures
        border_of(ButtonKind::Save, status) == 0x5c82d6,
        background_of(ButtonKind::Save, status) == if status is Hovered {
            0x3b5ba9u32
        } else if status is Pressed {
            0x304a90u32
        } else {
            0x2b3655u32
        },
        status !is Disabled ==> background_of(ButtonKind::Copy, status) == background_of(
            ButtonKind::Save,
            status,
        ) && border_of(ButtonKind::Copy, status) == border_of(ButtonKind::Save, status),
        status is Disabled ==> background_of(ButtonKind::Copy, status) == 0x232730 && border_of(
            ButtonKind::Copy,
            status,
        ) == 0x2e333e,
{
}

/// The colours of the buttons that delete: red all the time for everything, and
/// for one entry under the pointer alone.
pub proof fn deleting_buttons_are_red(status: Status)
    ensures
        border_of(ButtonKind::DeleteAll, status) == 0xd85a5a,
        background_of(ButtonKind::DeleteAll, status) == if status is Hovered {
            0xb53a3au32
        } else if status is Pressed {
            0x8f2828u32
        } else {
            0x7a2a2au32
        },
        status is Hovered || status is Pressed ==> background_of(ButtonKind::Remove, status)
            == background_of(ButtonKind::DeleteAll, status),
        border_of(ButtonKind::Remove, status) == if status is Hovered {
            0xd85a5au32
        } else if status is Pressed {
            0xb53a3au32
        } else {
            0x252831u32
        },
        status is Active || status is Disabled ==> background_of(ButtonKind::Remove, status)
            == 0x1b1d23,
{
}

/// A selected row is blue whatever the pointer does; another one is grey, and
/// lighter under the pointer.
pub proof fn the_selected_row_is_blue(status: Status)
    ensures
        background_of(ButtonKind::Row { selected: true }, status) == 0x3b5ba9,
        border_of(ButtonKind::Row { selected: true }, status) == 0x5c82d6,
        background_of(ButtonKind::Row { selected: false }, status) == if status is Hovered {
            0x232730u32
        } else {
            0x1b1d23u32
        },
        border_of(ButtonKind::Row { selected: false }, status) == if status is Hovered {
            0x2e333eu32
        } else {
            0x252831u32
        },
{
}

} // verus!
