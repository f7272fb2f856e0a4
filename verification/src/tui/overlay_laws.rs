//! What holds of the keys in the filter overlay.

use super::app::AppView;
use super::keys::{KeyCode, KeyEvent};
use super::key_laws::turned_around;
use super::laws::{chosen_order, lemma_chosen_first, lemma_filter_lists_matches, offers};
use super::list_laws::{filtered_anew, lemma_filtering_anew};
use super::listing::OverlayFilteredView;
use super::matching::{may_match, text_matches};
use super::overlay::{
    dir_filter_edited, dirs_listed, host_filter_edited, hosts_listed, item_toggled, overlay_action,
    overlay_handled, time_edited, typed_edit, OverlayAction, OverlayFocus, OverlayRightFocus,
    TimeField,
};
use super::results::RequestView;
use crate::text::{
    lemma_arrows, lemma_backspace, lemma_delete, lemma_ends_of_line, lemma_typing, trimmed, TextEdit,
};
use vstd::prelude::*;
use vstd::utf8::encode_utf8;

verus! {

/// Whether all names are offered, each once: the chosen ones first, and otherwise in the order in
/// which they became known; without a match.
pub open spec fn all_offered(
    names: Seq<Seq<char>>,
    chosen: Set<Seq<char>>,
    items: Seq<OverlayFilteredView>,
) -> bool {
    &&& forall|i: int| 0 <= i < names.len() ==> #[trigger] offers(items, i)
    &&& forall|k: int| #![trigger items[k]]
        0 <= k < items.len() ==> items[k].idx < names.len() && items[k].match_indices.len() == 0
    &&& forall|k: int, l: int| #![trigger items[k], items[l]]
        0 <= k < l < items.len() ==> {
            let a = chosen.contains(names[items[k].idx as int]);
            let b = chosen.contains(names[items[l].idx as int]);
            items[k].idx != items[l].idx && (b ==> a) && (a == b ==> items[k].idx < items[l].idx)
        }
}

/// Whether exactly the names that a filter matches are offered, each once, with positions that a
/// match may have, and none before a better match.
pub open spec fn matches_offered(
    filter: Seq<char>,
    names: Seq<Seq<char>>,
    items: Seq<OverlayFilteredView>,
) -> bool {
    &&& forall|i: int| #![trigger names[i]]
        0 <= i < names.len() ==> (text_matches(filter, names[i]) <==> offers(items, i))
    &&& forall|k: int| #![trigger items[k]] 0 <= k < items.len() ==> items[k].idx < names.len()
    &&& forall|k: int, l: int| #![trigger items[k], items[l]]
        0 <= k < l < items.len() ==> items[k].idx != items[l].idx
    &&& exists|ranks: Seq<super::filter::Rank>| #[trigger] ranked_as(filter, names, items, ranks)
}

/// Whether the offered names may have been matched with these ranks, and come in their order: the
/// higher score first, then the earlier begin, then the earlier end, then the name that became known
/// earlier.
pub open spec fn ranked_as(
    filter: Seq<char>,
    names: Seq<Seq<char>>,
    items: Seq<OverlayFilteredView>,
    ranks: Seq<super::filter::Rank>,
) -> bool {
    &&& ranks.len() == items.len()
    &&& forall|k: int| #![trigger items[k]]
        0 <= k < items.len() ==> may_match(
            filter,
            names[items[k].idx as int],
            items[k].match_indices,
            ranks[k],
        )
    &&& forall|k: int, l: int| #![trigger ranks[k], ranks[l]]
        0 <= k < l < items.len() ==> {
            let (a, b) = (ranks[k], ranks[l]);
            ||| a.score > b.score
            ||| a.score == b.score && a.begin < b.begin
            ||| a.score == b.score && a.begin == b.begin && a.end < b.end
            ||| a.score == b.score && a.begin == b.begin && a.end == b.end && items[k].idx
                < items[l].idx
        }
}

/// Whether what is offered follows the filter: all names without one, its matches with one.
pub open spec fn offered(
    filter: Seq<char>,
    names: Seq<Seq<char>>,
    chosen: Set<Seq<char>>,
    items: Seq<OverlayFilteredView>,
) -> bool {
    if trimmed(filter).len() == 0 {
        all_offered(names, chosen, items)
    } else {
        matches_offered(trimmed(filter), names, items)
    }
}

proof fn lemma_chosen_in_range(
    names: Seq<Seq<char>>,
    chosen: Set<Seq<char>>,
    wanted: bool,
    end: int,
)
    requires
        0 <= end <= names.len() <= usize::MAX,
    ensures
        ({
            let items = super::listing::chosen_items(names, chosen, wanted, end);
            forall|k: int| #![trigger items[k]]
                0 <= k < items.len() ==> items[k].idx < end && items[k].match_indices.len() == 0
        }),
    decreases end,
{
    if end > 0 {
        lemma_chosen_in_range(names, chosen, wanted, end - 1);
        let items = super::listing::chosen_items(names, chosen, wanted, end);
        let rest = super::listing::chosen_items(names, chosen, wanted, end - 1);
        assert forall|k: int| #![trigger items[k]] 0 <= k < items.len() implies items[k].idx < end
            && items[k].match_indices.len() == 0 by {
            if k < rest.len() {
                assert(items[k] == rest[k]);
            }
        }
    }
}

/// The overlay offers what its filter says.
pub proof fn lemma_offering(
    filter: Seq<char>,
    names: Seq<Seq<char>>,
    chosen: Set<Seq<char>>,
    items: Seq<OverlayFilteredView>,
)
    requires
        super::listing::overlay_listing(filter, names, chosen, items),
        names.len() <= usize::MAX,
    ensures
        offered(filter, names, chosen, items),
{
    if trimmed(filter).len() == 0 {
        lemma_chosen_first(names, chosen, items);
        let n = names.len() as int;
        lemma_chosen_in_range(names, chosen, true, n);
        lemma_chosen_in_range(names, chosen, false, n);
        let on = super::listing::chosen_items(names, chosen, true, n);
        let off = super::listing::chosen_items(names, chosen, false, n);
        assert forall|k: int| #![trigger items[k]] 0 <= k < items.len() implies items[k].idx
            < names.len() && items[k].match_indices.len() == 0 by {
            if k < on.len() {
                assert(items[k] == on[k]);
            } else {
                assert(items[k] == off[k - on.len()]);
            }
        }
        assert forall|k: int, l: int| #![trigger items[k], items[l]]
            0 <= k < l < items.len() implies {
            let a = chosen.contains(names[items[k].idx as int]);
            let b = chosen.contains(names[items[l].idx as int]);
            items[k].idx != items[l].idx && (b ==> a) && (a == b ==> items[k].idx < items[l].idx)
        } by {
            assert(chosen_order(names, chosen, items[k].idx as int, items[l].idx as int));
        }
    } else {
        lemma_filter_lists_matches(filter, names, chosen, items);
        let found = choose|found: Seq<Option<super::matching::TextMatchView>>|
            #[trigger] super::matching::matched(trimmed(filter), names, found)
                && super::listing::ranked_listing(found, items);
        let ranks = Seq::new(items.len(), |k: int| found[items[k].idx as int]->0.rank);
        assert forall|k: int| #![trigger items[k]] 0 <= k < items.len() implies may_match(
            trimmed(filter),
            names[items[k].idx as int],
            items[k].match_indices,
            ranks[k],
        ) by {
            assert(found[items[k].idx as int] is Some);
        }
        assert forall|k: int, l: int| #![trigger ranks[k], ranks[l]]
            0 <= k < l < items.len() implies {
            let (a, b) = (ranks[k], ranks[l]);
            ||| a.score > b.score
            ||| a.score == b.score && a.begin < b.begin
            ||| a.score == b.score && a.begin == b.begin && a.end < b.end
            ||| a.score == b.score && a.begin == b.begin && a.end == b.end && items[k].idx
                < items[l].idx
        } by {
            assert(super::listing::listed_before(found, items[k].idx as int, items[l].idx as int));
        }
        assert(ranked_as(trimmed(filter), names, items, ranks));
    }
}

/// Listing the hosts anew offers what the host filter says and selects the first; nothing else
/// changes.
pub proof fn lemma_listing_hosts(s: AppView, t: AppView)
    requires
        hosts_listed(s, t),
        s.all_hosts.len() <= usize::MAX,
    ensures
        offered(s.overlay_host_filter, s.all_hosts, s.selected_hosts, t.overlay_host_filtered),
        t.overlay_host_selected == 0,
        t == (AppView {
            overlay_host_filtered: t.overlay_host_filtered,
            overlay_host_selected: t.overlay_host_selected,
            ..s
        }),
{
    lemma_offering(s.overlay_host_filter, s.all_hosts, s.selected_hosts, t.overlay_host_filtered);
}

/// Listing the directories anew offers what the directory filter says and selects the first; nothing
/// else changes.
pub proof fn lemma_listing_dirs(s: AppView, t: AppView)
    requires
        dirs_listed(s, t),
        s.all_dirs.len() <= usize::MAX,
    ensures
        offered(s.overlay_dir_filter, s.all_dirs, s.selected_dirs, t.overlay_dir_filtered),
        t.overlay_dir_selected == 0,
        t == (AppView {
            overlay_dir_filtered: t.overlay_dir_filtered,
            overlay_dir_selected: t.overlay_dir_selected,
            ..s
        }),
{
    lemma_offering(s.overlay_dir_filter, s.all_dirs, s.selected_dirs, t.overlay_dir_filtered);
}

proof fn lemma_nothing_to_trim(s: Seq<char>)
    requires
        s.len() == 0,
    ensures
        trimmed(s).len() == 0,
{
    crate::text::lemma_trimmed_is_core(s);
}

pub(crate) proof fn lemma_hosts_offered_all(s: AppView, t: AppView)
    requires
        hosts_listed(s, t),
        s.overlay_host_filter.len() == 0,
        s.all_hosts.len() <= usize::MAX,
    ensures
        all_offered(s.all_hosts, s.selected_hosts, t.overlay_host_filtered),
{
    lemma_listing_hosts(s, t);
    lemma_nothing_to_trim(s.overlay_host_filter);
}

pub(crate) proof fn lemma_dirs_offered_all(s: AppView, t: AppView)
    requires
        dirs_listed(s, t),
        s.overlay_dir_filter.len() == 0,
        s.all_dirs.len() <= usize::MAX,
    ensures
        all_offered(s.all_dirs, s.selected_dirs, t.overlay_dir_filtered),
{
    lemma_listing_dirs(s, t);
    lemma_nothing_to_trim(s.overlay_dir_filter);
}

/// Escape and control-F close the overlay, from wherever they are pressed; nothing else changes.
pub proof fn lemma_closing(s: AppView, key: KeyEvent, t: AppView, request: Option<RequestView>)
    requires
        overlay_handled(s, key, t, request),
        key.code == KeyCode::Esc || key.code == KeyCode::Char('f') && key.ctrl,
    ensures
        request is None,
        !t.show_overlay,
        t == (AppView { show_overlay: t.show_overlay, ..s }),
{
}

/// Tab, in either direction, goes to the other side; on the way to the right it goes to the filter
/// of a page that has one. Enter on the left side does the same. Nothing else changes.
pub proof fn lemma_changing_sides(s: AppView, key: KeyEvent, t: AppView, request: Option<RequestView>)
    requires
        overlay_handled(s, key, t, request),
        key.code == KeyCode::Tab || key.code == KeyCode::BackTab || key.code == KeyCode::Enter
            && s.overlay_focus == OverlayFocus::Left,
    ensures
        request is None,
        t.overlay_focus != s.overlay_focus,
        s.overlay_focus == OverlayFocus::Left && s.overlay_active_item != 2
            ==> t.overlay_right_subfocus == OverlayRightFocus::Filter,
        s.overlay_focus == OverlayFocus::Right || s.overlay_active_item == 2
            ==> t.overlay_right_subfocus == s.overlay_right_subfocus,
        t == (AppView {
            overlay_focus: t.overlay_focus,
            overlay_right_subfocus: t.overlay_right_subfocus,
            ..s
        }),
{
}

/// Up and Down on the left side go through the three pages, one by one, and stop at the first and at
/// the last. A page that is newly reached begins with its filter. Nothing else changes.
pub proof fn lemma_changing_pages(s: AppView, key: KeyEvent, t: AppView, request: Option<RequestView>)
    requires
        overlay_handled(s, key, t, request),
        key.code == KeyCode::Up || key.code == KeyCode::Down,
        s.overlay_focus == OverlayFocus::Left,
        s.overlay_active_item <= 2,
    ensures
        request is None,
        key.code == KeyCode::Down && s.overlay_active_item < 2 ==> t.overlay_active_item
            == s.overlay_active_item + 1,
        key.code == KeyCode::Up && s.overlay_active_item > 0 ==> t.overlay_active_item
            == s.overlay_active_item - 1,
        key.code == KeyCode::Down && s.overlay_active_item == 2 ==> t == s,
        key.code == KeyCode::Up && s.overlay_active_item == 0 ==> t == s,
        t.overlay_active_item != s.overlay_active_item ==> t.overlay_right_subfocus
            == OverlayRightFocus::Filter,
        t == (AppView {
            overlay_active_item: t.overlay_active_item,
            overlay_right_subfocus: t.overlay_right_subfocus,
            ..s
        }),
{
}

/// Down in the list of hosts goes one row further wherever a host is listed below the selected one,
/// and Up one row back wherever there is one above, whatever the directories are; nothing else
/// changes.
#[verifier::rlimit(40)]
pub proof fn lemma_moving_through_hosts(
    s: AppView,
    key: KeyEvent,
    t: AppView,
    request: Option<RequestView>,
)
    requires
        overlay_handled(s, key, t, request),
        key.code == KeyCode::Up || key.code == KeyCode::Down,
        s.overlay_focus == OverlayFocus::Right,
        s.overlay_active_item == 0,
        s.overlay_host_filtered.len() <= usize::MAX,
    ensures
        request is None,
        t == (AppView { overlay_host_selected: t.overlay_host_selected, ..s }),
        key.code == KeyCode::Down && s.overlay_host_selected + 1 < s.overlay_host_filtered.len()
            ==> t.overlay_host_selected == s.overlay_host_selected + 1,
        key.code == KeyCode::Down && s.overlay_host_selected + 1 >= s.overlay_host_filtered.len()
            ==> t == s,
        key.code == KeyCode::Up && s.overlay_host_selected > 0 ==> t.overlay_host_selected
            == s.overlay_host_selected - 1,
        key.code == KeyCode::Up && s.overlay_host_selected == 0 ==> t == s,
{
}

/// Down in the list of directories goes one row further wherever a directory is listed below the
/// selected one, and Up one row back wherever there is one above, whatever the hosts are; nothing
/// else changes.
#[verifier::rlimit(40)]
pub proof fn lemma_moving_through_dirs(
    s: AppView,
    key: KeyEvent,
    t: AppView,
    request: Option<RequestView>,
)
    requires
        overlay_handled(s, key, t, request),
        key.code == KeyCode::Up || key.code == KeyCode::Down,
        s.overlay_focus == OverlayFocus::Right,
        s.overlay_active_item == 1,
        s.overlay_dir_filtered.len() <= usize::MAX,
    ensures
        request is None,
        t == (AppView { overlay_dir_selected: t.overlay_dir_selected, ..s }),
        key.code == KeyCode::Down && s.overlay_dir_selected + 1 < s.overlay_dir_filtered.len()
            ==> t.overlay_dir_selected == s.overlay_dir_selected + 1,
        key.code == KeyCode::Down && s.overlay_dir_selected + 1 >= s.overlay_dir_filtered.len()
            ==> t == s,
        key.code == KeyCode::Up && s.overlay_dir_selected > 0 ==> t.overlay_dir_selected
            == s.overlay_dir_selected - 1,
        key.code == KeyCode::Up && s.overlay_dir_selected == 0 ==> t == s,
{
}

/// Down and then Up comes back to the same row of hosts or directories.
#[verifier::rlimit(40)]
pub proof fn lemma_down_and_up(
    s: AppView,
    down: KeyEvent,
    m: AppView,
    up: KeyEvent,
    t: AppView,
)
    requires
        overlay_handled(s, down, m, None),
        overlay_handled(m, up, t, None),
        down.code == KeyCode::Down,
        up.code == KeyCode::Up,
        s.overlay_focus == OverlayFocus::Right,
        s.overlay_active_item == 0 && s.overlay_host_selected + 1 < s.overlay_host_filtered.len()
            <= usize::MAX || s.overlay_active_item == 1 && s.overlay_dir_selected + 1
            < s.overlay_dir_filtered.len() <= usize::MAX,
    ensures
        t == s,
        m != s,
{
}

/// On the page of the time range Up goes to its end and Down to its start, and Enter to the other of
/// the two; nothing else changes.
pub proof fn lemma_changing_time_fields(
    s: AppView,
    key: KeyEvent,
    t: AppView,
    request: Option<RequestView>,
)
    requires
        overlay_handled(s, key, t, request),
        s.overlay_focus == OverlayFocus::Right,
        s.overlay_active_item == 2,
        key.code == KeyCode::Up || key.code == KeyCode::Down || key.code == KeyCode::Enter,
    ensures
        request is None,
        key.code == KeyCode::Up ==> t.overlay_active_time_field == TimeField::End,
        key.code == KeyCode::Down ==> t.overlay_active_time_field == TimeField::Start,
        key.code == KeyCode::Enter ==> t.overlay_active_time_field != s.overlay_active_time_field,
        t == (AppView { overlay_active_time_field: t.overlay_active_time_field, ..s }),
{
}

/// Enter on the right side turns the filter around for the host or the directory in the selected
/// row, and for no other, and filters anew; without a name in that row nothing happens.
pub proof fn lemma_choosing_names(
    s: AppView,
    key: KeyEvent,
    t: AppView,
    request: Option<RequestView>,
)
    requires
        overlay_handled(s, key, t, request),
        key.code == KeyCode::Enter,
        s.overlay_focus == OverlayFocus::Right,
        s.overlay_active_item == 0 || s.overlay_active_item == 1,
        s.entries.len() < usize::MAX,
    ensures
        ({
            let hosts = s.overlay_active_item == 0;
            let items = if hosts { s.overlay_host_filtered } else { s.overlay_dir_filtered };
            let at = if hosts { s.overlay_host_selected } else { s.overlay_dir_selected };
            let names = if hosts { s.all_hosts } else { s.all_dirs };
            if at < items.len() && items[at as int].idx < names.len() {
                let name = names[items[at as int].idx as int];
                exists|u: AppView| #[trigger]
                    filtered_anew(u, t, request) && if hosts {
                        &&& turned_around(s.selected_hosts, u.selected_hosts, name)
                        &&& u == (AppView { selected_hosts: u.selected_hosts, ..s })
                    } else {
                        &&& turned_around(s.selected_dirs, u.selected_dirs, name)
                        &&& u == (AppView { selected_dirs: u.selected_dirs, ..s })
                    }
            } else {
                t == s && request is None
            }
        }),
{
    if let Some(u) = item_toggled(s) {
        assert(overlay_action(s, key) == OverlayAction::Toggle);
        lemma_filtering_anew(u, t, request);
        assert(filtered_anew(u, t, request));
    }
}

/// The text of the overlay that keys are typed into: an end of the time range, or the filter of the
/// hosts or of the directories; and where its cursor is.
pub open spec fn typed_text(s: AppView) -> (Seq<char>, usize) {
    if s.overlay_active_item == 2 {
        if s.overlay_active_time_field == TimeField::Start {
            (s.overlay_start_time, s.overlay_start_cursor)
        } else {
            (s.overlay_end_time, s.overlay_end_cursor)
        }
    } else if s.overlay_active_item == 1 {
        (s.overlay_dir_filter, s.overlay_dir_filter_cursor)
    } else {
        (s.overlay_host_filter, s.overlay_host_filter_cursor)
    }
}

/// The state with another text and cursor in place of the one that keys are typed into.
pub open spec fn with_typed_text(s: AppView, text: Seq<char>, at: usize) -> AppView {
    if s.overlay_active_item == 2 {
        if s.overlay_active_time_field == TimeField::Start {
            AppView { overlay_start_time: text, overlay_start_cursor: at, ..s }
        } else {
            AppView { overlay_end_time: text, overlay_end_cursor: at, ..s }
        }
    } else if s.overlay_active_item == 1 {
        AppView { overlay_dir_filter: text, overlay_dir_filter_cursor: at, ..s }
    } else {
        AppView { overlay_host_filter: text, overlay_host_filter_cursor: at, ..s }
    }
}

/// Whether a text of the overlay has been replaced by another one, as it should. A new end of the
/// time range filters the listing anew; a new filter of hosts or directories changes what the page
/// offers, and asks for no search.
pub open spec fn text_replaced(
    s: AppView,
    text: Seq<char>,
    at: int,
    t: AppView,
    request: Option<RequestView>,
) -> bool {
    let u = with_typed_text(s, text, at as usize);
    if s.overlay_active_item == 2 {
        filtered_anew(u, t, request)
    } else if s.overlay_active_item == 1 {
        &&& request is None
        &&& offered(text, s.all_dirs, s.selected_dirs, t.overlay_dir_filtered)
        &&& t.overlay_dir_selected == 0
        &&& t == (AppView {
            overlay_dir_filtered: t.overlay_dir_filtered,
            overlay_dir_selected: t.overlay_dir_selected,
            ..u
        })
    } else {
        &&& request is None
        &&& offered(text, s.all_hosts, s.selected_hosts, t.overlay_host_filtered)
        &&& t.overlay_host_selected == 0
        &&& t == (AppView {
            overlay_host_filtered: t.overlay_host_filtered,
            overlay_host_selected: t.overlay_host_selected,
            ..u
        })
    }
}

/// Whether keys are typed into a text of the overlay: on its right side, into the time range or into
/// the filter of a page that is in use.
pub open spec fn takes_typing(s: AppView) -> bool {
    &&& s.overlay_focus == OverlayFocus::Right
    &&& s.overlay_active_item == 2 || s.overlay_active_item < 2 && s.overlay_right_subfocus
        == OverlayRightFocus::Filter
}

spec fn edited_text(s: AppView, edit: TextEdit) -> (AppView, bool) {
    if s.overlay_active_item == 2 {
        time_edited(s, edit)
    } else if s.overlay_active_item == 1 {
        dir_filter_edited(s, edit)
    } else {
        host_filter_edited(s, edit)
    }
}

#[verifier::rlimit(40)]
proof fn lemma_typed(
    s: AppView,
    key: KeyEvent,
    edit: TextEdit,
    t: AppView,
    request: Option<RequestView>,
)
    requires
        overlay_handled(s, key, t, request),
        takes_typing(s),
        typed_edit(key) == Some(edit),
        overlay_action(s, key) is TypeTime || overlay_action(s, key) is TypeFilter,
        s.entries.len() < usize::MAX,
        s.all_hosts.len() <= usize::MAX,
        s.all_dirs.len() <= usize::MAX,
    ensures
        ({
            let (text, at, changed) = crate::text::edited(
                typed_text(s).0,
                typed_text(s).1 as int,
                edit,
            );
            if changed {
                text_replaced(s, text, at, t, request)
            } else {
                t == with_typed_text(s, text, at as usize) && request is None
            }
        }),
{
    let (u, changed) = edited_text(s, edit);
    if changed {
        if s.overlay_active_item == 2 {
            lemma_filtering_anew(u, t, request);
        } else if s.overlay_active_item == 1 {
            lemma_listing_dirs(u, t);
        } else {
            lemma_listing_hosts(u, t);
        }
    }
}

/// Typing a character into a text of the overlay puts it where the cursor is. A space is typed into
/// the time range only, and control-U does not type.
pub proof fn lemma_typing_in_overlay(
    s: AppView,
    before: Seq<char>,
    after: Seq<char>,
    c: char,
    key: KeyEvent,
    t: AppView,
    request: Option<RequestView>,
)
    requires
        overlay_handled(s, key, t, request),
        takes_typing(s),
        key.code == KeyCode::Char(c),
        !(key.ctrl && (c == 'f' || c == 'u')),
        c != ' ' || s.overlay_active_item == 2,
        typed_text(s) == (before + after, encode_utf8(before).len() as usize),
        encode_utf8(before).len() <= usize::MAX,
        s.entries.len() < usize::MAX,
        s.all_hosts.len() <= usize::MAX,
        s.all_dirs.len() <= usize::MAX,
    ensures
        text_replaced(
            s,
            before + seq![c] + after,
            encode_utf8(before + seq![c]).len() as int,
            t,
            request,
        ),
{
    lemma_typing(before, after, c);
    lemma_typed(s, key, TextEdit::Insert(c), t, request);
}

/// Backspace and Delete in a text of the overlay take away the character before and behind the
/// cursor; without such a character nothing happens.
#[verifier::rlimit(40)]
pub proof fn lemma_erasing_in_overlay(
    s: AppView,
    before: Seq<char>,
    x: char,
    after: Seq<char>,
    key: KeyEvent,
    t: AppView,
    request: Option<RequestView>,
)
    requires
        overlay_handled(s, key, t, request),
        takes_typing(s),
        key.code == KeyCode::Backspace || key.code == KeyCode::Delete,
        encode_utf8(before + seq![x]).len() <= usize::MAX,
        encode_utf8(before).len() <= usize::MAX,
        encode_utf8(typed_text(s).0).len() <= usize::MAX,
        s.entries.len() < usize::MAX,
        s.all_hosts.len() <= usize::MAX,
        s.all_dirs.len() <= usize::MAX,
    ensures
        key.code == KeyCode::Backspace && typed_text(s) == (
            before + seq![x] + after,
            encode_utf8(before + seq![x]).len() as usize,
        ) ==> text_replaced(s, before + after, encode_utf8(before).len() as int, t, request),
        key.code == KeyCode::Delete && typed_text(s) == (
            before + seq![x] + after,
            encode_utf8(before).len() as usize,
        ) ==> text_replaced(s, before + after, encode_utf8(before).len() as int, t, request),
        key.code == KeyCode::Backspace && typed_text(s).1 == 0 ==> t == s && request is None,
        key.code == KeyCode::Delete && typed_text(s).1 == encode_utf8(typed_text(s).0).len() ==> t == s
            && request is None,
{
    lemma_backspace(before, x, after);
    lemma_delete(before, x, after);
    lemma_backspace(before, x, typed_text(s).0);
    lemma_delete(typed_text(s).0, x, after);
    if key.code == KeyCode::Backspace {
        lemma_typed(s, key, TextEdit::Backspace, t, request);
    } else {
        lemma_typed(s, key, TextEdit::Delete, t, request);
    }
    assert(with_typed_text(s, typed_text(s).0, typed_text(s).1) =~= s);
}

/// Control-U clears a text of the overlay.
pub proof fn lemma_clearing_in_overlay(
    s: AppView,
    key: KeyEvent,
    t: AppView,
    request: Option<RequestView>,
)
    requires
        overlay_handled(s, key, t, request),
        takes_typing(s),
        key.code == KeyCode::Char('u'),
        key.ctrl,
        s.entries.len() < usize::MAX,
        s.all_hosts.len() <= usize::MAX,
        s.all_dirs.len() <= usize::MAX,
    ensures
        text_replaced(s, Seq::<char>::empty(), 0, t, request),
{
    lemma_ends_of_line(typed_text(s).0, typed_text(s).1 as int);
    lemma_typed(s, key, TextEdit::Clear, t, request);
}

/// The arrows to the left and right, Home and End move the cursor in a text of the overlay; nothing
/// else changes.
#[verifier::rlimit(40)]
pub proof fn lemma_cursor_in_overlay(
    s: AppView,
    before: Seq<char>,
    x: char,
    after: Seq<char>,
    key: KeyEvent,
    t: AppView,
    request: Option<RequestView>,
)
    requires
        overlay_handled(s, key, t, request),
        takes_typing(s),
        key.code == KeyCode::Left || key.code == KeyCode::Right || key.code == KeyCode::Home
            || key.code == KeyCode::End,
        encode_utf8(typed_text(s).0).len() <= usize::MAX,
        s.entries.len() < usize::MAX,
        s.all_hosts.len() <= usize::MAX,
        s.all_dirs.len() <= usize::MAX,
    ensures
        request is None,
        t == with_typed_text(s, typed_text(s).0, typed_text(t).1),
        key.code == KeyCode::Home ==> typed_text(t).1 == 0,
        key.code == KeyCode::End ==> typed_text(t).1 == encode_utf8(typed_text(s).0).len(),
        key.code == KeyCode::Left && typed_text(s).0 == before + seq![x] + after && typed_text(s).1
            == encode_utf8(before + seq![x]).len() ==> typed_text(t).1 == encode_utf8(before).len(),
        key.code == KeyCode::Right && typed_text(s).0 == before + seq![x] + after && typed_text(s).1
            == encode_utf8(before).len() ==> typed_text(t).1 == encode_utf8(before + seq![x]).len(),
        key.code == KeyCode::Left && typed_text(s).1 == 0 ==> t == s,
        key.code == KeyCode::Right && typed_text(s).1 == encode_utf8(typed_text(s).0).len() ==> t == s,
{
    lemma_arrows(before, x, after);
    lemma_ends_of_line(typed_text(s).0, typed_text(s).1 as int);
    crate::text::lemma_encode_concat(before + seq![x], after);
    crate::text::lemma_encode_concat(before, seq![x]);
    if key.code == KeyCode::Left {
        lemma_typed(s, key, TextEdit::Left, t, request);
    } else if key.code == KeyCode::Right {
        lemma_typed(s, key, TextEdit::Right, t, request);
    } else if key.code == KeyCode::Home {
        lemma_typed(s, key, TextEdit::Home, t, request);
    } else {
        lemma_typed(s, key, TextEdit::End, t, request);
    }
    assert(with_typed_text(s, typed_text(s).0, typed_text(s).1) =~= s);
}

/// Where no text takes typing, and for a space in a filter, keys that type do nothing; and neither do
/// the keys that no page knows.
#[verifier::rlimit(40)]
pub proof fn lemma_ignored_in_overlay(
    s: AppView,
    key: KeyEvent,
    t: AppView,
    request: Option<RequestView>,
)
    requires
        overlay_handled(s, key, t, request),
        s.overlay_active_item <= 2,
        key.code == KeyCode::PageUp || key.code == KeyCode::PageDown || key.code == KeyCode::Other || (
        key.code == KeyCode::Char(' ') && s.overlay_active_item < 2) || !takes_typing(s) && (key.code
            is Char && !(key.code == KeyCode::Char('f') && key.ctrl) || key.code
            == KeyCode::Backspace || key.code == KeyCode::Delete || key.code == KeyCode::Left
            || key.code == KeyCode::Right || key.code == KeyCode::Home || key.code == KeyCode::End),
    ensures
        t == s,
        request is None,
{
}

} // verus!
