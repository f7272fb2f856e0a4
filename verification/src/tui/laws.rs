//! What holds of the browser as a whole.

use super::app::{clamped, is_found_in, moved, restored, scrolled, topped_up, total, AppView};
use super::draw::{DrawView, Rect};
use super::filter::{accepts, lemma_none_accepts_all, no_criteria, CriteriaView, FilteredView};
use super::heap::is_preview;
use super::keys::{
    action, asked_search, facet_toggled, handled, input_edited, Action, EffectView, KeyCode,
    KeyEvent,
};
use super::listing::{
    chosen_first, chosen_items, listed_before, overlay_listing, ranked_listing,
    OverlayFilteredView,
};
use super::loading::{
    chunks_loaded, dirs_of, extended, followed, hosts_of, joined, lemma_with_new_complete, loaded,
    named,
};
use super::matching::{matched, text_matches, TextMatchView};
use super::overlay::{item_toggled, overlay_handled, time_edited, typed_edit};
use super::panes::{first_visible, screen_drawn, screen_drawn_in};
use super::render::{list_and_details_drawn, list_and_details_drawn_in, list_drawn, list_drawn_in};
use super::results::{
    checked, has_batch, listed, may_refilter, next_token, no_query, preview_len,
    received, received_all, refiltered, relisted, RequestView,
};
use super::search::MessageView;
use crate::db::HistoryEntry;
use crate::text::{is_white_space, lemma_trimmed_blanks, trimmed};
use vstd::multiset::Multiset;
use vstd::prelude::*;

verus! {

broadcast use {
    vstd::seq_lib::group_to_multiset_ensures,
    vstd::multiset::group_multiset_axioms,
};

/// The selection never leaves the results: where there are any, it is one of them.
pub proof fn lemma_clamped_in_range(s: AppView)
    ensures
        total(s) > 0 ==> clamped(s).selected < total(s),
        total(s) == 0 ==> clamped(s).selected == 0,
        total(clamped(s)) == total(s),
        s.selected < total(s) ==> clamped(s).selected == s.selected,
{
}

/// Moving the selection stays within the results too.
pub proof fn lemma_moved_in_range(s: AppView, delta: int)
    ensures
        total(s) > 0 ==> moved(s, delta).selected < total(s),
        total(moved(s, delta)) == total(s),
{
}

/// The selected row is on the screen, wherever the list has a row and its first row can be
/// counted in 16 bits.
pub proof fn lemma_selection_visible(selected: int, scroll: u16, height: u16)
    requires
        selected >= 0,
        height >= 1,
        selected - height + 1 <= 65535,
    ensures
        scrolled(selected, scroll, height) <= selected < scrolled(selected, scroll, height)
            + height,
{
}

/// Moving one row down and one row up again selects the same result, unless it is the last.
pub proof fn lemma_down_then_up(s: AppView)
    requires
        s.selected + 1 < total(s),
    ensures
        moved(moved(s, 1), -1).selected == s.selected,
{
}

/// The selected item of a page in the overlay is on the screen, wherever the page has a row for
/// items.
pub proof fn lemma_item_visible(selected: int, visible: int)
    requires
        0 <= selected,
        visible >= 1,
    ensures
        first_visible(selected, visible) <= selected < first_visible(selected, visible) + visible,
{
}

/// Listing in pieces gives the same as listing at once.
pub proof fn lemma_listed_pieces(
    entries: Seq<HistoryEntry>,
    a: int,
    b: int,
    end: int,
    c: CriteriaView,
)
    requires
        a <= b <= end,
    ensures
        listed(entries, a, b, c) + listed(entries, b, end, c) == listed(entries, a, end, c),
    decreases end - b,
{
    if b < end {
        lemma_listed_pieces(entries, a, b, end - 1, c);
        assert(listed(entries, a, b, c) + listed(entries, b, end, c) =~= listed(
            entries,
            a,
            end,
            c,
        ));
    } else {
        assert(listed(entries, a, b, c) + listed(entries, b, end, c) =~= listed(
            entries,
            a,
            end,
            c,
        ));
    }
}

/// What is listed depends on the entries in the range alone.
pub proof fn lemma_listed_prefix(
    entries: Seq<HistoryEntry>,
    more: Seq<HistoryEntry>,
    start: int,
    end: int,
    c: CriteriaView,
)
    requires
        0 <= start,
        end <= entries.len(),
    ensures
        listed(entries + more, start, end, c) == listed(entries, start, end, c),
    decreases end - start,
{
    if start < end {
        lemma_listed_prefix(entries, more, start, end - 1, c);
    }
}

/// Without a query the list holds exactly the entries that meet the criteria, in order.
pub proof fn lemma_listed_exact(
    entries: Seq<HistoryEntry>,
    start: int,
    end: int,
    c: CriteriaView,
)
    requires
        0 <= start <= end <= entries.len(),
        entries.len() <= usize::MAX,
    ensures
        ({
            let list = listed(entries, start, end, c);
            &&& forall|k: int| #![trigger list[k]]
                0 <= k < list.len() ==> start <= list[k].idx < end && accepts(
                    c,
                    entries[list[k].idx as int],
                ) && list[k].start_time == entries[list[k].idx as int].start_time
            &&& forall|k: int, l: int| 0 <= k < l < list.len() ==> list[k].idx < list[l].idx
            &&& forall|i: int| #![trigger entries[i]]
                start <= i < end && accepts(c, entries[i]) ==> exists|k: int|
                    0 <= k < list.len() && #[trigger] list[k].idx == i
        }),
    decreases end - start,
{
    if start < end {
        lemma_listed_exact(entries, start, end - 1, c);
        let list = listed(entries, start, end, c);
        let rest = listed(entries, start, end - 1, c);
        assert forall|i: int| #![trigger entries[i]]
            start <= i < end && accepts(c, entries[i]) implies exists|k: int|
            0 <= k < list.len() && #[trigger] list[k].idx == i by {
            if i < end - 1 {
                let k = choose|k: int| 0 <= k < rest.len() && #[trigger] rest[k].idx == i;
                assert(list[k] == rest[k]);
            } else {
                assert(list[rest.len() as int].idx == i);
            }
        }
    }
}

/// A list without query and criteria holds every entry, in order.
pub proof fn lemma_all_listed(entries: Seq<HistoryEntry>, end: int)
    requires
        0 <= end <= entries.len(),
        entries.len() <= usize::MAX,
    ensures
        listed(entries, 0, end, no_criteria()).len() == end,
        forall|k: int| #![trigger listed(entries, 0, end, no_criteria())[k]]
            0 <= k < end ==> listed(entries, 0, end, no_criteria())[k].idx == k,
    decreases end,
{
    if end > 0 {
        lemma_all_listed(entries, end - 1);
        lemma_none_accepts_all(entries[end - 1]);
        let list = listed(entries, 0, end, no_criteria());
        let rest = listed(entries, 0, end - 1, no_criteria());
        assert forall|k: int| #![trigger list[k]] 0 <= k < end implies list[k].idx == k by {
            if k < end - 1 {
                assert(list[k] == rest[k]);
            }
        }
    }
}

/// A list that grows with the chunks that come in is the list of all entries, as long as there
/// is no query and the criteria stay the same.
pub proof fn lemma_list_follows_history(
    s: AppView,
    chunks: Seq<Vec<HistoryEntry>>,
    disconnected: bool,
    c: CriteriaView,
)
    requires
        s.filtered == listed(s.entries, 0, s.entries.len() as int, c),
    ensures
        ({
            let u = loaded(s, chunks, disconnected);
            u.filtered + listed(u.entries, s.entries.len() as int, u.entries.len() as int, c)
                == listed(u.entries, 0, u.entries.len() as int, c)
        }),
{
    let n = s.entries.len() as int;
    let u = loaded(s, chunks, disconnected);
    lemma_listed_prefix(s.entries, joined(chunks), 0, n, c);
    lemma_listed_pieces(u.entries, 0, n, u.entries.len() as int, c);
}

/// A search that is started gets a token that the one before did not have.
pub proof fn lemma_new_token(
    s: AppView,
    t: AppView,
    request: Option<RequestView>,
)
    requires
        may_refilter(s, t, request),
    ensures
        t.filter_token == next_token(s.filter_token),
        t.filter_token != s.filter_token,
        request matches Some(r) ==> r.token == t.filter_token,
        request is None <==> no_query(s),
{
}

/// Results of an older search change nothing, whenever they come.
pub proof fn lemma_stale_ignored(s: AppView, msgs: Seq<MessageView>, t: AppView)
    requires
        checked(s, msgs, t),
        forall|i: int| #![trigger msgs[i]]
            0 <= i < msgs.len() ==> match msgs[i] {
                MessageView::Batch(token, _) => token != s.filter_token,
                MessageView::Done(token) => token != s.filter_token,
            },
    ensures
        t == s,
{
    let m = choose|m: AppView| #[trigger] received_all(s, msgs, m) && if has_batch(
        s.filter_token,
        msgs,
    ) && !m.filter_done {
        exists|top: Seq<FilteredView>| #[trigger]
            is_preview(
                m.heap,
                preview_len(m.list_height),
                top,
            ) && t == clamped(AppView { filtered: top, ..m })
    } else {
        t == m
    };
    lemma_stale_received(s, msgs, m);
    assert(!has_batch(s.filter_token, msgs));
}

proof fn lemma_stale_received(s: AppView, msgs: Seq<MessageView>, t: AppView)
    requires
        received_all(s, msgs, t),
        forall|i: int| #![trigger msgs[i]]
            0 <= i < msgs.len() ==> match msgs[i] {
                MessageView::Batch(token, _) => token != s.filter_token,
                MessageView::Done(token) => token != s.filter_token,
            },
    ensures
        t == s,
    decreases msgs.len(),
{
    if msgs.len() > 0 {
        let front = msgs.drop_last();
        let m = choose|m: AppView|
            received_all(s, front, m) && #[trigger] received(m, msgs.last(), t);
        assert forall|i: int| #![trigger front[i]] 0 <= i < front.len() implies match front[i] {
            MessageView::Batch(token, _) => token != s.filter_token,
            MessageView::Done(token) => token != s.filter_token,
        } by {
            assert(front[i] == msgs[i]);
        }
        lemma_stale_received(s, front, m);
        assert(msgs[msgs.len() - 1] == msgs.last());
    }
}

/// All results: those that are in the list and those that wait in the heap. While a search runs
/// the heap has all of them, and the list shows copies.
pub open spec fn pool(s: AppView) -> Multiset<FilteredView> {
    if s.filter_done {
        s.filtered.to_multiset().add(s.heap)
    } else {
        s.heap
    }
}

/// Going through the results loses none and lists none twice.
pub proof fn lemma_topped_up_keeps_results(s: AppView, needed: int, t: AppView)
    requires
        topped_up(s, needed, t),
    ensures
        pool(t) == pool(s),
        total(t) == total(s),
        s.filter_done ==> s.filtered.is_prefix_of(t.filtered),
        !s.filter_done ==> t.heap == s.heap,
        !s.filter_done && s.filtered.to_multiset().subset_of(s.heap)
            ==> t.filtered.to_multiset().subset_of(t.heap),
{
    if s.filter_done {
        let taken = t.filtered.skip(s.filtered.len() as int);
        vstd::seq_lib::lemma_multiset_commutative(s.filtered, taken);
        assert(pool(t) =~= pool(s));
        assert(pool(s).len() == s.filtered.len() + s.heap.len());
        assert(pool(t).len() == t.filtered.len() + t.heap.len());
    }
}

/// While a search runs, a list that shows the best results goes on showing the best, and as many
/// as are needed.
pub proof fn lemma_topped_up_shows_best(s: AppView, needed: int, t: AppView)
    requires
        topped_up(s, needed, t),
        !s.filter_done,
        is_preview(s.heap, s.filtered.len() as int, s.filtered),
    ensures
        t.heap == s.heap,
        is_preview(
            t.heap,
            if needed > s.filtered.len() {
                needed
            } else {
                s.filtered.len() as int
            },
            t.filtered,
        ),
{
}

/// Results of a running search that have come in are shown as a list of the best.
pub proof fn lemma_checked_shows_best(s: AppView, msgs: Seq<MessageView>, t: AppView)
    requires
        checked(s, msgs, t),
        has_batch(s.filter_token, msgs),
        !t.filter_done,
    ensures
        is_preview(t.heap, t.filtered.len() as int, t.filtered),
{
}

/// Selecting a remembered entry again loses no result, when no search runs.
pub proof fn lemma_restored_keeps_results(s: AppView, t: AppView)
    requires
        restored(s, t),
        s.filter_done,
    ensures
        pool(t) == pool(s),
        t.filter_token == s.filter_token,
        t.entries == s.entries,
        t.list_height == s.list_height,
        t.filter_done == s.filter_done,
        s.restore_entry_idx is None ==> t == s,
{
    if t.filtered != s.filtered {
        let target = s.restore_entry_idx->0;
        let u = AppView { restore_entry_idx: None, ..s };
        let e = choose|e: FilteredView| #[trigger] is_found_in(s.heap, target, e) && t == (AppView {
            filtered: s.filtered.push(e),
            heap: s.heap.remove(e),
            selected: s.filtered.len() as usize,
            ..u
        });
        assert(pool(t) =~= pool(s));
    }
}

/// The results in the messages of the search with the given token.
pub open spec fn sent(token: u64, msgs: Seq<MessageView>) -> Multiset<FilteredView>
    decreases msgs.len(),
{
    if msgs.len() == 0 {
        Multiset::empty()
    } else {
        let rest = sent(token, msgs.drop_last());
        match msgs.last() {
            MessageView::Batch(t, batch) => if t == token {
                rest.add(batch.to_multiset())
            } else {
                rest
            },
            MessageView::Done(_) => rest,
        }
    }
}

proof fn lemma_batches_received(s: AppView, msgs: Seq<MessageView>, t: AppView)
    requires
        received_all(s, msgs, t),
        forall|i: int| #![trigger msgs[i]] 0 <= i < msgs.len() ==> msgs[i] is Batch,
    ensures
        t == (AppView { heap: s.heap.add(sent(s.filter_token, msgs)), ..s }),
    decreases msgs.len(),
{
    if msgs.len() == 0 {
        assert(s.heap.add(sent(s.filter_token, msgs)) =~= s.heap);
        assert(t =~= (AppView { heap: s.heap.add(sent(s.filter_token, msgs)), ..s }));
    } else {
        let front = msgs.drop_last();
        let m = choose|m: AppView|
            received_all(s, front, m) && #[trigger] received(m, msgs.last(), t);
        assert forall|i: int| #![trigger front[i]] 0 <= i < front.len() implies front[i]
            is Batch by {
            assert(front[i] == msgs[i]);
        }
        lemma_batches_received(s, front, m);
        assert(msgs[msgs.len() - 1] == msgs.last());
        assert(t.heap =~= s.heap.add(sent(s.filter_token, msgs)));
        assert(t =~= (AppView { heap: s.heap.add(sent(s.filter_token, msgs)), ..s }));
    }
}

/// When a search has come to its end, all results that it sent are there, and no others: in the
/// list or in the heap, from where they are taken in order.
pub proof fn lemma_search_results(s: AppView, msgs: Seq<MessageView>, t: AppView)
    requires
        s.heap == Multiset::<FilteredView>::empty(),
        msgs.len() > 0,
        msgs.last() == MessageView::Done(s.filter_token),
        forall|i: int| #![trigger msgs[i]] 0 <= i < msgs.len() - 1 ==> msgs[i] is Batch,
        received_all(s, msgs, t),
    ensures
        t.filter_done,
        pool(t) == sent(s.filter_token, msgs),
{
    let front = msgs.drop_last();
    let m = choose|m: AppView|
        received_all(s, front, m) && #[trigger] received(m, msgs.last(), t);
    assert forall|i: int| #![trigger front[i]] 0 <= i < front.len() implies front[i] is Batch by {
        assert(front[i] == msgs[i]);
    }
    lemma_batches_received(s, front, m);
    let u = AppView { filter_done: true, filtered: seq![], ..m };
    let r = choose|r: AppView| #[trigger] restored(u, r) && t == clamped(r);
    lemma_restored_keeps_results(u, r);
    assert(u.filtered.to_multiset().len() == 0);
    assert(pool(u) =~= sent(s.filter_token, msgs));
}

/// Drawing changes nothing but how many rows fit and which of the results are already listed.
pub proof fn lemma_drawing_keeps_state(
    s: AppView,
    area: Rect,
    t: AppView,
    draws: Option<Seq<DrawView>>,
)
    requires
        screen_drawn(s, area, t, draws),
    ensures
        t == (AppView {
            list_height: t.list_height,
            filtered: t.filtered,
            heap: t.heap,
            ..s
        }),
        pool(t) == pool(s),
        total(t) == total(s),
        s.filter_done ==> s.filtered.is_prefix_of(t.filtered),
        !s.filter_done ==> t.heap == s.heap,
        !s.filter_done && s.filtered.to_multiset().subset_of(s.heap)
            ==> t.filtered.to_multiset().subset_of(t.heap),
{
    let parts = choose|parts: Seq<Rect>| #[trigger] screen_drawn_in(s, area, parts, t, draws);
    let middle = if draws is Some {
        Some(
            choose|middle: Seq<DrawView>| #[trigger]
                list_and_details_drawn(s, parts[1], t, Some(middle)),
        )
    } else {
        None
    };
    assert(list_and_details_drawn(s, parts[1], t, middle));
    let (m, halves) = choose|m: AppView, halves: Seq<Rect>|
        topped_up(s, s.selected + 1, m) && #[trigger] list_and_details_drawn_in(
            m,
            halves,
            t,
            middle,
        );
    lemma_topped_up_keeps_results(s, s.selected + 1, m);
    let list = choose|list: Option<Seq<DrawView>>| list_drawn(m, halves[0], t, list);
    assert(list_drawn(m, halves[0], t, list));
    let rows = choose|rows: Seq<Rect>| #[trigger] list_drawn_in(m, halves[0], rows, t, list);
    let u = AppView { list_height: rows[1].height, ..m };
    let needed = if m.scroll + rows[1].height < total(u) {
        m.scroll + rows[1].height
    } else {
        total(u)
    };
    assert(topped_up(u, needed, t));
    lemma_topped_up_keeps_results(u, needed, t);
    assert(t =~= (AppView {
        list_height: t.list_height,
        filtered: t.filtered,
        heap: t.heap,
        ..s
    }));
}

proof fn lemma_refilter_keeps(s: AppView, t: AppView, request: Option<RequestView>)
    requires
        may_refilter(s, t, request),
    ensures
        t.entries == s.entries,
        t.all_hosts == s.all_hosts,
        t.all_dirs == s.all_dirs,
        t.input == s.input,
        t.selected_hosts == s.selected_hosts,
        t.selected_sessions == s.selected_sessions,
        t.selected_dirs == s.selected_dirs,
        t.running == s.running,
{
    let c = choose|c: CriteriaView| #[trigger] refiltered(s, c, t, request);
    if no_query(s) {
        let m = choose|m: AppView| #[trigger] restored(relisted(s, c), m) && t == clamped(m);
        assert(m.entries == s.entries && m.all_hosts == s.all_hosts && m.all_dirs == s.all_dirs);
    }
}

/// No key changes the history or the names known from it.
pub proof fn lemma_keys_keep_history(s: AppView, key: KeyEvent, t: AppView, effect: EffectView)
    requires
        handled(s, key, t, effect),
    ensures
        t.entries == s.entries,
        t.all_hosts == s.all_hosts,
        t.all_dirs == s.all_dirs,
{
    if key.press && s.show_overlay {
        lemma_overlay_keeps_history(s, key, t, asked_search(effect));
    } else if key.press {
        match action(s, key) {
            Action::Edit(edit) => {
                let (u, changed) = input_edited(s, edit);
                if changed {
                    lemma_refilter_keeps(u, t, asked_search(effect));
                }
            },
            Action::ToggleHost
            | Action::ToggleSession
            | Action::ToggleDir
            | Action::ToggleEntryHost
            | Action::ToggleEntrySession
            | Action::ToggleEntryDir => {
                match facet_toggled(s, action(s, key)) {
                    Some(u) => {
                        lemma_refilter_keeps(u, t, asked_search(effect));
                    },
                    None => {},
                }
            },
            _ => {},
        }
    }
}

#[verifier::rlimit(30)]
proof fn lemma_overlay_keeps_history(
    s: AppView,
    key: KeyEvent,
    t: AppView,
    request: Option<RequestView>,
)
    requires
        overlay_handled(s, key, t, request),
    ensures
        t.entries == s.entries,
        t.all_hosts == s.all_hosts,
        t.all_dirs == s.all_dirs,
{
    match item_toggled(s) {
        Some(u) => {
            if may_refilter(u, t, request) {
                lemma_refilter_keeps(u, t, request);
            }
        },
        None => {},
    }
    match typed_edit(key) {
        Some(edit) => {
            let (u, changed) = time_edited(s, edit);
            if may_refilter(u, t, request) {
                lemma_refilter_keeps(u, t, request);
            }
        },
        None => {},
    }
}

/// Pressing escape in the listing ends the browser; a widget gets back the query that it was
/// started with. In the overlay it only closes the overlay.
pub proof fn lemma_escape(s: AppView, key: KeyEvent, t: AppView, effect: EffectView)
    requires
        handled(s, key, t, effect),
        key.press,
        key.code == KeyCode::Esc,
    ensures
        effect == EffectView::Nothing,
        s.show_overlay ==> t == (AppView { show_overlay: false, ..s }),
        !s.show_overlay ==> !t.running,
        !s.show_overlay && s.widget ==> t.output == s.initial_query,
        !s.show_overlay && !s.widget ==> t.output is None,
{
}

/// Whether the hosts and directories of all entries are known, each once.
pub open spec fn names_known(s: AppView) -> bool {
    &&& forall|i: int| #![trigger s.entries[i]]
        0 <= i < s.entries.len() ==> s.all_hosts.contains(s.entries[i].host@)
            && s.all_dirs.contains(s.entries[i].dir@)
    &&& s.all_hosts.no_duplicates()
    &&& s.all_dirs.no_duplicates()
}

proof fn lemma_named(u: AppView, known: int)
    requires
        0 <= known <= u.entries.len(),
        names_known(AppView { entries: u.entries.take(known), ..u }),
    ensures
        names_known(named(u, known)),
{
    let old_entries = u.entries.take(known);
    let new = u.entries.skip(known);
    let v = named(u, known);
    let n = new.len() as int;
    lemma_with_new_complete(u.all_hosts, hosts_of(new), n);
    lemma_with_new_complete(u.all_dirs, dirs_of(new), n);
    assert forall|i: int| #![trigger v.entries[i]] 0 <= i < v.entries.len() implies v.all_hosts.contains(
        v.entries[i].host@,
    ) && v.all_dirs.contains(v.entries[i].dir@) by {
        let e = v.entries[i];
        if i < known {
            assert(old_entries[i] == e);
            let h = u.all_hosts.index_of(e.host@);
            let d = u.all_dirs.index_of(e.dir@);
            assert(v.all_hosts[h] == e.host@);
            assert(v.all_dirs[d] == e.dir@);
        } else {
            assert(new[i - known] == e);
            assert(hosts_of(new)[i - known] == e.host@);
            assert(dirs_of(new)[i - known] == e.dir@);
        }
    }
}

/// The overlay offers every host and every directory of the history, each once: chunks that
/// come in keep it so.
pub proof fn lemma_names_stay_known(
    s: AppView,
    chunks: Seq<Vec<HistoryEntry>>,
    disconnected: bool,
    t: AppView,
    request: Option<RequestView>,
)
    requires
        names_known(s),
        chunks_loaded(s, chunks, disconnected, t, request),
    ensures
        names_known(t),
        s.entries.is_prefix_of(t.entries),
{
    let u = loaded(s, chunks, disconnected);
    let n = s.entries.len() as int;
    if s.receiving {
        assert(u.entries.take(n) =~= s.entries);
        if joined(chunks).len() == 0 {
            assert(u.entries =~= s.entries);
        } else {
            let v = named(u, n);
            lemma_named(u, n);
            let m = choose|m: AppView|
                followed(v, v.all_hosts != s.all_hosts, v.all_dirs != s.all_dirs, m)
                    && #[trigger] extended(m, n, t, request);
            assert(m.entries == v.entries && m.all_hosts == v.all_hosts && m.all_dirs
                == v.all_dirs);
            if no_query(m) {
                assert(t.entries == m.entries);
            } else {
                lemma_refilter_keeps(m, t, request);
            }
        }
    }
}

proof fn lemma_chosen_items(
    names: Seq<Seq<char>>,
    chosen: Set<Seq<char>>,
    wanted: bool,
    end: int,
)
    requires
        0 <= end <= names.len(),
        names.len() <= usize::MAX,
    ensures
        ({
            let items = chosen_items(names, chosen, wanted, end);
            &&& forall|k: int| #![trigger items[k]]
                0 <= k < items.len() ==> items[k].idx < end && chosen.contains(
                    names[items[k].idx as int],
                ) == wanted
            &&& forall|k: int, l: int| 0 <= k < l < items.len() ==> items[k].idx < items[l].idx
            &&& forall|i: int| #![trigger names[i]]
                0 <= i < end && chosen.contains(names[i]) == wanted ==> exists|k: int|
                    0 <= k < items.len() && #[trigger] items[k].idx == i
        }),
    decreases end,
{
    if end > 0 {
        lemma_chosen_items(names, chosen, wanted, end - 1);
        let items = chosen_items(names, chosen, wanted, end);
        let rest = chosen_items(names, chosen, wanted, end - 1);
        assert forall|i: int| #![trigger names[i]]
            0 <= i < end && chosen.contains(names[i]) == wanted implies exists|k: int|
            0 <= k < items.len() && #[trigger] items[k].idx == i by {
            if i < end - 1 {
                let k = choose|k: int| 0 <= k < rest.len() && #[trigger] rest[k].idx == i;
                assert(items[k] == rest[k]);
            } else {
                assert(items[rest.len() as int].idx == i);
            }
        }
    }
}

/// Whether the name at position `i` is among the items.
pub open spec fn offers(items: Seq<OverlayFilteredView>, i: int) -> bool {
    exists|k: int| 0 <= k < items.len() && #[trigger] items[k].idx == i
}

/// Whether the names at positions `i` and `j` come in this order: the chosen one first, and of
/// two that are both chosen or both not the one that became known first.
pub open spec fn chosen_order(
    names: Seq<Seq<char>>,
    chosen: Set<Seq<char>>,
    i: int,
    j: int,
) -> bool {
    let a = chosen.contains(names[i]);
    let b = chosen.contains(names[j]);
    i != j && (b ==> a) && (a == b ==> i < j)
}

/// Without a filter the overlay offers every name once, the chosen ones first, and both groups
/// in the order in which the names became known.
pub proof fn lemma_chosen_first(
    names: Seq<Seq<char>>,
    chosen: Set<Seq<char>>,
    items: Seq<OverlayFilteredView>,
)
    requires
        names.len() <= usize::MAX,
        items == chosen_first(names, chosen),
    ensures
        forall|i: int| 0 <= i < names.len() ==> #[trigger] offers(items, i),
        forall|k: int, l: int| #![trigger items[k], items[l]]
            0 <= k < l < items.len() ==> chosen_order(
                names,
                chosen,
                items[k].idx as int,
                items[l].idx as int,
            ),
{
    let n = names.len() as int;
    let on = chosen_items(names, chosen, true, n);
    let off = chosen_items(names, chosen, false, n);
    lemma_chosen_items(names, chosen, true, n);
    lemma_chosen_items(names, chosen, false, n);
    assert forall|i: int| 0 <= i < names.len() implies #[trigger] offers(items, i) by {
        if chosen.contains(names[i]) {
            let k = choose|k: int| 0 <= k < on.len() && #[trigger] on[k].idx == i;
            assert(items[k] == on[k]);
        } else {
            let k = choose|k: int| 0 <= k < off.len() && #[trigger] off[k].idx == i;
            assert(items[on.len() + k] == off[k]);
        }
    }
    assert forall|k: int, l: int| #![trigger items[k], items[l]]
        0 <= k < l < items.len() implies chosen_order(
        names,
        chosen,
        items[k].idx as int,
        items[l].idx as int,
    ) by {
        if l < on.len() {
            assert(items[k] == on[k] && items[l] == on[l]);
        } else if k >= on.len() {
            assert(items[k] == off[k - on.len()] && items[l] == off[l - on.len()]);
        } else {
            assert(items[k] == on[k] && items[l] == off[l - on.len()]);
        }
    }
}

/// With a filter the overlay lists the same whatever is chosen and whatever white space stands
/// around the filter.
pub proof fn lemma_filter_decides_listing(
    before: Seq<char>,
    filter: Seq<char>,
    after: Seq<char>,
    names: Seq<Seq<char>>,
    a: Set<Seq<char>>,
    b: Set<Seq<char>>,
    out: Seq<OverlayFilteredView>,
)
    requires
        trimmed(filter).len() > 0,
        forall|i: int| 0 <= i < before.len() ==> is_white_space(#[trigger] before[i]),
        forall|i: int| 0 <= i < after.len() ==> is_white_space(#[trigger] after[i]),
    ensures
        overlay_listing(before + filter + after, names, a, out) <==> overlay_listing(
            filter,
            names,
            b,
            out,
        ),
{
    lemma_trimmed_blanks(before, filter, after);
}

/// With a filter the overlay lists exactly the names that it matches, each once.
pub proof fn lemma_filter_lists_matches(
    filter: Seq<char>,
    names: Seq<Seq<char>>,
    chosen: Set<Seq<char>>,
    out: Seq<OverlayFilteredView>,
)
    requires
        trimmed(filter).len() > 0,
        overlay_listing(filter, names, chosen, out),
    ensures
        forall|i: int| #![trigger names[i]]
            0 <= i < names.len() ==> (text_matches(trimmed(filter), names[i]) <==> offers(out, i)),
        forall|k: int| #![trigger out[k]] 0 <= k < out.len() ==> out[k].idx < names.len(),
        forall|k: int, l: int| #![trigger out[k], out[l]]
            0 <= k < l < out.len() ==> out[k].idx != out[l].idx,
{
    let found = choose|found: Seq<Option<TextMatchView>>|
        #[trigger] matched(trimmed(filter), names, found) && ranked_listing(found, out);
    assert forall|i: int| #![trigger names[i]] 0 <= i < names.len() implies (text_matches(
        trimmed(filter),
        names[i],
    ) <==> offers(out, i)) by {
        assert(found[i] is Some <==> text_matches(trimmed(filter), names[i]));
    }
    assert forall|k: int, l: int| #![trigger out[k], out[l]]
        0 <= k < l < out.len() implies out[k].idx != out[l].idx by {
        assert(listed_before(found, out[k].idx as int, out[l].idx as int));
    }
}

/// With a filter there is one way only to list its matches.
pub proof fn lemma_ranked_listing_unique(
    found: Seq<Option<TextMatchView>>,
    a: Seq<OverlayFilteredView>,
    b: Seq<OverlayFilteredView>,
)
    requires
        ranked_listing(found, a),
        ranked_listing(found, b),
    ensures
        a == b,
{
    if a.len() <= b.len() {
        lemma_ranked_agree(found, a, b, a.len() as int);
        lemma_no_more(found, a, b);
    } else {
        lemma_ranked_agree(found, b, a, b.len() as int);
        lemma_no_more(found, b, a);
    }
    assert(a =~= b);
}

proof fn lemma_ranked_agree(
    found: Seq<Option<TextMatchView>>,
    a: Seq<OverlayFilteredView>,
    b: Seq<OverlayFilteredView>,
    n: int,
)
    requires
        ranked_listing(found, a),
        ranked_listing(found, b),
        0 <= n <= a.len(),
        n <= b.len(),
    ensures
        forall|k: int| 0 <= k < n ==> a[k] == b[k],
    decreases n,
{
    if n > 0 {
        lemma_ranked_agree(found, a, b, n - 1);
        let x = a[n - 1].idx as int;
        let y = b[n - 1].idx as int;
        if x != y {
            assert(found[x] is Some && found[y] is Some);
            let j = choose|j: int| 0 <= j < b.len() && #[trigger] b[j].idx == x;
            let k = choose|k: int| 0 <= k < a.len() && #[trigger] a[k].idx == y;
            if j < n - 1 {
                assert(a[j] == b[j]);
                assert(listed_before(found, a[j].idx as int, a[n - 1].idx as int));
            }
            if k < n - 1 {
                assert(a[k] == b[k]);
                assert(listed_before(found, b[k].idx as int, b[n - 1].idx as int));
            }
            assert(listed_before(found, b[n - 1].idx as int, b[j].idx as int));
            assert(listed_before(found, a[n - 1].idx as int, a[k].idx as int));
        }
    }
}

proof fn lemma_no_more(
    found: Seq<Option<TextMatchView>>,
    a: Seq<OverlayFilteredView>,
    b: Seq<OverlayFilteredView>,
)
    requires
        ranked_listing(found, a),
        ranked_listing(found, b),
        a.len() <= b.len(),
        forall|k: int| 0 <= k < a.len() ==> a[k] == b[k],
    ensures
        a.len() == b.len(),
{
    let n = a.len() as int;
    if n < b.len() {
        let x = b[n].idx as int;
        assert(found[x] is Some);
        let k = choose|k: int| 0 <= k < a.len() && #[trigger] a[k].idx == x;
        assert(b[k].idx == x);
        assert(listed_before(found, b[k].idx as int, b[n].idx as int));
    }
}

} // verus!
