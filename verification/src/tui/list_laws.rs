//! What holds of the listing: which entries it shows, in which order, and which one is selected.

use super::app::{
    clamped, initial_state, is_found_in, moved, restored, scrolled, selected_history, selection,
    topped_up, total, AppView,
};
use super::filter::{accepts, beats, CriteriaView, FilteredView};
use super::heap::is_preview;
use super::laws::{lemma_listed_exact, lemma_restored_keeps_results, pool};
use super::results::{
    checked, has_batch, listed, may_be_active, may_refilter, received, received_all, refiltered,
    relisted, RequestView,
};
use super::listing::overlay_listing;
use super::loading::{
    chunks_loaded, dirs_of, extended, followed, hosts_of, lemma_with_new_complete, loaded, named,
};
use super::matching::text_matches;
use super::overlay::{OverlayFocus, OverlayRightFocus, TimeField};
use super::overlay_laws::{lemma_offering, offered};
use super::search::{
    lemma_search_finds_all, lemma_search_sends_matches, results_in, run_gives, run_start,
    MessageView, Reading,
};
use super::time::may_read;
use crate::db::HistoryEntry;
use crate::text::{lemma_trimmed_twice, trimmed};
use vstd::multiset::Multiset;
use vstd::prelude::*;
use vstd::utf8::encode_utf8;

verus! {

broadcast use {
    vstd::seq_lib::group_to_multiset_ensures,
    vstd::multiset::group_multiset_axioms,
};

/// Whether the filters let an entry through, with the given ends of the time range: its host is
/// among the selected ones, or none is selected; likewise its session and its directory; and it
/// started in the time range.
pub open spec fn lets_through(
    s: AppView,
    start: Option<i64>,
    end: Option<i64>,
    e: HistoryEntry,
) -> bool {
    &&& s.selected_hosts.contains(e.host@) || forall|h: Seq<char>| !s.selected_hosts.contains(h)
    &&& s.selected_sessions.contains(e.session) || forall|n: i64| !s.selected_sessions.contains(n)
    &&& s.selected_dirs.contains(e.dir@) || forall|d: Seq<char>| !s.selected_dirs.contains(d)
    &&& start matches Some(first) ==> first <= e.start_time
    &&& end matches Some(last) ==> e.start_time <= last
}

/// The criteria that are set accept what the filters let through: the selected hosts, sessions and
/// directories, and the times that the two texts of the overlay may be read as, the second as the
/// end of a range.
pub proof fn lemma_active_criteria(s: AppView, c: CriteriaView, e: HistoryEntry)
    requires
        may_be_active(s, c),
    ensures
        c.hosts == s.selected_hosts,
        c.sessions == s.selected_sessions,
        c.dirs == s.selected_dirs,
        may_read(s.overlay_start_time, false, c.start_time),
        may_read(s.overlay_end_time, true, c.end_time),
        accepts(c, e) <==> lets_through(s, c.start_time, c.end_time, e),
{
    assert((forall|h: Seq<char>| !c.hosts.contains(h)) ==> c.hosts =~= Set::<Seq<char>>::empty());
    assert((forall|n: i64| !c.sessions.contains(n)) ==> c.sessions =~= Set::<i64>::empty());
    assert((forall|d: Seq<char>| !c.dirs.contains(d)) ==> c.dirs =~= Set::<Seq<char>>::empty());
}

/// Whether a list holds exactly the entries from `from` on that the filters let through, in the
/// order of the history, each without a match.
pub open spec fn lists_all(
    s: AppView,
    from: int,
    start: Option<i64>,
    end: Option<i64>,
    list: Seq<FilteredView>,
) -> bool {
    &&& forall|k: int| #![trigger list[k]]
        0 <= k < list.len() ==> {
            &&& from <= list[k].idx < s.entries.len()
            &&& lets_through(s, start, end, s.entries[list[k].idx as int])
            &&& list[k].start_time == s.entries[list[k].idx as int].start_time
            &&& list[k].match_indices.len() == 0
            &&& list[k].rank.score == 0
        }
    &&& forall|k: int, l: int| 0 <= k < l < list.len() ==> list[k].idx < list[l].idx
    &&& forall|i: int| #![trigger s.entries[i]]
        from <= i < s.entries.len() && lets_through(s, start, end, s.entries[i])
            ==> exists|k: int| 0 <= k < list.len() && #[trigger] list[k].idx == i
}

proof fn lemma_listed_plain(entries: Seq<HistoryEntry>, start: int, end: int, c: CriteriaView)
    ensures
        forall|k: int| #![trigger listed(entries, start, end, c)[k]]
            0 <= k < listed(entries, start, end, c).len() ==> listed(
                entries,
                start,
                end,
                c,
            )[k].match_indices.len() == 0 && listed(entries, start, end, c)[k].rank.score == 0,
    decreases end - start,
{
    if start < end {
        lemma_listed_plain(entries, start, end - 1, c);
        let list = listed(entries, start, end, c);
        let rest = listed(entries, start, end - 1, c);
        assert forall|k: int| #![trigger list[k]] 0 <= k < list.len() implies list[k].match_indices.len()
            == 0 && list[k].rank.score == 0 by {
            if k < rest.len() {
                assert(list[k] == rest[k]);
            }
        }
    }
}

/// Listing without a query lists all entries that the filters let through.
pub proof fn lemma_lists_all(s: AppView, from: int, c: CriteriaView)
    requires
        may_be_active(s, c),
        0 <= from <= s.entries.len() <= usize::MAX,
    ensures
        lists_all(
            s,
            from,
            c.start_time,
            c.end_time,
            listed(s.entries, from, s.entries.len() as int, c),
        ),
{
    let n = s.entries.len() as int;
    let list = listed(s.entries, from, n, c);
    lemma_listed_exact(s.entries, from, n, c);
    lemma_listed_plain(s.entries, from, n, c);
    assert forall|e: HistoryEntry| accepts(c, e) == lets_through(s, c.start_time, c.end_time, e) by {
        lemma_active_criteria(s, c, e);
    }
    assert forall|i: int| #![trigger s.entries[i]]
        from <= i < n && lets_through(s, c.start_time, c.end_time, s.entries[i]) implies exists|
        k: int,
    |
        0 <= k < list.len() && #[trigger] list[k].idx == i by {
        assert(accepts(c, s.entries[i]));
    }
    assert forall|k: int| #![trigger list[k]] 0 <= k < list.len() implies lets_through(
        s,
        c.start_time,
        c.end_time,
        s.entries[list[k].idx as int],
    ) by {
        assert(accepts(c, s.entries[list[k].idx as int]));
    }
}

/// Where the selection is kept on the screen: it stays as it is while the row is in view, and else
/// the row becomes the first or the last one in view.
pub proof fn lemma_scrolling(selected: int, scroll: u16, height: u16)
    requires
        0 <= selected,
    ensures
        scroll <= selected < scroll + height ==> scrolled(selected, scroll, height) == scroll,
        selected < scroll ==> scrolled(selected, scroll, height) == selected,
        selected >= scroll + height && selected - height < 65535 ==> scrolled(
            selected,
            scroll,
            height,
        ) == selected - height + 1,
        selected >= scroll + height ==> (scrolled(selected, scroll, height) - (selected - height
            + 1)) % 65536 == 0,
{
}

/// How many results there are: all in the list and in the heap, or, while a search runs, all in the
/// heap.
pub proof fn lemma_total(s: AppView)
    requires
        s.filtered.len() + s.heap.len() < usize::MAX,
    ensures
        s.filter_done ==> total(s) == s.filtered.len() + s.heap.len(),
        !s.filter_done ==> total(s) == s.heap.len(),
{
}

/// Whether the list in `t` has moved from where it was in `s` only as far as it takes to have the
/// selected row in view.
pub open spec fn follows_selection(s: AppView, t: AppView) -> bool {
    t.selected - s.list_height < 65535 ==> {
        &&& s.scroll <= t.selected < s.scroll + s.list_height ==> t.scroll == s.scroll
        &&& t.selected < s.scroll ==> t.scroll == t.selected
        &&& t.selected >= s.scroll + s.list_height ==> t.scroll == t.selected - s.list_height + 1
    }
}

/// The selected result is the one in the selected row, and the selected entry is the one that it
/// stands for.
pub proof fn lemma_selected_row(s: AppView)
    ensures
        selection(s) matches Some(fe) ==> s.selected < s.filtered.len() && fe
            == s.filtered[s.selected as int],
        s.selected < s.filtered.len() ==> selection(s) is Some,
        selected_history(s) matches Some(e) ==> s.selected < s.filtered.len()
            && s.filtered[s.selected as int].idx < s.entries.len() && e
            == s.entries[s.filtered[s.selected as int].idx as int],
        s.selected < s.filtered.len() && s.filtered[s.selected as int].idx < s.entries.len()
            ==> selected_history(s) is Some,
{
}

/// Moving by `delta` rows moves by so many, but not before the first nor behind the last result;
/// nothing but the selection and what is in view changes.
pub proof fn lemma_moving(s: AppView, delta: int)
    ensures
        ({
            let t = moved(s, delta);
            let n = if s.filter_done { s.filtered.len() + s.heap.len() } else { s.heap.len() };
            &&& t == (AppView { selected: t.selected, scroll: t.scroll, ..s })
            &&& n == 0 ==> t == s
            &&& 0 < n < usize::MAX && 0 <= s.selected + delta < n ==> t.selected == s.selected
                + delta
            &&& 0 < n < usize::MAX && s.selected + delta >= n ==> t.selected == n - 1
            &&& 0 < n && s.selected + delta < 0 ==> t.selected == 0
            &&& 0 < n && t.selected - s.list_height < 65535 ==> {
                &&& s.scroll <= t.selected < s.scroll + s.list_height ==> t.scroll == s.scroll
                &&& t.selected < s.scroll ==> t.scroll == t.selected
                &&& t.selected >= s.scroll + s.list_height ==> t.scroll == t.selected
                    - s.list_height + 1
            }
        }),
{
}

/// A selection that is kept within the results stays where it is if there is such a result, and else
/// goes to the last; nothing but the selection and what is in view changes.
pub proof fn lemma_clamping(s: AppView)
    ensures
        ({
            let t = clamped(s);
            let n = if s.filter_done { s.filtered.len() + s.heap.len() } else { s.heap.len() };
            &&& t == (AppView { selected: t.selected, scroll: t.scroll, ..s })
            &&& n == 0 ==> t.selected == 0 && t.scroll == 0
            &&& s.selected < n < usize::MAX ==> t.selected == s.selected
            &&& 0 < n < usize::MAX && s.selected >= n ==> t.selected == n - 1
            &&& 0 < n && t.selected - s.list_height < 65535 ==> {
                &&& s.scroll <= t.selected < s.scroll + s.list_height ==> t.scroll == s.scroll
                &&& t.selected < s.scroll ==> t.scroll == t.selected
                &&& t.selected >= s.scroll + s.list_height ==> t.scroll == t.selected
                    - s.list_height + 1
            }
        }),
{
}

/// The remembered entry is selected again wherever it is among the results: in the row where it is
/// listed first, or in a new last row, to which its result moves from the heap. Otherwise the
/// selection stays. It is then forgotten.
#[verifier::rlimit(60)]
pub proof fn lemma_restoring(s: AppView, t: AppView)
    requires
        restored(s, t),
        s.filtered.len() < usize::MAX,
    ensures
        t == (AppView {
            filtered: t.filtered,
            heap: t.heap,
            selected: t.selected,
            restore_entry_idx: None,
            ..s
        }),
        s.restore_entry_idx is None ==> t == s,
        s.restore_entry_idx matches Some(i) ==> {
            let in_list = exists|k: int| 0 <= k < s.filtered.len() && #[trigger] s.filtered[k].idx == i;
            let in_heap = exists|x: FilteredView| #[trigger] s.heap.contains(x) && x.idx == i;
            &&& in_list || in_heap ==> t.selected < t.filtered.len()
                && t.filtered[t.selected as int].idx == i
            &&& in_list ==> t.filtered == s.filtered && t.heap == s.heap && forall|k: int|
                0 <= k < t.selected ==> #[trigger] s.filtered[k].idx != i
            &&& !in_list && in_heap ==> t.filtered.drop_last() == s.filtered && t.selected
                == s.filtered.len() && s.heap == t.heap.insert(t.filtered.last())
            &&& !in_list && !in_heap ==> t.filtered == s.filtered && t.heap == s.heap && t.selected
                == s.selected
        },
{
    if let Some(i) = s.restore_entry_idx {
        let in_list = exists|k: int| 0 <= k < s.filtered.len() && #[trigger] s.filtered[k].idx == i;
        let in_heap = exists|x: FilteredView| #[trigger] s.heap.contains(x) && x.idx == i;
        if !in_list && in_heap {
            let u = AppView { restore_entry_idx: None, ..s };
            let e = choose|e: FilteredView| #[trigger] is_found_in(s.heap, i, e) && t == (AppView {
                filtered: s.filtered.push(e),
                heap: s.heap.remove(e),
                selected: s.filtered.len() as usize,
                ..u
            });
            assert(t.filtered.drop_last() =~= s.filtered);
            assert(s.heap =~= t.heap.insert(e));
        }
    }
}

/// Whether filtering anew has led from `s` to `t` and asks for `request` as it should. With a query
/// a search is asked for: for the trimmed query, with a new token, and with the filters that are
/// set; the list stays until results come. Without one the list holds at once all entries that the
/// filters let through, and the remembered one among them is selected.
pub open spec fn filtered_anew(s: AppView, t: AppView, request: Option<RequestView>) -> bool {
    &&& t == (AppView {
        filtered: t.filtered,
        heap: t.heap,
        filter_done: t.filter_done,
        filter_token: t.filter_token,
        selected: t.selected,
        scroll: t.scroll,
        restore_entry_idx: t.restore_entry_idx,
        ..s
    })
    &&& t.heap.len() == 0
    &&& t.filter_token != s.filter_token
    &&& s.filter_token < u64::MAX ==> t.filter_token == s.filter_token + 1
    &&& if trimmed(s.input).len() > 0 {
        &&& !t.filter_done
        &&& t.filtered == s.filtered
        &&& t.selected == s.selected
        &&& t.scroll == s.scroll
        &&& t.restore_entry_idx == s.restore_entry_idx
        &&& request matches Some(q) && {
            &&& q.query == trimmed(s.input)
            &&& q.token == t.filter_token
            &&& q.criteria.hosts == s.selected_hosts
            &&& q.criteria.sessions == s.selected_sessions
            &&& q.criteria.dirs == s.selected_dirs
            &&& may_read(s.overlay_start_time, false, q.criteria.start_time)
            &&& may_read(s.overlay_end_time, true, q.criteria.end_time)
        }
    } else {
        &&& request is None
        &&& t.filter_done
        &&& t.restore_entry_idx is None
        &&& exists|start: Option<i64>, end: Option<i64>|
            #![trigger may_read(s.overlay_start_time, false, start),
                may_read(s.overlay_end_time, true, end)]
            may_read(s.overlay_start_time, false, start) && may_read(s.overlay_end_time, true, end)
                && lists_all(s, 0, start, end, t.filtered)
        &&& t.filtered.len() == 0 ==> t.selected == 0 && t.scroll == 0
        &&& t.filtered.len() > 0 ==> t.selected < t.filtered.len()
        &&& s.restore_entry_idx is None && s.selected < t.filtered.len() ==> t.selected == s.selected
        &&& s.restore_entry_idx is None && 0 < t.filtered.len() <= s.selected ==> t.selected
            == t.filtered.len() - 1
        &&& s.restore_entry_idx matches Some(i) ==> (exists|k: int|
            0 <= k < t.filtered.len() && #[trigger] t.filtered[k].idx == i)
            ==> t.filtered[t.selected as int].idx == i
        &&& s.restore_entry_idx matches Some(i) ==> (forall|k: int|
            0 <= k < t.filtered.len() ==> #[trigger] t.filtered[k].idx != i) ==> {
            &&& s.selected < t.filtered.len() ==> t.selected == s.selected
            &&& 0 < t.filtered.len() <= s.selected ==> t.selected == t.filtered.len() - 1
        }
        &&& t.filtered.len() > 0 ==> follows_selection(s, t)
    }
}

/// Filtering anew follows the query and every filter that is set.
#[verifier::rlimit(60)]
pub proof fn lemma_filtering_anew(s: AppView, t: AppView, request: Option<RequestView>)
    requires
        may_refilter(s, t, request),
        s.entries.len() < usize::MAX,
    ensures
        filtered_anew(s, t, request),
{
    let c = choose|c: CriteriaView| may_be_active(s, c) && #[trigger] refiltered(s, c, t, request);
    lemma_lists_all(s, 0, c);
    if trimmed(s.input).len() == 0 {
        let u = relisted(s, c);
        let m = choose|m: AppView| #[trigger] restored(u, m) && t == clamped(m);
        let list = listed(s.entries, 0, s.entries.len() as int, c);
        lemma_list_len(s.entries, 0, s.entries.len() as int, c);
        lemma_restoring(u, m);
        lemma_clamping(m);
        assert(t.filtered == list);
        assert(u.filtered == list && u.heap.len() == 0);
        assert(may_read(s.overlay_start_time, false, c.start_time) && may_read(
            s.overlay_end_time,
            true,
            c.end_time,
        ));
    }
}

proof fn lemma_list_len(entries: Seq<HistoryEntry>, start: int, end: int, c: CriteriaView)
    requires
        start <= end,
    ensures
        listed(entries, start, end, c).len() <= end - start,
    decreases end - start,
{
    if start < end {
        lemma_list_len(entries, start, end - 1, c);
    }
}

/// A list that is made long enough has as many rows as are asked for, if there are so many results.
/// Rows that are there already stay when no search runs, and none that is left in the heap would
/// have come before a new row.
#[verifier::rlimit(60)]
pub proof fn lemma_topping_up(s: AppView, needed: int, t: AppView)
    requires
        topped_up(s, needed, t),
        s.filtered.len() + s.heap.len() < usize::MAX,
    ensures
        t == (AppView { filtered: t.filtered, heap: t.heap, ..s }),
        needed <= s.filtered.len() ==> t.filtered == s.filtered && t.heap == s.heap,
        s.filter_done ==> {
            &&& forall|k: int| 0 <= k < s.filtered.len() ==> t.filtered[k] == s.filtered[k]
            &&& t.filtered.to_multiset().add(t.heap) == s.filtered.to_multiset().add(s.heap)
            &&& needed > s.filtered.len() ==> t.filtered.len() == (if needed < s.filtered.len()
                + s.heap.len() {
                needed
            } else {
                s.filtered.len() + s.heap.len() as int
            })
            &&& forall|k: int, x: FilteredView|
                s.filtered.len() <= k < t.filtered.len() && #[trigger] t.heap.contains(x) ==> !beats(
                    x,
                    #[trigger] t.filtered[k],
                )
            &&& forall|k: int, l: int|
                s.filtered.len() <= k < l < t.filtered.len() ==> !beats(
                    #[trigger] t.filtered[l],
                    #[trigger] t.filtered[k],
                )
        },
        !s.filter_done ==> {
            &&& t.heap == s.heap
            &&& needed > s.filtered.len() && s.heap.len() > 0 ==> {
                &&& t.filtered.len() == (if needed < s.heap.len() { needed } else { s.heap.len() as int })
                &&& t.filtered.to_multiset().subset_of(s.heap)
                &&& forall|k: int, l: int|
                    0 <= k < l < t.filtered.len() ==> !beats(
                        #[trigger] t.filtered[l],
                        #[trigger] t.filtered[k],
                    )
                &&& forall|k: int, x: FilteredView|
                    0 <= k < t.filtered.len() && t.filtered.to_multiset().count(x)
                        < #[trigger] s.heap.count(x) ==> !beats(x, #[trigger] t.filtered[k])
            }
        },
{
    if s.filter_done {
        let taken = t.filtered.skip(s.filtered.len() as int);
        super::laws::lemma_topped_up_keeps_results(s, needed, t);
        if needed <= s.filtered.len() {
            assert(taken =~= seq![]);
            assert(t.filtered =~= s.filtered);
            assert(taken.to_multiset().len() == 0);
            assert(t.heap =~= s.heap);
        }
        assert forall|k: int, x: FilteredView|
            s.filtered.len() <= k < t.filtered.len() && #[trigger] t.heap.contains(x) implies !beats(
            x,
            #[trigger] t.filtered[k],
        ) by {
            assert(taken[k - s.filtered.len()] == t.filtered[k]);
        }
        assert forall|k: int, l: int|
            s.filtered.len() <= k < l < t.filtered.len() implies !beats(
            #[trigger] t.filtered[l],
            #[trigger] t.filtered[k],
        ) by {
            assert(taken[k - s.filtered.len()] == t.filtered[k]);
            assert(taken[l - s.filtered.len()] == t.filtered[l]);
        }
    } else if needed > s.filtered.len() && s.heap.len() > 0 {
        let rest = s.heap.sub(t.filtered.to_multiset());
        assert forall|k: int, x: FilteredView|
            0 <= k < t.filtered.len() && t.filtered.to_multiset().count(x) < #[trigger] s.heap.count(
                x,
            ) implies !beats(x, #[trigger] t.filtered[k]) by {
            assert(rest.contains(x));
        }
    }
}

/// A message of another search changes nothing. Results of the running search join those in the
/// heap. At its end all of them wait in the heap to be listed in order, but for the remembered
/// entry's, which is listed and selected.
#[verifier::rlimit(60)]
pub proof fn lemma_taking_messages(s: AppView, msg: MessageView, t: AppView)
    requires
        received(s, msg, t),
        s.heap.len() < usize::MAX,
    ensures
        msg matches MessageView::Batch(token, _) ==> token != s.filter_token ==> t == s,
        msg matches MessageView::Done(token) ==> token != s.filter_token ==> t == s,
        msg matches MessageView::Batch(token, batch) ==> token == s.filter_token ==> {
            &&& t == (AppView { heap: t.heap, ..s })
            &&& forall|x: FilteredView| #[trigger]
                t.heap.count(x) == s.heap.count(x) + batch.to_multiset().count(x)
        },
        msg matches MessageView::Done(token) ==> token == s.filter_token ==> {
            let i = s.restore_entry_idx;
            let known = i is Some && exists|x: FilteredView| #[trigger]
                s.heap.contains(x) && x.idx == i->0;
            &&& t == (AppView {
                filtered: t.filtered,
                heap: t.heap,
                selected: t.selected,
                scroll: t.scroll,
                filter_done: true,
                restore_entry_idx: None,
                ..s
            })
            &&& t.filtered.to_multiset().add(t.heap) == s.heap
            &&& known ==> t.filtered.len() == 1 && t.filtered[0].idx == i->0 && t.selected == 0
            &&& !known ==> t.filtered.len() == 0 && t.heap == s.heap
            &&& !known && s.selected < s.heap.len() ==> t.selected == s.selected
            &&& !known && 0 < s.heap.len() <= s.selected ==> t.selected == s.heap.len() - 1
            &&& s.heap.len() == 0 ==> t.selected == 0 && t.scroll == 0
            &&& s.heap.len() > 0 ==> follows_selection(s, t)
        },
{
    if let MessageView::Done(token) = msg {
        if token == s.filter_token {
            let u = AppView { filter_done: true, filtered: seq![], ..s };
            let m = choose|m: AppView| #[trigger] restored(u, m) && t == clamped(m);
            lemma_restoring(u, m);
            lemma_clamping(m);
            lemma_restored_keeps_results(u, m);
            assert(u.filtered.to_multiset().len() == 0);
            assert(pool(u) =~= s.heap);
            if let Some(i) = s.restore_entry_idx {
                if exists|x: FilteredView| #[trigger] s.heap.contains(x) && x.idx == i {
                    assert(m.filtered.drop_last() =~= seq![]);
                    assert(m.filtered.len() == 1);
                }
            }
            if m.filtered.len() == 0 {
                assert(m.filtered =~= seq![]);
                assert(m.heap =~= s.heap);
            }
        }
    }
}

/// While a search runs and results of it have come, the list shows the best of all that have come so
/// far: as many as fit on the screen, and at least twenty, if there are so many.
pub proof fn lemma_preview(s: AppView, msgs: Seq<MessageView>, t: AppView)
    requires
        checked(s, msgs, t),
        !t.filter_done,
        exists|i: int| #![trigger msgs[i]]
            0 <= i < msgs.len() && msgs[i] is Batch && msgs[i]->Batch_0 == s.filter_token,
        t.heap.len() < usize::MAX,
    ensures
        ({
            let n: int = if t.list_height > 20 { t.list_height as int } else { 20 };
            &&& t.filtered.len() == (if n < t.heap.len() { n } else { t.heap.len() as int })
            &&& t.filtered.to_multiset().subset_of(t.heap)
            &&& forall|k: int, l: int|
                0 <= k < l < t.filtered.len() ==> !beats(
                    #[trigger] t.filtered[l],
                    #[trigger] t.filtered[k],
                )
            &&& forall|k: int, x: FilteredView|
                0 <= k < t.filtered.len() && t.filtered.to_multiset().count(x)
                    < #[trigger] t.heap.count(x) ==> !beats(x, #[trigger] t.filtered[k])
            &&& t.heap.len() > 0 ==> t.selected < t.heap.len()
        }),
{
    let m = choose|m: AppView| #[trigger] received_all(s, msgs, m) && if has_batch(
        s.filter_token,
        msgs,
    ) && !m.filter_done {
        exists|top: Seq<FilteredView>| #[trigger]
            is_preview(
                m.heap,
                super::results::preview_len(m.list_height),
                top,
            ) && t == clamped(AppView { filtered: top, ..m })
    } else {
        t == m
    };
    let i = choose|i: int| #![trigger msgs[i]]
        0 <= i < msgs.len() && msgs[i] is Batch && msgs[i]->Batch_0 == s.filter_token;
    assert(has_batch(s.filter_token, msgs)) by {
        assert(msgs[i] matches MessageView::Batch(k, _) && k == s.filter_token);
    }
    let rest = t.heap.sub(t.filtered.to_multiset());
    assert forall|k: int, x: FilteredView|
        0 <= k < t.filtered.len() && t.filtered.to_multiset().count(x) < #[trigger] t.heap.count(
            x,
        ) implies !beats(x, #[trigger] t.filtered[k]) by {
        assert(rest.contains(x));
    }
}

/// Messages are taken one after the other, and none of them touches the query, the filters or the
/// history.
pub proof fn lemma_messages_keep_filters(s: AppView, msgs: Seq<MessageView>, t: AppView)
    requires
        checked(s, msgs, t),
        s.filtered.len() < usize::MAX,
    ensures
        t == (AppView {
            filtered: t.filtered,
            heap: t.heap,
            selected: t.selected,
            scroll: t.scroll,
            filter_done: t.filter_done,
            restore_entry_idx: t.restore_entry_idx,
            ..s
        }),
        msgs.len() == 0 ==> t == s,
{
    let m = choose|m: AppView| #[trigger] received_all(s, msgs, m) && if has_batch(
        s.filter_token,
        msgs,
    ) && !m.filter_done {
        exists|top: Seq<FilteredView>| #[trigger]
            is_preview(
                m.heap,
                super::results::preview_len(m.list_height),
                top,
            ) && t == clamped(AppView { filtered: top, ..m })
    } else {
        t == m
    };
    lemma_received_all_keeps(s, msgs, m);
}

proof fn lemma_received_all_keeps(s: AppView, msgs: Seq<MessageView>, t: AppView)
    requires
        received_all(s, msgs, t),
    ensures
        t == (AppView {
            filtered: t.filtered,
            heap: t.heap,
            selected: t.selected,
            scroll: t.scroll,
            filter_done: t.filter_done,
            restore_entry_idx: t.restore_entry_idx,
            ..s
        }),
    decreases msgs.len(),
{
    if msgs.len() > 0 {
        let m = choose|m: AppView|
            received_all(s, msgs.drop_last(), m) && #[trigger] received(m, msgs.last(), t);
        lemma_received_all_keeps(s, msgs.drop_last(), m);
    }
}

/// All results that messages bring under the given token.
pub open spec fn arrived(token: u64, msgs: Seq<MessageView>) -> Multiset<FilteredView>
    decreases msgs.len(),
{
    if msgs.len() == 0 {
        Multiset::empty()
    } else {
        let before = arrived(token, msgs.drop_last());
        match msgs.last() {
            MessageView::Batch(t, batch) => if t == token {
                before.add(batch.to_multiset())
            } else {
                before
            },
            MessageView::Done(_) => before,
        }
    }
}

#[verifier::rlimit(60)]
proof fn lemma_all_arrived(s: AppView, msgs: Seq<MessageView>, m: AppView)
    requires
        received_all(s, msgs, m),
        forall|i: int| #![trigger msgs[i]]
            0 <= i < msgs.len() ==> msgs[i] != MessageView::Done(s.filter_token),
    ensures
        m == (AppView { heap: s.heap.add(arrived(s.filter_token, msgs)), ..s }),
        !has_batch(s.filter_token, msgs) ==> m == s,
    decreases msgs.len(),
{
    if msgs.len() == 0 {
        assert(s.heap.add(arrived(s.filter_token, msgs)) =~= s.heap);
    } else {
        let front = msgs.drop_last();
        let last = msgs[msgs.len() - 1];
        let u = choose|u: AppView| received_all(s, front, u) && #[trigger] received(u, last, m);
        assert forall|i: int| #![trigger front[i]] 0 <= i < front.len() implies front[i]
            != MessageView::Done(s.filter_token) by {
            assert(front[i] == msgs[i]);
        }
        lemma_all_arrived(s, front, u);
        assert(has_batch(s.filter_token, front) ==> has_batch(s.filter_token, msgs)) by {
            if has_batch(s.filter_token, front) {
                let i = choose|i: int|
                    0 <= i < front.len() && (#[trigger] front[i] matches MessageView::Batch(k, _)
                        && k == s.filter_token);
                assert(msgs[i] == front[i]);
            }
        }
        if let MessageView::Batch(k, batch) = last {
            if k == s.filter_token {
                assert(msgs[msgs.len() - 1] matches MessageView::Batch(k, _) && k
                    == s.filter_token);
                assert(has_batch(s.filter_token, msgs));
                assert(m.heap =~= s.heap.add(arrived(s.filter_token, msgs)));
            }
        }
    }
}

/// While a search runs, the results of all batches gather, each batch once; the results and ends of
/// other searches change nothing at all.
#[verifier::rlimit(60)]
pub proof fn lemma_results_gather(s: AppView, msgs: Seq<MessageView>, t: AppView)
    requires
        checked(s, msgs, t),
        forall|i: int| #![trigger msgs[i]]
            0 <= i < msgs.len() ==> msgs[i] != MessageView::Done(s.filter_token),
    ensures
        t.heap == s.heap.add(arrived(s.filter_token, msgs)),
        t == (AppView {
            heap: t.heap,
            filtered: t.filtered,
            selected: t.selected,
            scroll: t.scroll,
            ..s
        }),
        (forall|i: int| #![trigger msgs[i]]
            0 <= i < msgs.len() ==> (msgs[i] matches MessageView::Batch(k, _) ==> k
                != s.filter_token)) ==> t == s,
        !s.filter_done && t.heap.len() < usize::MAX && s.selected < t.heap.len() ==> t.selected
            == s.selected,
        s.filter_done ==> t == (AppView { heap: t.heap, ..s }),
{
    let m = choose|m: AppView| #[trigger] received_all(s, msgs, m) && if has_batch(
        s.filter_token,
        msgs,
    ) && !m.filter_done {
        exists|top: Seq<FilteredView>| #[trigger]
            is_preview(
                m.heap,
                super::results::preview_len(m.list_height),
                top,
            ) && t == clamped(AppView { filtered: top, ..m })
    } else {
        t == m
    };
    lemma_all_arrived(s, msgs, m);
    if has_batch(s.filter_token, msgs) && !m.filter_done {
        let top = choose|top: Seq<FilteredView>| #[trigger]
            is_preview(
                m.heap,
                super::results::preview_len(m.list_height),
                top,
            ) && t == clamped(AppView { filtered: top, ..m });
        lemma_clamping(AppView { filtered: top, ..m });
        let i = choose|i: int|
            0 <= i < msgs.len() && (#[trigger] msgs[i] matches MessageView::Batch(k, _) && k
                == s.filter_token);
        assert(msgs[i] is Batch);
    }
}

/// What a search finds that was asked for with the filters as they are set: only entries that the
/// filters let through and that the trimmed query matches, and, if it is not cancelled, all of
/// those.
#[verifier::rlimit(60)]
pub proof fn lemma_search_respects_filters(
    s: AppView,
    t: AppView,
    q: RequestView,
    rs: Seq<Reading>,
    msgs: Seq<MessageView>,
)
    requires
        may_refilter(s, t, Some(q)),
        run_gives(run_start(q.query, q.token), s.entries, q.criteria, rs, msgs),
        s.entries.len() < usize::MAX,
    ensures
        may_read(s.overlay_start_time, false, q.criteria.start_time),
        may_read(s.overlay_end_time, true, q.criteria.end_time),
        forall|k: int| #![trigger results_in(msgs)[k]]
            0 <= k < results_in(msgs).len() ==> {
                let e = results_in(msgs)[k];
                let entry = s.entries[e.idx as int];
                &&& e.idx < s.entries.len()
                &&& lets_through(s, q.criteria.start_time, q.criteria.end_time, entry)
                &&& text_matches(trimmed(s.input), entry.argv@)
            },
        (forall|i: int| #![trigger rs[i]] 0 <= i < rs.len() ==> !rs[i].cancelled) && (forall|
            i: int,
            j: int,
        |
            #![trigger rs[i].live[j]]
            0 <= i < rs.len() && 0 <= j < rs[i].live.len() ==> rs[i].live[j]) ==> forall|i: int|
            #![trigger s.entries[i]]
            0 <= i < s.entries.len() && lets_through(
                s,
                q.criteria.start_time,
                q.criteria.end_time,
                s.entries[i],
            ) && text_matches(trimmed(s.input), s.entries[i].argv@) ==> exists|k: int|
                0 <= k < results_in(msgs).len() && #[trigger] results_in(msgs)[k].idx == i,
{
    lemma_filtering_anew(s, t, Some(q));
    lemma_trimmed_twice(s.input);
    let c = q.criteria;
    assert(may_be_active(s, c));
    lemma_search_sends_matches(q.query, q.token, s.entries, c, rs, msgs);
    assert forall|e: HistoryEntry| accepts(c, e) == lets_through(s, c.start_time, c.end_time, e) by {
        lemma_active_criteria(s, c, e);
    }
    if (forall|i: int| #![trigger rs[i]] 0 <= i < rs.len() ==> !rs[i].cancelled) && (forall|
        i: int,
        j: int,
    |
        #![trigger rs[i].live[j]]
        0 <= i < rs.len() && 0 <= j < rs[i].live.len() ==> rs[i].live[j]) {
        lemma_search_finds_all(q.query, q.token, s.entries, c, rs, msgs);
    }
}

/// All entries of the chunks that have come, one after the other, join the end of the history. An
/// empty chunk, or that no more can come, ends the loading. Without a query the new entries that the
/// filters let through join the end of the list, and nothing that is listed moves; with one the
/// search starts anew, over all entries and with the filters as they are set. Nothing comes in once
/// loading has ended.
#[verifier::rlimit(60)]
pub proof fn lemma_loading(
    s: AppView,
    chunks: Seq<Vec<HistoryEntry>>,
    disconnected: bool,
    t: AppView,
    request: Option<RequestView>,
)
    requires
        chunks_loaded(s, chunks, disconnected, t, request),
        t.entries.len() < usize::MAX,
    ensures
        !s.receiving ==> t == s && request is None,
        s.receiving ==> {
            let new = chunks.map_values(|c: Vec<HistoryEntry>| c@).flatten();
            let done = disconnected || exists|i: int|
                0 <= i < chunks.len() && #[trigger] chunks[i]@.len() == 0;
            let blank = trimmed(s.input).len() == 0;
            &&& t.entries == s.entries + new
            &&& t.receiving == !done
            &&& t.loading == !done
            &&& t.input == s.input && t.cursor == s.cursor && t.running == s.running && t.output
                == s.output
            &&& t.selected_hosts == s.selected_hosts && t.selected_sessions == s.selected_sessions
                && t.selected_dirs == s.selected_dirs
            &&& t.overlay_start_time == s.overlay_start_time && t.overlay_end_time
                == s.overlay_end_time && t.show_overlay == s.show_overlay
            &&& t.overlay_host_filter == s.overlay_host_filter && t.overlay_dir_filter
                == s.overlay_dir_filter
            &&& new.len() == 0 ==> request is None && t.filtered == s.filtered && t.heap == s.heap
                && t.selected == s.selected && t.filter_token == s.filter_token && t.all_hosts
                == s.all_hosts && t.all_dirs == s.all_dirs
            &&& blank ==> {
                &&& request is None
                &&& t.heap == s.heap && t.selected == s.selected && t.scroll == s.scroll
                    && t.filter_token == s.filter_token
                &&& t.filter_done == (s.filter_done || done)
                &&& s.filtered.len() <= t.filtered.len()
                &&& t.filtered.take(s.filtered.len() as int) == s.filtered
                &&& new.len() > 0 ==> exists|start: Option<i64>, end: Option<i64>|
                    #![trigger may_read(s.overlay_start_time, false, start),
                        may_read(s.overlay_end_time, true, end)]
                    may_read(s.overlay_start_time, false, start) && may_read(
                        s.overlay_end_time,
                        true,
                        end,
                    ) && lists_all(
                        t,
                        s.entries.len() as int,
                        start,
                        end,
                        t.filtered.skip(s.filtered.len() as int),
                    )
            }
            &&& !blank && new.len() > 0 ==> {
                &&& !t.filter_done && t.heap.len() == 0 && t.filter_token != s.filter_token
                &&& t.filtered == s.filtered && t.selected == s.selected
                &&& request matches Some(q) && {
                    &&& q.query == trimmed(s.input)
                    &&& q.token == t.filter_token
                    &&& q.criteria.hosts == s.selected_hosts
                    &&& q.criteria.sessions == s.selected_sessions
                    &&& q.criteria.dirs == s.selected_dirs
                    &&& may_read(s.overlay_start_time, false, q.criteria.start_time)
                    &&& may_read(s.overlay_end_time, true, q.criteria.end_time)
                }
            }
        },
{
    if s.receiving {
        let new = chunks.map_values(|c: Vec<HistoryEntry>| c@).flatten();
        let u = loaded(s, chunks, disconnected);
        let n = s.entries.len() as int;
        if new.len() == 0 {
            assert(s.entries + new =~= s.entries);
            assert(t.filtered.take(s.filtered.len() as int) =~= s.filtered);
        } else {
            let v = named(u, n);
            let m = choose|m: AppView|
                followed(v, v.all_hosts != s.all_hosts, v.all_dirs != s.all_dirs, m)
                    && #[trigger] extended(m, n, t, request);
            lemma_followed_keeps(v, v.all_hosts != s.all_hosts, v.all_dirs != s.all_dirs, m);
            if trimmed(s.input).len() == 0 {
                let c = choose|c: CriteriaView|
                    may_be_active(m, c) && t == (AppView {
                        filtered: m.filtered + #[trigger] listed(
                            m.entries,
                            n,
                            m.entries.len() as int,
                            c,
                        ),
                        ..m
                    });
                assert(may_be_active(t, c));
                lemma_lists_all(t, n, c);
                assert(t.filtered.take(s.filtered.len() as int) =~= s.filtered);
                assert(t.filtered.skip(s.filtered.len() as int) =~= listed(
                    t.entries,
                    n,
                    t.entries.len() as int,
                    c,
                ));
                assert(may_read(s.overlay_start_time, false, c.start_time) && may_read(
                    s.overlay_end_time,
                    true,
                    c.end_time,
                ));
            } else {
                lemma_filtering_anew(m, t, request);
            }
        }
    }
}

/// Loading changes the entries, what is listed and what is offered, and nothing else; a search that
/// has ended stays so while nothing new comes.
#[verifier::rlimit(60)]
pub proof fn lemma_loading_keeps(
    s: AppView,
    chunks: Seq<Vec<HistoryEntry>>,
    disconnected: bool,
    t: AppView,
    request: Option<RequestView>,
)
    requires
        chunks_loaded(s, chunks, disconnected, t, request),
        t.entries.len() < usize::MAX,
    ensures
        t == (AppView {
            entries: t.entries,
            receiving: t.receiving,
            loading: t.loading,
            filtered: t.filtered,
            heap: t.heap,
            filter_done: t.filter_done,
            filter_token: t.filter_token,
            all_hosts: t.all_hosts,
            all_dirs: t.all_dirs,
            overlay_host_filtered: t.overlay_host_filtered,
            overlay_host_selected: t.overlay_host_selected,
            overlay_dir_filtered: t.overlay_dir_filtered,
            overlay_dir_selected: t.overlay_dir_selected,
            ..s
        }),
        t.entries.len() == s.entries.len() && trimmed(s.input).len() > 0 ==> t.filter_done
            == s.filter_done,
{
    if s.receiving {
        let new = chunks.map_values(|c: Vec<HistoryEntry>| c@).flatten();
        let u = loaded(s, chunks, disconnected);
        let n = s.entries.len() as int;
        if new.len() > 0 {
            let v = named(u, n);
            let m = choose|m: AppView|
                followed(v, v.all_hosts != s.all_hosts, v.all_dirs != s.all_dirs, m)
                    && #[trigger] extended(m, n, t, request);
            lemma_followed_keeps(v, v.all_hosts != s.all_hosts, v.all_dirs != s.all_dirs, m);
            if trimmed(s.input).len() > 0 {
                lemma_filtering_anew(m, t, request);
            }
        }
    }
}

#[verifier::rlimit(60)]
proof fn lemma_followed_keeps(v: AppView, new_hosts: bool, new_dirs: bool, m: AppView)
    requires
        followed(v, new_hosts, new_dirs, m),
    ensures
        m == (AppView {
            overlay_host_filtered: m.overlay_host_filtered,
            overlay_host_selected: m.overlay_host_selected,
            overlay_dir_filtered: m.overlay_dir_filtered,
            overlay_dir_selected: m.overlay_dir_selected,
            ..v
        }),
        !v.show_overlay || !new_hosts ==> m.overlay_host_filtered == v.overlay_host_filtered
            && m.overlay_host_selected == v.overlay_host_selected,
        !v.show_overlay || !new_dirs ==> m.overlay_dir_filtered == v.overlay_dir_filtered
            && m.overlay_dir_selected == v.overlay_dir_selected,
        v.show_overlay && new_hosts ==> overlay_listing(
            v.overlay_host_filter,
            v.all_hosts,
            v.selected_hosts,
            m.overlay_host_filtered,
        ),
        v.show_overlay && new_dirs ==> overlay_listing(
            v.overlay_dir_filter,
            v.all_dirs,
            v.selected_dirs,
            m.overlay_dir_filtered,
        ),
{
}

/// The hosts and directories of new entries become known, behind those that are known already, each
/// once and no others; and an open overlay then offers them too, as its filters say.
#[verifier::rlimit(60)]
pub proof fn lemma_new_names(
    s: AppView,
    chunks: Seq<Vec<HistoryEntry>>,
    disconnected: bool,
    t: AppView,
    request: Option<RequestView>,
)
    requires
        chunks_loaded(s, chunks, disconnected, t, request),
        s.receiving,
        t.entries.len() < usize::MAX,
        s.all_hosts.no_duplicates(),
        s.all_dirs.no_duplicates(),
        t.all_hosts.len() <= usize::MAX,
        t.all_dirs.len() <= usize::MAX,
    ensures
        s.all_hosts.is_prefix_of(t.all_hosts),
        s.all_dirs.is_prefix_of(t.all_dirs),
        t.all_hosts.no_duplicates(),
        t.all_dirs.no_duplicates(),
        forall|i: int| #![trigger t.entries[i]]
            s.entries.len() <= i < t.entries.len() ==> t.all_hosts.contains(t.entries[i].host@)
                && t.all_dirs.contains(t.entries[i].dir@),
        forall|k: int| #![trigger t.all_hosts[k]]
            s.all_hosts.len() <= k < t.all_hosts.len() ==> exists|i: int|
                s.entries.len() <= i < t.entries.len() && #[trigger] t.entries[i].host@
                    == t.all_hosts[k],
        forall|k: int| #![trigger t.all_dirs[k]]
            s.all_dirs.len() <= k < t.all_dirs.len() ==> exists|i: int|
                s.entries.len() <= i < t.entries.len() && #[trigger] t.entries[i].dir@
                    == t.all_dirs[k],
        s.show_overlay && t.all_hosts != s.all_hosts ==> offered(
            s.overlay_host_filter,
            t.all_hosts,
            s.selected_hosts,
            t.overlay_host_filtered,
        ),
        s.show_overlay && t.all_dirs != s.all_dirs ==> offered(
            s.overlay_dir_filter,
            t.all_dirs,
            s.selected_dirs,
            t.overlay_dir_filtered,
        ),
        s.show_overlay && t.all_hosts != s.all_hosts ==> t.overlay_host_selected == 0,
        s.show_overlay && t.all_dirs != s.all_dirs ==> t.overlay_dir_selected == 0,
        !s.show_overlay ==> t.overlay_host_filtered == s.overlay_host_filtered
            && t.overlay_dir_filtered == s.overlay_dir_filtered,
        t.all_hosts == s.all_hosts ==> t.overlay_host_filtered == s.overlay_host_filtered
            && t.overlay_host_selected == s.overlay_host_selected,
        t.all_dirs == s.all_dirs ==> t.overlay_dir_filtered == s.overlay_dir_filtered
            && t.overlay_dir_selected == s.overlay_dir_selected,
{
    lemma_loading(s, chunks, disconnected, t, request);
    let all = chunks.map_values(|c: Vec<HistoryEntry>| c@).flatten();
    let u = loaded(s, chunks, disconnected);
    let n = s.entries.len() as int;
    if all.len() > 0 {
        let v = named(u, n);
        let new = u.entries.skip(n);
        let len = new.len() as int;
        let m = choose|m: AppView|
            followed(v, v.all_hosts != s.all_hosts, v.all_dirs != s.all_dirs, m)
                && #[trigger] extended(m, n, t, request);
        lemma_followed_keeps(v, v.all_hosts != s.all_hosts, v.all_dirs != s.all_dirs, m);
        if trimmed(s.input).len() > 0 {
            lemma_filtering_anew(m, t, request);
        }
        lemma_with_new_complete(s.all_hosts, hosts_of(new), len);
        lemma_with_new_complete(s.all_dirs, dirs_of(new), len);
        assert(t.all_hosts == v.all_hosts && t.all_dirs == v.all_dirs);
        if s.show_overlay && t.all_hosts != s.all_hosts {
            lemma_offering(
                s.overlay_host_filter,
                t.all_hosts,
                s.selected_hosts,
                t.overlay_host_filtered,
            );
        }
        if s.show_overlay && t.all_dirs != s.all_dirs {
            lemma_offering(
                s.overlay_dir_filter,
                t.all_dirs,
                s.selected_dirs,
                t.overlay_dir_filtered,
            );
        }
        assert forall|i: int| #![trigger t.entries[i]]
            s.entries.len() <= i < t.entries.len() implies t.all_hosts.contains(t.entries[i].host@)
            && t.all_dirs.contains(t.entries[i].dir@) by {
            assert(hosts_of(new)[i - n] == t.entries[i].host@);
            assert(dirs_of(new)[i - n] == t.entries[i].dir@);
        }
        assert forall|k: int| #![trigger t.all_hosts[k]]
            s.all_hosts.len() <= k < t.all_hosts.len() implies exists|i: int|
            s.entries.len() <= i < t.entries.len() && #[trigger] t.entries[i].host@
                == t.all_hosts[k] by {
            let j = hosts_of(new).index_of(t.all_hosts[k]);
            assert(t.entries[n + j].host@ == t.all_hosts[k]);
        }
        assert forall|k: int| #![trigger t.all_dirs[k]]
            s.all_dirs.len() <= k < t.all_dirs.len() implies exists|i: int|
            s.entries.len() <= i < t.entries.len() && #[trigger] t.entries[i].dir@
                == t.all_dirs[k] by {
            let j = dirs_of(new).index_of(t.all_dirs[k]);
            assert(t.entries[n + j].dir@ == t.all_dirs[k]);
        }
    } else {
        assert(s.entries + all =~= s.entries);
    }
}

/// The browser starts with nothing loaded and nothing listed, running, with no filter set and the
/// overlay closed. The query that it is started with stands in the input line, with the cursor behind
/// it; what the environment says is kept.
pub proof fn lemma_start(
    query: Option<Seq<char>>,
    host: Option<Seq<char>>,
    session: Option<i64>,
    file: Option<Seq<char>>,
    widget: bool,
    dir: Option<Seq<char>>,
)
    ensures
        ({
            let s = initial_state(query, host, session, file, widget, dir);
            &&& s.entries.len() == 0 && s.filtered.len() == 0 && s.heap.len() == 0
            &&& s.selected == 0 && s.scroll == 0 && s.list_height == 0
            &&& s.running && s.loading && !s.receiving && !s.filter_done && s.output is None
            &&& s.filter_token == 0 && s.restore_entry_idx is None
            &&& query matches Some(q) ==> s.input == q && (encode_utf8(q).len() <= usize::MAX
                ==> s.cursor == encode_utf8(q).len())
            &&& query is None ==> s.input.len() == 0 && s.cursor == 0
            &&& s.initial_query == query && s.host == host && s.session == session && s.file == file
                && s.widget == widget && s.current_dir == dir
            &&& s.selected_hosts.len() == 0 && s.selected_sessions.len() == 0
                && s.selected_dirs.len() == 0
            &&& s.selected_hosts.finite() && s.selected_sessions.finite() && s.selected_dirs.finite()
            &&& !s.show_overlay && s.overlay_active_item == 0 && s.overlay_focus
                == OverlayFocus::Left && s.overlay_right_subfocus == OverlayRightFocus::List
                && s.overlay_active_time_field == TimeField::Start
            &&& s.overlay_host_selected == 0 && s.overlay_dir_selected == 0
            &&& s.overlay_start_time.len() == 0 && s.overlay_start_cursor == 0
            &&& s.overlay_end_time.len() == 0 && s.overlay_end_cursor == 0
            &&& s.overlay_host_filter.len() == 0 && s.overlay_host_filter_cursor == 0
            &&& s.overlay_dir_filter.len() == 0 && s.overlay_dir_filter_cursor == 0
            &&& s.overlay_host_filtered.len() == 0 && s.overlay_dir_filtered.len() == 0
            &&& s.all_hosts.len() == 0 && s.all_dirs.len() == 0
        }),
{
}

} // verus!
