//! How the listing follows the query, the criteria and what has come in.

use super::app::{
    all_usable, clamped, is_first_at, is_found_in, is_listed, restored, usable, App, AppView,
};
use super::filter::{
    accepts, beats, no_rank, views, CriteriaView, FilterCriteria, FilterHeap, FilterMessage,
    FilteredEntry, FilteredView, Rank,
};
use super::heap::is_preview;
use super::names::sessions_to_vec;
use super::search::{message_views, MessageView};
use super::time::{may_read, parse_time_input};
use crate::db::HistoryEntry;
use crate::text::trimmed;
use vstd::multiset::Multiset;
use vstd::prelude::*;

verus! {

broadcast use {
    vstd::seq_lib::group_to_multiset_ensures,
    vstd::multiset::group_multiset_axioms,
};

/// The entries from `start` to `end` that meet the criteria, listed as they come.
pub open spec fn listed(
    entries: Seq<HistoryEntry>,
    start: int,
    end: int,
    c: CriteriaView,
) -> Seq<FilteredView>
    decreases end - start,
{
    if end <= start {
        seq![]
    } else {
        let rest = listed(entries, start, end - 1, c);
        if accepts(c, entries[end - 1]) {
            rest.push(
                FilteredView {
                    idx: (end - 1) as usize,
                    match_indices: seq![],
                    rank: no_rank(),
                    start_time: entries[end - 1].start_time,
                },
            )
        } else {
            rest
        }
    }
}

/// Lists the entries from `start` on that meet the criteria.
pub fn list_entries(entries: &Vec<HistoryEntry>, start: usize, criteria: &FilterCriteria) -> (out: Vec<
    FilteredEntry,
>)
    requires
        start <= entries@.len(),
    ensures
        views(out@) == listed(entries@, start as int, entries@.len() as int, criteria@),
        all_usable(views(out@)),
{
    let mut out: Vec<FilteredEntry> = Vec::new();
    let mut i = start;
    assert(views(out@) =~= seq![]);
    while i < entries.len()
        invariant
            start <= i <= entries@.len(),
            views(out@) == listed(entries@, start as int, i as int, criteria@),
            all_usable(views(out@)),
        decreases entries@.len() - i,
    {
        if criteria.matches(&entries[i]) {
            let fe = FilteredEntry {
                idx: i,
                match_indices: Vec::new(),
                rank: Rank::default(),
                start_time: entries[i].start_time,
            };
            let ghost before = views(out@);
            out.push(fe);
            assert(fe@.match_indices =~= seq![]);
            assert(views(out@) =~= before.push(fe@));
        }
        i = i + 1;
    }
    out
}

/// A search that has to be started.
pub struct FilterRequest {
    pub query: String,
    pub token: u64,
    pub criteria: FilterCriteria,
}

/// What a search that has to be started holds.
#[verifier::ext_equal]
pub struct RequestView {
    pub query: Seq<char>,
    pub token: u64,
    pub criteria: CriteriaView,
}

impl View for FilterRequest {
    type V = RequestView;

    open spec fn view(&self) -> RequestView {
        RequestView { query: self.query@, token: self.token, criteria: self.criteria@ }
    }
}

/// What the request holds, where there is one.
pub open spec fn request_view(r: Option<FilterRequest>) -> Option<RequestView> {
    match r {
        Some(q) => Some(q@),
        None => None,
    }
}

/// The criteria that are set, with the given ends of the time range.
pub open spec fn criteria_of(
    s: AppView,
    start_time: Option<i64>,
    end_time: Option<i64>,
) -> CriteriaView {
    CriteriaView {
        hosts: s.selected_hosts,
        sessions: s.selected_sessions,
        dirs: s.selected_dirs,
        start_time,
        end_time,
    }
}

/// Whether `c` may be the criteria that are set: their times come from the overlay's texts.
pub open spec fn may_be_active(s: AppView, c: CriteriaView) -> bool {
    &&& c == criteria_of(s, c.start_time, c.end_time)
    &&& may_read(s.overlay_start_time, false, c.start_time)
    &&& may_read(s.overlay_end_time, true, c.end_time)
}

/// The token after the given one.
pub open spec fn next_token(token: u64) -> u64 {
    if token == u64::MAX {
        0
    } else {
        (token + 1) as u64
    }
}

/// Whether there is nothing to search for.
pub open spec fn no_query(s: AppView) -> bool {
    trimmed(s.input).len() == 0
}

/// The state with all entries listed that meet the criteria.
pub open spec fn relisted(s: AppView, c: CriteriaView) -> AppView {
    AppView {
        heap: Multiset::empty(),
        filter_done: true,
        filtered: listed(s.entries, 0, s.entries.len() as int, c),
        filter_token: next_token(s.filter_token),
        ..s
    }
}

/// The state with a search for the query just begun: the old list stays until results come.
pub open spec fn searching(s: AppView) -> AppView {
    AppView {
        heap: Multiset::empty(),
        filter_done: false,
        filter_token: next_token(s.filter_token),
        ..s
    }
}

/// Whether filtering anew with criteria `c` leads from `s` to `t` and asks for `request`:
/// without a query the entries are listed at once, with one a search has to be started.
pub open spec fn refiltered(
    s: AppView,
    c: CriteriaView,
    t: AppView,
    request: Option<RequestView>,
) -> bool {
    if no_query(s) {
        &&& request is None
        &&& exists|m: AppView| #[trigger] restored(relisted(s, c), m) && t == clamped(m)
    } else {
        &&& t == searching(s)
        &&& request == Some(
            RequestView { query: trimmed(s.input), token: t.filter_token, criteria: c },
        )
    }
}

/// Whether filtering anew may lead from `s` to `t` and ask for `request`.
pub open spec fn may_refilter(s: AppView, t: AppView, request: Option<RequestView>) -> bool {
    exists|c: CriteriaView| may_be_active(s, c) && #[trigger] refiltered(s, c, t, request)
}

/// The place at which the entry `target` is listed first.
fn first_place(filtered: &Vec<FilteredEntry>, target: usize) -> (r: Option<usize>)
    ensures
        match r {
            Some(at) => is_first_at(views(filtered@), target, at as int),
            None => !is_listed(views(filtered@), target),
        },
{
    let mut i: usize = 0;
    while i < filtered.len()
        invariant
            i <= filtered@.len(),
            forall|j: int| 0 <= j < i ==> #[trigger] views(filtered@)[j].idx != target,
        decreases filtered@.len() - i,
    {
        assert(views(filtered@)[i as int].idx == filtered@[i as int].idx);
        if filtered[i].idx == target {
            return Some(i);
        }
        i = i + 1;
    }
    None
}

/// Takes the result for the entry `target` out of the heap.
fn take_entry(heap: &mut FilterHeap, target: usize) -> (found: Option<FilteredEntry>)
    requires
        old(heap).wf(),
    ensures
        final(heap).wf(),
        match found {
            Some(fe) => is_found_in(old(heap)@, target, fe@) && final(heap)@ == old(heap)@.remove(
                fe@,
            ),
            None => final(heap)@ == old(heap)@ && forall|x: FilteredView| #[trigger]
                old(heap)@.contains(x) ==> x.idx != target,
        },
{
    let ghost all = heap@;
    let mut drained: Vec<FilteredEntry> = Vec::new();
    let mut found: Option<FilteredEntry> = None;
    let mut open = true;
    proof {
        assert(views(drained@) =~= seq![]);
        assert(views(drained@).to_multiset().len() == 0);
        assert(all =~= views(drained@).to_multiset().add(heap@));
    }
    while open
        invariant
            heap.wf(),
            forall|x: FilteredView| #[trigger]
                views(drained@).to_multiset().contains(x) ==> x.idx != target,
            open ==> found is None && all == views(drained@).to_multiset().add(heap@),
            !open ==> match found {
                Some(fe) => is_found_in(all, target, fe@) && all == views(
                    drained@,
                ).to_multiset().add(heap@).insert(fe@),
                None => all == views(drained@).to_multiset() && heap@.len() == 0,
            },
        decreases
            heap@.len() + (if open {
                1int
            } else {
                0
            }),
    {
        let ghost before = views(drained@);
        let ghost rest = heap@;
        match heap.pop() {
            Some(fe) => {
                if fe.idx == target {
                    open = false;
                    proof {
                        assert(all =~= before.to_multiset().add(heap@).insert(fe@));
                        assert forall|x: FilteredView| #[trigger] all.contains(x) && x.idx
                            == target implies !beats(x, fe@) by {
                            assert(!before.to_multiset().contains(x));
                            assert(rest.contains(x));
                        }
                        assert(is_found_in(all, target, fe@));
                    }
                    found = Some(fe);
                } else {
                    drained.push(fe);
                    proof {
                        assert(views(drained@) =~= before.push(fe@));
                        assert(all =~= views(drained@).to_multiset().add(heap@));
                        assert forall|x: FilteredView| #[trigger]
                            views(drained@).to_multiset().contains(x) implies x.idx != target by {
                            assert(x == fe@ || before.to_multiset().contains(x));
                        }
                    }
                }
            },
            None => {
                open = false;
                proof {
                    assert(all =~= before.to_multiset());
                }
            },
        }
    }
    let ghost back = views(drained@).to_multiset();
    let ghost left = heap@;
    heap.extend(drained);
    proof {
        if found is Some {
            assert(heap@ =~= all.remove(found->0@));
        } else {
            assert(heap@ =~= all);
            assert forall|x: FilteredView| #[trigger] all.contains(x) implies x.idx != target by {
                assert(back.contains(x));
            }
        }
    }
    found
}

impl App {
    /// Selects the remembered entry again.
    #[verifier::rlimit(30)]
    pub fn restore_selection(&mut self)
        requires
            old(self).wf(),
        ensures
            final(self).wf(),
            restored(old(self)@, final(self)@),
    {
        let ghost s = self@;
        let target = match self.restore_entry_idx.take() {
            Some(idx) => idx,
            None => {
                return ;
            },
        };
        let ghost u = AppView { restore_entry_idx: None, ..s };
        assert(self@ =~= u);
        if let Some(pos) = first_place(&self.filtered, target) {
            assert(pos < self.filtered.len());
            assert(s.filtered[pos as int].idx == target);
            self.selected = pos;
            assert(self@ =~= (AppView { selected: pos, ..u }));
            return ;
        }
        match take_entry(&mut self.heap, target) {
            Some(fe) => {
                self.filtered.push(fe);
                self.selected = self.filtered.len() - 1;
                proof {
                    let e = fe@;
                    let t = self@;
                    assert(t.filtered =~= s.filtered.push(e));
                    assert(s.heap.contains(e) && e.idx == target);
                    assert(usable(e));
                    assert forall|x: FilteredView| #[trigger] t.heap.contains(x) implies usable(
                        x,
                    ) by {
                        assert(s.heap.contains(x));
                    }
                    let w = AppView {
                        filtered: s.filtered.push(e),
                        heap: s.heap.remove(e),
                        selected: s.filtered.len() as usize,
                        ..u
                    };
                    assert(t =~= w);
                    assert(is_found_in(s.heap, target, e));
                }
            },
            None => {
                assert(self@ =~= u);
            },
        }
    }

    /// The criteria that are set, with the given ends of the time range.
    pub fn criteria_with(&self, start_time: Option<i64>, end_time: Option<i64>) -> (c:
        FilterCriteria)
        requires
            self.wf(),
        ensures
            c@ == criteria_of(self@, start_time, end_time),
    {
        FilterCriteria {
            hosts: self.selected_hosts.to_vec(),
            sessions: sessions_to_vec(&self.selected_sessions),
            dirs: self.selected_dirs.to_vec(),
            start_time,
            end_time,
        }
    }

    /// The criteria that are set.
    pub fn active_filter_criteria(&self) -> (c: FilterCriteria)
        requires
            self.wf(),
        ensures
            may_be_active(self@, c@),
    {
        let start_time = parse_time_input(self.overlay_start_time.as_str(), false);
        let end_time = parse_time_input(self.overlay_end_time.as_str(), true);
        self.criteria_with(start_time, end_time)
    }

    /// Filters anew with the given criteria.
    pub fn filter_entries_by(&mut self, criteria: FilterCriteria) -> (request: Option<FilterRequest>)
        requires
            old(self).wf(),
        ensures
            final(self).wf(),
            refiltered(old(self)@, criteria@, final(self)@, request_view(request)),
    {
        let ghost s = self@;
        let query = self.input.as_str().trim().to_owned();
        let token = self.filter_token.wrapping_add(1);
        assert(token == next_token(s.filter_token));
        self.heap.clear();
        self.filter_token = token;
        if query.as_str().is_empty() {
            self.filter_done = true;
            self.filtered = list_entries(&self.entries, 0, &criteria);
            assert(self@ =~= relisted(s, criteria@));
            self.restore_selection();
            self.clamp_filter_state();
            None
        } else {
            self.filter_done = false;
            assert(self@ =~= searching(s));
            Some(FilterRequest { query, token, criteria })
        }
    }

    /// Filters anew. Where there is a query, gives the search that has to be started in place
    /// of the one that may be running.
    pub fn filter_entries(&mut self) -> (request: Option<FilterRequest>)
        requires
            old(self).wf(),
        ensures
            final(self).wf(),
            may_refilter(old(self)@, final(self)@, request_view(request)),
    {
        let criteria = self.active_filter_criteria();
        self.filter_entries_by(criteria)
    }
}

/// Whether the results in a message have usable match positions.
pub open spec fn usable_message(m: MessageView) -> bool {
    m matches MessageView::Batch(_, batch) ==> all_usable(batch)
}

/// Whether a message of the running search leads from `s` to `t`, or one of an older search to
/// nothing. Results join the heap; at the end the list is empty and the heap is complete.
pub open spec fn received(s: AppView, msg: MessageView, t: AppView) -> bool {
    match msg {
        MessageView::Batch(token, batch) => if token == s.filter_token {
            t == (AppView { heap: s.heap.add(batch.to_multiset()), ..s })
        } else {
            t == s
        },
        MessageView::Done(token) => if token == s.filter_token {
            exists|m: AppView| #[trigger]
                restored(AppView { filter_done: true, filtered: seq![], ..s }, m) && t == clamped(
                    m,
                )
        } else {
            t == s
        },
    }
}

/// Whether the messages lead from `s` to `t`, one after the other.
pub open spec fn received_all(s: AppView, msgs: Seq<MessageView>, t: AppView) -> bool
    decreases msgs.len(),
{
    if msgs.len() == 0 {
        t == s
    } else {
        exists|m: AppView|
            received_all(s, msgs.drop_last(), m) && #[trigger] received(m, msgs.last(), t)
    }
}

/// Whether results of the search with this token are among the messages.
pub open spec fn has_batch(token: u64, msgs: Seq<MessageView>) -> bool {
    exists|i: int|
        0 <= i < msgs.len() && (#[trigger] msgs[i] matches MessageView::Batch(t, _) && t == token)
}

/// How many results are shown while a search runs.
pub open spec fn preview_len(height: u16) -> int {
    if height > 20 {
        height as int
    } else {
        20
    }
}

/// Whether the messages that have come in lead from `s` to `t`. While the search still runs, new
/// results show up as a preview of the best.
pub open spec fn checked(s: AppView, msgs: Seq<MessageView>, t: AppView) -> bool {
    exists|m: AppView| #[trigger] received_all(s, msgs, m) && if has_batch(s.filter_token, msgs)
        && !m.filter_done {
        exists|top: Seq<FilteredView>| #[trigger]
            is_preview(m.heap, preview_len(m.list_height), top) && t == clamped(
                AppView { filtered: top, ..m },
            )
    } else {
        t == m
    }
}

impl App {
    /// Takes in one message of a search.
    pub fn receive(&mut self, msg: FilterMessage)
        requires
            old(self).wf(),
            usable_message(msg@),
        ensures
            final(self).wf(),
            received(old(self)@, msg@, final(self)@),
    {
        let ghost s = self@;
        match msg {
            FilterMessage::Batch(token, batch) => {
                if token == self.filter_token {
                    let ghost added = views(batch@);
                    self.heap.extend(batch);
                    proof {
                        assert(self@ =~= (AppView { heap: s.heap.add(added.to_multiset()), ..s }));
                        assert forall|e: FilteredView| #[trigger]
                            self@.heap.contains(e) implies usable(e) by {
                            if !s.heap.contains(e) {
                                assert(added.to_multiset().contains(e));
                                assert(added.contains(e));
                                let k = added.index_of(e);
                                assert(usable(added[k]));
                            }
                        }
                    }
                }
            },
            FilterMessage::Done(token) => {
                if token == self.filter_token {
                    self.filter_done = true;
                    self.filtered = Vec::new();
                    assert(views(self.filtered@) =~= seq![]);
                    assert(self@ =~= (AppView { filter_done: true, filtered: seq![], ..s }));
                    self.restore_selection();
                    self.clamp_filter_state();
                }
            },
        }
    }

    /// Takes in the messages that searches have sent.
    pub fn check_filter_results(&mut self, messages: Vec<FilterMessage>)
        requires
            old(self).wf(),
            forall|i: int| 0 <= i < messages@.len() ==> usable_message(#[trigger] messages@[i]@),
        ensures
            final(self).wf(),
            checked(old(self)@, message_views(messages@), final(self)@),
    {
        let ghost s = self@;
        let ghost msgs = message_views(messages@);
        let token = self.filter_token;
        let mut received = false;
        proof {
            assert(msgs.take(0) =~= seq![]);
        }
        for msg in it: messages
            invariant
                it.seq() == messages@,
                msgs == message_views(messages@),
                self.wf(),
                token == s.filter_token,
                self.filter_token == token,
                forall|i: int| 0 <= i < messages@.len() ==> usable_message(#[trigger] messages@[i]@),
                received_all(s, msgs.take(it.index()), self@),
                received == has_batch(token, msgs.take(it.index())),
        {
            let ghost before = self@;
            let ghost k = it.index();
            let ghost sofar = msgs.take(k);
            let ghost longer = msgs.take(k + 1);
            proof {
                assert(messages@[k] == msg);
                assert(longer.drop_last() =~= sofar);
                assert(longer.last() == msg@);
                assert forall|i: int| 0 <= i < k implies sofar[i] == #[trigger] longer[i] by {}
                lemma_has_batch_step(token, sofar, msg@);
                assert(longer =~= sofar.push(msg@));
            }
            if let FilterMessage::Batch(t, _) = &msg {
                if *t == token {
                    received = true;
                }
            }
            self.receive(msg);
        }
        proof {
            assert(msgs.take(msgs.len() as int) =~= msgs);
        }
        if received && !self.filter_done {
            let ghost m = self@;
            let n: usize = if self.list_height > 20 { self.list_height as usize } else { 20 };
            self.preview(n);
            assert(is_preview(m.heap, preview_len(m.list_height), self@.filtered));
            self.clamp_filter_state();
        }
    }
}

proof fn lemma_has_batch_step(token: u64, msgs: Seq<MessageView>, msg: MessageView)
    ensures
        has_batch(token, msgs.push(msg)) <==> has_batch(token, msgs) || (msg
            matches MessageView::Batch(t, _) && t == token),
{
    let longer = msgs.push(msg);
    if has_batch(token, msgs) {
        let i = choose|i: int|
            0 <= i < msgs.len() && (#[trigger] msgs[i] matches MessageView::Batch(t, _) && t
                == token);
        assert(longer[i] == msgs[i]);
    }
    assert(longer[msgs.len() as int] == msg);
    if has_batch(token, longer) {
        let i = choose|i: int|
            0 <= i < longer.len() && (#[trigger] longer[i] matches MessageView::Batch(t, _) && t
                == token);
        if i < msgs.len() {
            assert(msgs[i] == longer[i]);
        }
    }
}

} // verus!
