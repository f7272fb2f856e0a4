//! Searching the history batch by batch.

use super::app::all_usable;
use super::filter::{
    accepts, views, CriteriaView, FilterCriteria, FilterMessage, FilteredEntry, FilteredView,
};
use super::matching::{
    match_texts, match_view, match_views, matched, may_match, text_matches, text_refs, TextMatch,
    TextMatchView,
};
use super::results::usable_message;
use crate::db::HistoryEntry;
use crate::text::trimmed;
use std::sync::atomic::AtomicBool;
use vstd::prelude::*;

verus! {

/// How many entries are searched between two messages.
pub const BATCH_SIZE: usize = 5000;

/// What a message holds.
#[verifier::ext_equal]
pub enum MessageView {
    Batch(u64, Seq<FilteredView>),
    Done(u64),
}

impl View for FilterMessage {
    type V = MessageView;

    open spec fn view(&self) -> MessageView {
        match *self {
            FilterMessage::Batch(token, batch) => MessageView::Batch(token, views(batch@)),
            FilterMessage::Done(token) => MessageView::Done(token),
        }
    }
}

/// What each of the messages holds.
pub open spec fn message_views(s: Seq<FilterMessage>) -> Seq<MessageView> {
    s.map_values(|m: FilterMessage| m@)
}

/// What a message holds, where there is one.
pub open spec fn message_view(m: Option<FilterMessage>) -> Option<MessageView> {
    match m {
        Some(msg) => Some(msg@),
        None => None,
    }
}

/// The positions from `start` to `end` of entries that meet the criteria and for which the search
/// was `live`.
pub open spec fn candidates(
    entries: Seq<HistoryEntry>,
    start: int,
    end: int,
    live: Seq<bool>,
    c: CriteriaView,
) -> Seq<usize>
    decreases end - start,
{
    if end <= start {
        seq![]
    } else {
        let rest = candidates(entries, start, end - 1, live, c);
        if live[end - 1 - start] && accepts(c, entries[end - 1]) {
            rest.push((end - 1) as usize)
        } else {
            rest
        }
    }
}

/// The commands of the entries at the given positions.
pub open spec fn commands(entries: Seq<HistoryEntry>, picked: Seq<usize>) -> Seq<Seq<char>> {
    picked.map_values(|i: usize| entries[i as int].argv@)
}

/// What is listed for the entries at the given positions, when matching them gave `found`.
pub open spec fn collected(
    entries: Seq<HistoryEntry>,
    picked: Seq<usize>,
    found: Seq<Option<TextMatchView>>,
) -> Seq<FilteredView>
    decreases picked.len(),
{
    if picked.len() == 0 {
        seq![]
    } else {
        let rest = collected(entries, picked.drop_last(), found);
        match found[picked.len() - 1] {
            Some(m) => rest.push(
                FilteredView {
                    idx: picked.last(),
                    match_indices: m.indices,
                    rank: m.rank,
                    start_time: entries[picked.last() as int].start_time,
                },
            ),
            None => rest,
        }
    }
}

/// Whether `batch` is an outcome of searching the entries from `start` to `end`, of which those
/// are looked at for which the search was `live`.
pub open spec fn is_batch(
    entries: Seq<HistoryEntry>,
    start: int,
    end: int,
    query: Seq<char>,
    c: CriteriaView,
    live: Seq<bool>,
    batch: Seq<FilteredView>,
) -> bool {
    exists|found: Seq<Option<TextMatchView>>|
        #[trigger] batch_comes_from(entries, start, end, query, c, batch, live, found)
}

/// Whether `batch` is what is listed when matching the candidates gave `found`.
pub open spec fn batch_comes_from(
    entries: Seq<HistoryEntry>,
    start: int,
    end: int,
    query: Seq<char>,
    c: CriteriaView,
    batch: Seq<FilteredView>,
    live: Seq<bool>,
    found: Seq<Option<TextMatchView>>,
) -> bool {
    let picked = candidates(entries, start, end, live, c);
    &&& live.len() == end - start
    &&& matched(query, commands(entries, picked), found)
    &&& batch == collected(entries, picked, found)
}

proof fn lemma_candidates_sound(
    entries: Seq<HistoryEntry>,
    start: int,
    end: int,
    live: Seq<bool>,
    c: CriteriaView,
)
    requires
        0 <= start <= end <= entries.len(),
        entries.len() <= usize::MAX,
    ensures
        ({
            let picked = candidates(entries, start, end, live, c);
            &&& picked.len() <= end - start
            &&& forall|k: int| #![trigger picked[k]]
                0 <= k < picked.len() ==> start <= picked[k] < end && accepts(
                    c,
                    entries[picked[k] as int],
                )
            &&& forall|k: int, l: int| 0 <= k < l < picked.len() ==> picked[k] < picked[l]
        }),
    decreases end - start,
{
    if start < end {
        lemma_candidates_sound(entries, start, end - 1, live, c);
    }
}

/// Reads the flag that another thread may set at any time. So nothing is known of the answer, not
/// even from one call to the next; what follows from it stands in `pick_live` and
/// `FilterRun::advance`.
fn is_cancelled(cancel: &AtomicBool) -> bool {
    cancel.load(std::sync::atomic::Ordering::Relaxed)
}

/// Reads the flag once for each of `n` entries.
fn read_live(cancel: &AtomicBool, n: usize) -> (live: Vec<bool>)
    ensures
        live@.len() == n,
{
    let mut live: Vec<bool> = Vec::new();
    while live.len() < n
        invariant
            live@.len() <= n,
        decreases n - live@.len(),
    {
        live.push(!is_cancelled(cancel));
    }
    live
}

/// The positions from `start` to `end` of entries that meet the criteria and for which the search
/// was `live`.
pub fn pick_live(
    entries: &[HistoryEntry],
    start: usize,
    end: usize,
    live: &Vec<bool>,
    criteria: &FilterCriteria,
) -> (picked: Vec<usize>)
    requires
        start <= end <= entries@.len(),
        live@.len() == end - start,
    ensures
        picked@ == candidates(entries@, start as int, end as int, live@, criteria@),
{
    let mut picked: Vec<usize> = Vec::new();
    let mut i = start;
    while i < end
        invariant
            start <= i <= end <= entries@.len(),
            live@.len() == end - start,
            picked@ == candidates(entries@, start as int, i as int, live@, criteria@),
        decreases end - i,
    {
        if live[i - start] && criteria.matches(&entries[i]) {
            picked.push(i);
        }
        i = i + 1;
    }
    picked
}

/// Lists the entries at the given positions that matched.
pub fn collect_matches(
    entries: &[HistoryEntry],
    picked: &Vec<usize>,
    found: Vec<Option<TextMatch>>,
) -> (batch: Vec<FilteredEntry>)
    requires
        found@.len() == picked@.len(),
        forall|k: int| 0 <= k < picked@.len() ==> #[trigger] picked@[k] < entries@.len(),
    ensures
        views(batch@) == collected(entries@, picked@, match_views(found@)),
{
    let ghost all = match_views(found@);
    let mut found = found;
    let mut batch: Vec<FilteredEntry> = Vec::new();
    let mut i: usize = 0;
    proof {
        assert(views(batch@) =~= collected(entries@, picked@.take(0), all));
    }
    while i < picked.len()
        invariant
            i <= picked@.len(),
            found@.len() == picked@.len(),
            all.len() == picked@.len(),
            forall|k: int| 0 <= k < picked@.len() ==> #[trigger] picked@[k] < entries@.len(),
            forall|k: int| i <= k < found@.len() ==> match_view(#[trigger] found@[k]) == all[k],
            views(batch@) == collected(entries@, picked@.take(i as int), all),
        decreases picked@.len() - i,
    {
        let ghost before = views(batch@);
        assert(match_view(found@[i as int]) == all[i as int]);
        let m = found[i].take();
        let at = picked[i];
        proof {
            assert(picked@.take(i + 1).drop_last() =~= picked@.take(i as int));
            assert(picked@.take(i + 1).last() == at);
        }
        if let Some(m) = m {
            let fe = FilteredEntry {
                idx: at,
                match_indices: m.indices,
                rank: m.rank,
                start_time: entries[at].start_time,
            };
            batch.push(fe);
            assert(views(batch@) =~= before.push(fe@));
        }
        i = i + 1;
    }
    assert(picked@.take(i as int) =~= picked@);
    batch
}

/// Searches the entries from `start` to `end`, as far as the search was `live`, for a query.
fn search_batch(
    query: &str,
    entries: &[HistoryEntry],
    start: usize,
    end: usize,
    live: &Vec<bool>,
    criteria: &FilterCriteria,
) -> (batch: Vec<FilteredEntry>)
    requires
        start <= end <= entries@.len(),
        live@.len() == end - start,
    ensures
        is_batch(entries@, start as int, end as int, query@, criteria@, live@, views(batch@)),
{
    let picked = pick_live(entries, start, end, live, criteria);
    proof {
        assert(entries@.len() <= usize::MAX) by {
            let n = entries.len();
        }
        lemma_candidates_sound(entries@, start as int, end as int, live@, criteria@);
    }
    let mut items: Vec<&String> = Vec::new();
    let mut i: usize = 0;
    while i < picked.len()
        invariant
            i <= picked@.len(),
            items@.len() == i,
            forall|k: int| 0 <= k < picked@.len() ==> #[trigger] picked@[k] < entries@.len(),
            forall|k: int| 0 <= k < i ==> items@[k] == entries@[picked@[k] as int].argv,
        decreases picked@.len() - i,
    {
        items.push(&entries[picked[i]].argv);
        i = i + 1;
    }
    let found = match_texts(query, &items);
    proof {
        assert(text_refs(items@) =~= commands(entries@, picked@));
    }
    let ghost outcome = match_views(found@);
    let batch = collect_matches(entries, &picked, found);
    proof {
        assert(batch_comes_from(
            entries@,
            start as int,
            end as int,
            query@,
            criteria@,
            views(batch@),
            live@,
            outcome,
        ));
    }
    batch
}

/// A search under way.
pub struct FilterRun {
    pub query: String,
    pub token: u64,
    pub next: usize,
    pub finished: bool,
}

/// What a search under way holds.
#[verifier::ext_equal]
pub struct RunView {
    pub query: Seq<char>,
    pub token: u64,
    pub next: usize,
    pub finished: bool,
}

impl View for FilterRun {
    type V = RunView;

    open spec fn view(&self) -> RunView {
        RunView {
            query: self.query@,
            token: self.token,
            next: self.next,
            finished: self.finished,
        }
    }
}

/// A search that is about to start. There is nothing to do for a query of white space.
pub open spec fn run_start(query: Seq<char>, token: u64) -> RunView {
    RunView { query: trimmed(query), token, next: 0, finished: trimmed(query).len() == 0 }
}

/// Where the batch ends that starts at `start`.
pub open spec fn batch_end(start: int, len: int) -> int {
    if start + BATCH_SIZE < len {
        start + BATCH_SIZE
    } else {
        len
    }
}

/// What was read of the flag around one batch: whether the search was cancelled before it, and
/// for which of its entries the search was still live.
#[verifier::ext_equal]
pub struct Reading {
    pub cancelled: bool,
    pub live: Seq<bool>,
}

/// Whether a search in state `s` may go on to state `t` with message `msg`, when the flag was
/// read as `r`: batch after batch, then the end. It stops without a message when it finds itself
/// cancelled before a batch.
pub open spec fn run_step(
    s: RunView,
    entries: Seq<HistoryEntry>,
    c: CriteriaView,
    r: Reading,
    t: RunView,
    msg: Option<MessageView>,
) -> bool {
    if s.finished {
        t == s && msg is None
    } else if s.next >= entries.len() {
        t == (RunView { finished: true, ..s }) && msg == Some(MessageView::Done(s.token))
    } else if r.cancelled {
        t == (RunView { finished: true, ..s }) && msg is None
    } else {
        let end = batch_end(s.next as int, entries.len() as int);
        &&& t == (RunView { next: end as usize, ..s })
        &&& msg matches Some(MessageView::Batch(token, batch)) && token == s.token && is_batch(
            entries,
            s.next as int,
            end,
            s.query,
            c,
            r.live,
            batch,
        )
    }
}

/// Whether a search can get from `s` to `t` with the messages `msgs`, when the flag was read as
/// `rs`, once for each of them.
pub open spec fn run_steps(
    s: RunView,
    entries: Seq<HistoryEntry>,
    c: CriteriaView,
    rs: Seq<Reading>,
    t: RunView,
    msgs: Seq<MessageView>,
) -> bool
    decreases msgs.len(),
{
    if msgs.len() == 0 {
        t == s && rs.len() == 0
    } else {
        &&& rs.len() > 0
        &&& exists|m: RunView|
            run_steps(s, entries, c, rs.drop_last(), m, msgs.drop_last()) && #[trigger] run_step(
                m,
                entries,
                c,
                rs.last(),
                t,
                Some(msgs.last()),
            )
    }
}

/// Whether a search from `s` on can give the messages `msgs` and then no more, when the flag was
/// read as `rs`.
pub open spec fn run_gives(
    s: RunView,
    entries: Seq<HistoryEntry>,
    c: CriteriaView,
    rs: Seq<Reading>,
    msgs: Seq<MessageView>,
) -> bool {
    &&& rs.len() > 0
    &&& exists|t: RunView, u: RunView|
        run_steps(s, entries, c, rs.drop_last(), t, msgs) && #[trigger] run_step(
            t,
            entries,
            c,
            rs.last(),
            u,
            None,
        )
}

/// Whether a search in state `s` may go on to state `t` with message `msg`, whatever is read of
/// the flag.
pub open spec fn may_step(
    s: RunView,
    entries: Seq<HistoryEntry>,
    c: CriteriaView,
    t: RunView,
    msg: Option<MessageView>,
) -> bool {
    exists|r: Reading| #[trigger] run_step(s, entries, c, r, t, msg)
}

/// Whether a search from `s` on may give the messages `msgs` and then no more, whatever is read
/// of the flag.
pub open spec fn may_give(
    s: RunView,
    entries: Seq<HistoryEntry>,
    c: CriteriaView,
    msgs: Seq<MessageView>,
) -> bool {
    exists|rs: Seq<Reading>| #[trigger] run_gives(s, entries, c, rs, msgs)
}

/// How many entries the next batch has.
pub open spec fn batch_len(s: RunView, len: int) -> int {
    if s.finished || s.next >= len {
        0
    } else {
        batch_end(s.next as int, len) - s.next
    }
}

impl FilterRun {
    /// Prepares a search; its messages will carry `token`.
    pub fn new(query: &str, token: u64) -> (run: Self)
        ensures
            run@ == run_start(query@, token),
    {
        let query = query.trim().to_owned();
        let finished = query.as_str().is_empty();
        FilterRun { query, token, next: 0, finished }
    }

    /// How many entries the next batch has, in a history of `len` entries.
    pub fn next_len(&self, len: usize) -> (n: usize)
        ensures
            n == batch_len(self@, len as int),
    {
        if self.finished || self.next >= len {
            0
        } else if len - self.next > BATCH_SIZE {
            BATCH_SIZE
        } else {
            len - self.next
        }
    }

    /// Searches one batch. `None` when there is nothing more to come.
    pub fn next_message(
        &mut self,
        entries: &[HistoryEntry],
        cancel: &AtomicBool,
        criteria: &FilterCriteria,
    ) -> (msg: Option<FilterMessage>)
        ensures
            may_step(old(self)@, entries@, criteria@, final(self)@, message_view(msg)),
            msg matches Some(m) ==> usable_message(m@),
    {
        let cancelled = is_cancelled(cancel);
        let live = read_live(cancel, self.next_len(entries.len()));
        self.advance(entries, cancelled, &live, criteria)
    }

    /// Searches one batch, unless the search was found `cancelled` before it; `live` says for
    /// which of its entries the search was not. `None` when there is nothing more to come.
    pub fn advance(
        &mut self,
        entries: &[HistoryEntry],
        cancelled: bool,
        live: &Vec<bool>,
        criteria: &FilterCriteria,
    ) -> (msg: Option<FilterMessage>)
        requires
            live@.len() == batch_len(old(self)@, entries@.len() as int),
        ensures
            run_step(
                old(self)@,
                entries@,
                criteria@,
                Reading { cancelled, live: live@ },
                final(self)@,
                message_view(msg),
            ),
            msg matches Some(m) ==> usable_message(m@),
    {
        if self.finished {
            return None;
        }
        let len = entries.len();
        let start = self.next;
        if start >= len {
            self.finished = true;
            return Some(FilterMessage::Done(self.token));
        }
        if cancelled {
            self.finished = true;
            return None;
        }
        let end = if len - start > BATCH_SIZE { start + BATCH_SIZE } else { len };
        let batch = search_batch(self.query.as_str(), entries, start, end, live, criteria);
        self.next = end;
        proof {
            lemma_batch_usable(
                entries@,
                start as int,
                end as int,
                self.query@,
                criteria@,
                live@,
                views(batch@),
            );
        }
        Some(FilterMessage::Batch(self.token, batch))
    }
}

proof fn lemma_collected_usable(
    query: Seq<char>,
    entries: Seq<HistoryEntry>,
    picked: Seq<usize>,
    found: Seq<Option<TextMatchView>>,
    n: int,
)
    requires
        matched(query, commands(entries, picked), found),
        0 <= n <= picked.len(),
    ensures
        all_usable(collected(entries, picked.take(n), found)),
    decreases n,
{
    if n > 0 {
        lemma_collected_usable(query, entries, picked, found, n - 1);
        let part = picked.take(n);
        assert(part.drop_last() =~= picked.take(n - 1));
        if found[n - 1] is Some {
            let m = found[n - 1]->0;
            assert forall|k: int| 0 <= k < m.indices.len() implies #[trigger] m.indices[k]
                < usize::MAX by {
                assert(found[n - 1]->0.indices[k] < usize::MAX);
            }
        }
    }
}

proof fn lemma_batch_usable(
    entries: Seq<HistoryEntry>,
    start: int,
    end: int,
    query: Seq<char>,
    c: CriteriaView,
    live: Seq<bool>,
    batch: Seq<FilteredView>,
)
    requires
        is_batch(entries, start, end, query, c, live, batch),
    ensures
        all_usable(batch),
{
    let found = choose|found: Seq<Option<TextMatchView>>|
        #[trigger] batch_comes_from(entries, start, end, query, c, batch, live, found);
    let picked = candidates(entries, start, end, live, c);
    lemma_collected_usable(query, entries, picked, found, picked.len() as int);
    assert(picked.take(picked.len() as int) =~= picked);
}

/// Runs a search to its end and gives its messages in order.
pub fn run_filter_streaming(
    query: &str,
    entries: &[HistoryEntry],
    cancel: &AtomicBool,
    token: u64,
    criteria: &FilterCriteria,
) -> (messages: Vec<FilterMessage>)
    ensures
        may_give(run_start(query@, token), entries@, criteria@, message_views(messages@)),
        forall|i: int| 0 <= i < messages@.len() ==> usable_message(#[trigger] messages@[i]@),
{
    let mut messages: Vec<FilterMessage> = Vec::new();
    let mut run = FilterRun::new(query, token);
    let ghost start = run@;
    let ghost mut rs: Seq<Reading> = seq![];
    let n = entries.len();
    proof {
        assert(message_views(messages@) =~= seq![]);
    }
    loop
        invariant_except_break
            run.next <= n == entries@.len(),
            start == run_start(query@, token),
            run_steps(start, entries@, criteria@, rs, run@, message_views(messages@)),
            forall|i: int| 0 <= i < messages@.len() ==> usable_message(#[trigger] messages@[i]@),
        ensures
            forall|i: int| 0 <= i < messages@.len() ==> usable_message(#[trigger] messages@[i]@),
            may_give(start, entries@, criteria@, message_views(messages@)),
        decreases n - run.next + (if run.finished { 0int } else { 1 }),
    {
        let ghost state = run@;
        let ghost sent = message_views(messages@);
        let next = run.next_message(entries, cancel, criteria);
        let ghost r = choose|r: Reading| #[trigger]
            run_step(state, entries@, criteria@, r, run@, message_view(next));
        let ghost read = rs.push(r);
        assert(read.drop_last() =~= rs);
        match next {
            Some(msg) => {
                messages.push(msg);
                proof {
                    let longer = message_views(messages@);
                    assert(longer =~= sent.push(msg@));
                    assert(longer.drop_last() =~= sent);
                    assert(run_step(
                        state,
                        entries@,
                        criteria@,
                        read.last(),
                        run@,
                        Some(longer.last()),
                    ));
                    rs = read;
                }
            },
            None => {
                proof {
                    assert(run_step(state, entries@, criteria@, read.last(), run@, None));
                    assert(run_gives(start, entries@, criteria@, read, sent));
                }
                break;
            },
        }
    }
    messages
}

/// What was read of the flag around one batch.
pub struct FlagReading {
    pub cancelled: bool,
    pub live: Vec<bool>,
}

impl View for FlagReading {
    type V = Reading;

    open spec fn view(&self) -> Reading {
        Reading { cancelled: self.cancelled, live: self.live@ }
    }
}

/// Whether there is a reading for each batch of `len` entries, and in it one for each entry.
pub open spec fn readings_fit(readings: Seq<FlagReading>, len: int) -> bool {
    &&& readings.len() == batch_count(len)
    &&& forall|i: int| #![trigger readings[i]]
        0 <= i < readings.len() ==> readings[i].live@.len() == batch_end(i * BATCH_SIZE, len) - i
            * BATCH_SIZE
}

/// The first `n` readings; after the batches nothing depends on the flag.
pub open spec fn readings_upto(readings: Seq<FlagReading>, n: int) -> Seq<Reading> {
    Seq::new(
        n as nat,
        |i: int|
            if i < readings.len() {
                readings[i]@
            } else {
                Reading { cancelled: false, live: seq![] }
            },
    )
}

/// Runs a search to its end, for which the flag was read as given, and gives its messages in
/// order.
pub fn run_filter_read(
    query: &str,
    entries: &[HistoryEntry],
    readings: &Vec<FlagReading>,
    token: u64,
    criteria: &FilterCriteria,
) -> (messages: Vec<FilterMessage>)
    requires
        readings_fit(readings@, entries@.len() as int),
    ensures
        run_gives(
            run_start(query@, token),
            entries@,
            criteria@,
            readings_upto(readings@, messages@.len() as int + 1),
            message_views(messages@),
        ),
        forall|i: int| 0 <= i < messages@.len() ==> usable_message(#[trigger] messages@[i]@),
{
    let mut messages: Vec<FilterMessage> = Vec::new();
    let mut run = FilterRun::new(query, token);
    let ghost start = run@;
    let n = entries.len();
    let none: Vec<bool> = Vec::new();
    let mut k: usize = 0;
    proof {
        assert(message_views(messages@) =~= seq![]);
        assert(readings_upto(readings@, 0) =~= seq![]);
    }
    loop
        invariant_except_break
            k == messages@.len(),
            k <= readings@.len() + 1,
            none@.len() == 0,
            n == entries@.len(),
            start == run_start(query@, token),
            readings_fit(readings@, n as int),
            run_steps(
                start,
                entries@,
                criteria@,
                readings_upto(readings@, k as int),
                run@,
                message_views(messages@),
            ),
            forall|i: int| 0 <= i < messages@.len() ==> usable_message(#[trigger] messages@[i]@),
        ensures
            forall|i: int| 0 <= i < messages@.len() ==> usable_message(#[trigger] messages@[i]@),
            run_gives(
                start,
                entries@,
                criteria@,
                readings_upto(readings@, messages@.len() as int + 1),
                message_views(messages@),
            ),
        decreases
            n - run.next + (if run.finished {
                0int
            } else {
                1
            }),
    {
        let ghost state = run@;
        let ghost sent = message_views(messages@);
        let ghost rs = readings_upto(readings@, k as int);
        let ghost read = readings_upto(readings@, k + 1);
        proof {
            lemma_run_order(query@, token, entries@, criteria@, rs, state, sent);
            assert(read.drop_last() =~= rs);
            if !run.finished && run.next < n {
                assert(run.next == k * BATCH_SIZE);
                assert(k < readings@.len());
            }
        }
        let next = if k < readings.len() && run.next < n && !run.finished {
            let r = &readings[k];
            assert(r@ == read.last());
            run.advance(entries, r.cancelled, &r.live, criteria)
        } else {
            run.advance(entries, false, &none, criteria)
        };
        assert(run_step(state, entries@, criteria@, read.last(), run@, message_view(next)));
        match next {
            Some(msg) => {
                messages.push(msg);
                k = k + 1;
                proof {
                    let longer = message_views(messages@);
                    assert(longer =~= sent.push(msg@));
                    assert(longer.drop_last() =~= sent);
                    assert(run_step(
                        state,
                        entries@,
                        criteria@,
                        read.last(),
                        run@,
                        Some(longer.last()),
                    ));
                }
            },
            None => {
                break;
            },
        }
    }
    messages
}

/// Whether `e` is what a match of the query in an entry gives: the entry meets the criteria,
/// the query matches its command, the positions and the rank are ones that skim may give, and the
/// positions are characters of the command.
pub open spec fn is_result(
    entries: Seq<HistoryEntry>,
    query: Seq<char>,
    c: CriteriaView,
    e: FilteredView,
) -> bool {
    let entry = entries[e.idx as int];
    &&& e.idx < entries.len()
    &&& accepts(c, entry)
    &&& text_matches(query, entry.argv@)
    &&& may_match(query, entry.argv@, e.match_indices, e.rank)
    &&& e.start_time == entry.start_time
    &&& forall|k: int|
        0 <= k < e.match_indices.len() ==> #[trigger] e.match_indices[k] < entry.argv@.len()
}

proof fn lemma_collected_sound(
    entries: Seq<HistoryEntry>,
    picked: Seq<usize>,
    query: Seq<char>,
    c: CriteriaView,
    found: Seq<Option<TextMatchView>>,
    n: int,
)
    requires
        matched(query, commands(entries, picked), found),
        0 <= n <= picked.len(),
        forall|k: int| #![trigger picked[k]]
            0 <= k < picked.len() ==> picked[k] < entries.len() && accepts(
                c,
                entries[picked[k] as int],
            ),
        forall|k: int, l: int| 0 <= k < l < picked.len() ==> picked[k] < picked[l],
    ensures
        ({
            let batch = collected(entries, picked.take(n), found);
            &&& forall|i: int|
                0 <= i < batch.len() ==> is_result(entries, query, c, #[trigger] batch[i])
            &&& forall|i: int| #![trigger batch[i]]
                0 <= i < batch.len() ==> exists|k: int| 0 <= k < n && picked[k] == batch[i].idx
            &&& forall|i: int, j: int| 0 <= i < j < batch.len() ==> batch[i].idx < batch[j].idx
            &&& forall|k: int| #![trigger picked[k]]
                0 <= k < n && found[k] is Some ==> exists|i: int|
                    0 <= i < batch.len() && #[trigger] batch[i].idx == picked[k]
        }),
    decreases n,
{
    if n > 0 {
        lemma_collected_sound(entries, picked, query, c, found, n - 1);
        let part = picked.take(n);
        let rest = collected(entries, picked.take(n - 1), found);
        let batch = collected(entries, part, found);
        assert(part.drop_last() =~= picked.take(n - 1));
        let at = picked[n - 1];
        assert(part.last() == at);
        assert(commands(entries, picked)[n - 1] == entries[at as int].argv@);
        assert forall|k: int| #![trigger picked[k]]
            0 <= k < n && found[k] is Some implies exists|i: int|
            0 <= i < batch.len() && #[trigger] batch[i].idx == picked[k] by {
            if k < n - 1 {
                let i = choose|i: int| 0 <= i < rest.len() && #[trigger] rest[i].idx == picked[k];
                assert(batch[i] == rest[i]);
            } else {
                assert(batch[rest.len() as int].idx == at);
            }
        }
        if found[n - 1] is Some {
            let e = batch.last();
            assert forall|k: int| 0 <= k < e.match_indices.len() implies #[trigger]
                e.match_indices[k] < entries[at as int].argv@.len() by {
                assert(found[n - 1]->0.indices[k] < commands(entries, picked)[n - 1].len());
            }
            assert forall|i: int| #![trigger batch[i]] 0 <= i < batch.len() implies exists|k: int|
                0 <= k < n && picked[k] == batch[i].idx by {
                if i == batch.len() - 1 {
                    assert(picked[n - 1] == batch[i].idx);
                } else {
                    assert(batch[i] == rest[i]);
                }
            }
        }
    }
}

/// A batch holds results only, of entries in its range, each entry at most once and in the order
/// of the history.
pub proof fn lemma_batch_sound(
    entries: Seq<HistoryEntry>,
    start: int,
    end: int,
    query: Seq<char>,
    c: CriteriaView,
    live: Seq<bool>,
    batch: Seq<FilteredView>,
)
    requires
        0 <= start <= end <= entries.len(),
        entries.len() <= usize::MAX,
        is_batch(entries, start, end, query, c, live, batch),
    ensures
        forall|i: int| 0 <= i < batch.len() ==> is_result(entries, query, c, #[trigger] batch[i]),
        forall|i: int| 0 <= i < batch.len() ==> start <= (#[trigger] batch[i]).idx < end,
        forall|i: int, j: int| 0 <= i < j < batch.len() ==> batch[i].idx < batch[j].idx,
{
    let found = choose|found: Seq<Option<TextMatchView>>|
        #[trigger] batch_comes_from(entries, start, end, query, c, batch, live, found);
    let picked = candidates(entries, start, end, live, c);
    lemma_candidates_sound(entries, start, end, live, c);
    lemma_collected_sound(entries, picked, query, c, found, picked.len() as int);
    assert(picked.take(picked.len() as int) =~= picked);
}

proof fn lemma_candidates_complete(
    entries: Seq<HistoryEntry>,
    start: int,
    end: int,
    live: Seq<bool>,
    c: CriteriaView,
    i: int,
)
    requires
        0 <= start <= i < end <= entries.len(),
        entries.len() <= usize::MAX,
        live[i - start],
        accepts(c, entries[i]),
    ensures
        exists|k: int|
            0 <= k < candidates(entries, start, end, live, c).len() && #[trigger] candidates(
                entries,
                start,
                end,
                live,
                c,
            )[k] == i,
    decreases end - start,
{
    let picked = candidates(entries, start, end, live, c);
    if i == end - 1 {
        assert(picked[picked.len() - 1] == i);
    } else {
        lemma_candidates_complete(entries, start, end - 1, live, c, i);
        let rest = candidates(entries, start, end - 1, live, c);
        let k = choose|k: int| 0 <= k < rest.len() && #[trigger] rest[k] == i;
        assert(picked[k] == i);
    }
}

/// A batch misses nothing for which the search was live: every such entry that meets the criteria
/// and that the query matches is in it.
pub proof fn lemma_batch_complete(
    entries: Seq<HistoryEntry>,
    start: int,
    end: int,
    query: Seq<char>,
    c: CriteriaView,
    live: Seq<bool>,
    batch: Seq<FilteredView>,
    i: int,
)
    requires
        0 <= start <= i < end <= entries.len(),
        entries.len() <= usize::MAX,
        is_batch(entries, start, end, query, c, live, batch),
        live[i - start],
        accepts(c, entries[i]),
        text_matches(query, entries[i].argv@),
    ensures
        has_entry(batch, i),
{
    let found = choose|found: Seq<Option<TextMatchView>>|
        #[trigger] batch_comes_from(entries, start, end, query, c, batch, live, found);
    let picked = candidates(entries, start, end, live, c);
    lemma_candidates_sound(entries, start, end, live, c);
    lemma_candidates_complete(entries, start, end, live, c, i);
    let k = choose|k: int| 0 <= k < picked.len() && #[trigger] picked[k] == i;
    assert(commands(entries, picked)[k] == entries[i].argv@);
    assert(found[k] is Some);
    lemma_collected_sound(entries, picked, query, c, found, picked.len() as int);
    assert(picked.take(picked.len() as int) =~= picked);
}

/// Whether there is a result for the entry at position `i`.
pub open spec fn has_entry(batch: Seq<FilteredView>, i: int) -> bool {
    exists|k: int| 0 <= k < batch.len() && #[trigger] batch[k].idx == i
}

/// All messages of a search carry its token. The end, if it is told at all, is told last and
/// after the last batch; and after the batches sent so far the search stands where the next one
/// starts.
pub proof fn lemma_run_order(
    query: Seq<char>,
    token: u64,
    entries: Seq<HistoryEntry>,
    c: CriteriaView,
    rs: Seq<Reading>,
    t: RunView,
    msgs: Seq<MessageView>,
)
    requires
        run_steps(run_start(query, token), entries, c, rs, t, msgs),
        entries.len() <= usize::MAX,
    ensures
        t.token == token,
        t.query == trimmed(query),
        t.next <= entries.len(),
        rs.len() == msgs.len(),
        forall|i: int| #![trigger msgs[i]]
            0 <= i < msgs.len() ==> message_in_order(
                trimmed(query),
                token,
                entries,
                c,
                rs[i],
                msgs[i],
                i,
            ) && (msgs[i] is Done ==> i == msgs.len() - 1 && t.finished),
        !t.finished ==> t.next == (if msgs.len() * BATCH_SIZE < entries.len() {
            msgs.len() * BATCH_SIZE
        } else {
            entries.len() as int
        }),
        t.finished && msgs.len() > 0 ==> msgs.last() is Done,
        msgs.len() > 0 && msgs.last() is Done ==> (msgs.len() - 1) * BATCH_SIZE >= entries.len(),
        forall|i: int| #![trigger msgs[i]]
            0 <= i < msgs.len() && msgs[i] is Batch ==> i * BATCH_SIZE < entries.len(),
        trimmed(query).len() == 0 ==> msgs.len() == 0,
        trimmed(query).len() > 0 && msgs.len() == 0 ==> !t.finished,
    decreases msgs.len(),
{
    let s = run_start(query, token);
    if msgs.len() > 0 {
        let front = msgs.drop_last();
        let m = choose|m: RunView|
            run_steps(s, entries, c, rs.drop_last(), m, front) && #[trigger] run_step(
                m,
                entries,
                c,
                rs.last(),
                t,
                Some(msgs.last()),
            );
        lemma_run_order(query, token, entries, c, rs.drop_last(), m, front);
        assert(!m.finished);
        assert forall|i: int| #![trigger msgs[i]] 0 <= i < msgs.len() implies message_in_order(
            trimmed(query),
            token,
            entries,
            c,
            rs[i],
            msgs[i],
            i,
        ) && (msgs[i] is Done ==> i == msgs.len() - 1 && t.finished) && (msgs[i] is Batch ==> i
            * BATCH_SIZE < entries.len()) by {
            if i < front.len() {
                assert(front[i] == msgs[i]);
                assert(rs.drop_last()[i] == rs[i]);
            }
        }
    }
}

/// Whether a message is the one in place `i` of a search: the batch of the entries from there on,
/// as far as the search was live, or the end.
pub open spec fn message_in_order(
    query: Seq<char>,
    token: u64,
    entries: Seq<HistoryEntry>,
    c: CriteriaView,
    r: Reading,
    msg: MessageView,
    i: int,
) -> bool {
    match msg {
        MessageView::Batch(m, batch) => m == token && is_batch(
            entries,
            i * BATCH_SIZE,
            batch_end(i * BATCH_SIZE, entries.len() as int),
            query,
            c,
            r.live,
            batch,
        ),
        MessageView::Done(m) => m == token,
    }
}

/// Whether the flag never read as set.
pub open spec fn never_cancelled(rs: Seq<Reading>) -> bool {
    &&& forall|i: int| #![trigger rs[i]] 0 <= i < rs.len() ==> !rs[i].cancelled
    &&& forall|i: int, j: int| #![trigger rs[i].live[j]]
        0 <= i < rs.len() && 0 <= j < rs[i].live.len() ==> rs[i].live[j]
}

/// How many batches there are for `n` entries.
pub open spec fn batch_count(n: int) -> int {
    (n + BATCH_SIZE - 1) / BATCH_SIZE as int
}

/// Whether a batch holds exactly the results for the entries from `start` to `end`, in the order
/// of the history.
pub open spec fn is_full_batch(
    entries: Seq<HistoryEntry>,
    start: int,
    end: int,
    query: Seq<char>,
    c: CriteriaView,
    batch: Seq<FilteredView>,
) -> bool {
    &&& forall|k: int|
        0 <= k < batch.len() ==> is_result(entries, query, c, #[trigger] batch[k])
    &&& forall|k: int| 0 <= k < batch.len() ==> start <= (#[trigger] batch[k]).idx < end
    &&& forall|k: int, l: int| 0 <= k < l < batch.len() ==> batch[k].idx < batch[l].idx
    &&& forall|i: int| #![trigger entries[i]]
        start <= i < end && accepts(c, entries[i]) && text_matches(query, entries[i].argv@)
            ==> has_entry(batch, i)
}

/// A search that is never cancelled sends one batch after the other, which hold exactly the
/// entries that meet the criteria and that the query matches, and then the end.
pub proof fn lemma_full_run(
    query: Seq<char>,
    token: u64,
    entries: Seq<HistoryEntry>,
    c: CriteriaView,
    rs: Seq<Reading>,
    msgs: Seq<MessageView>,
)
    requires
        run_gives(run_start(query, token), entries, c, rs, msgs),
        never_cancelled(rs),
        trimmed(query).len() > 0,
        entries.len() <= usize::MAX,
    ensures
        msgs.len() == batch_count(entries.len() as int) + 1,
        msgs.last() == MessageView::Done(token),
        forall|i: int| #![trigger msgs[i]]
            0 <= i < msgs.len() - 1 ==> (msgs[i] matches MessageView::Batch(m, batch) && m == token
                && is_full_batch(
                entries,
                i * BATCH_SIZE,
                batch_end(i * BATCH_SIZE, entries.len() as int),
                trimmed(query),
                c,
                batch,
            )),
{
    let s = run_start(query, token);
    let n = entries.len() as int;
    let front = rs.drop_last();
    let (t, u) = choose|t: RunView, u: RunView|
        run_steps(s, entries, c, front, t, msgs) && #[trigger] run_step(
            t,
            entries,
            c,
            rs.last(),
            u,
            None,
        );
    lemma_run_order(query, token, entries, c, front, t, msgs);
    assert(!rs[rs.len() - 1].cancelled);
    assert(t.finished);
    assert(msgs.len() > 0);
    let last = msgs.len() - 1;
    assert(msgs[last] is Done);
    assert forall|i: int| #![trigger msgs[i]] 0 <= i < last implies (msgs[i]
        matches MessageView::Batch(m, batch) && m == token && is_full_batch(
        entries,
        i * BATCH_SIZE,
        batch_end(i * BATCH_SIZE, n),
        trimmed(query),
        c,
        batch,
    )) by {
        let batch = msgs[i]->Batch_1;
        let start = i * BATCH_SIZE;
        let end = batch_end(start, n);
        let live = front[i].live;
        assert(front[i] == rs[i]);
        lemma_batch_sound(entries, start, end, trimmed(query), c, live, batch);
        assert forall|j: int| #![trigger entries[j]]
            start <= j < end && accepts(c, entries[j]) && text_matches(
                trimmed(query),
                entries[j].argv@,
            ) implies has_entry(batch, j) by {
            assert(rs[i].live[j - start]);
            lemma_batch_complete(entries, start, end, trimmed(query), c, live, batch, j);
        }
    }
    if last > 0 {
        assert(msgs[last - 1] is Batch);
        assert((last - 1) * BATCH_SIZE < n);
    }
    assert(last == batch_count(n));
}

/// The results in the batches among the messages, in order.
pub open spec fn results_in(msgs: Seq<MessageView>) -> Seq<FilteredView>
    decreases msgs.len(),
{
    if msgs.len() == 0 {
        seq![]
    } else {
        match msgs.last() {
            MessageView::Batch(_, batch) => results_in(msgs.drop_last()) + batch,
            MessageView::Done(_) => results_in(msgs.drop_last()),
        }
    }
}

proof fn lemma_joined_batches(
    query: Seq<char>,
    entries: Seq<HistoryEntry>,
    c: CriteriaView,
    msgs: Seq<MessageView>,
)
    requires
        (msgs.len() - 1) * BATCH_SIZE < entries.len(),
        forall|i: int| #![trigger msgs[i]]
            0 <= i < msgs.len() ==> (msgs[i] matches MessageView::Batch(m, batch) && is_full_batch(
                entries,
                i * BATCH_SIZE,
                batch_end(i * BATCH_SIZE, entries.len() as int),
                query,
                c,
                batch,
            )),
    ensures
        is_full_batch(
            entries,
            0,
            if msgs.len() * BATCH_SIZE < entries.len() {
                msgs.len() * BATCH_SIZE
            } else {
                entries.len() as int
            },
            query,
            c,
            results_in(msgs),
        ),
    decreases msgs.len(),
{
    if msgs.len() > 0 {
        let front = msgs.drop_last();
        let last = msgs.len() - 1;
        assert forall|i: int| #![trigger front[i]] 0 <= i < front.len() implies (front[i]
            matches MessageView::Batch(m, batch) && is_full_batch(
            entries,
            i * BATCH_SIZE,
            batch_end(i * BATCH_SIZE, entries.len() as int),
            query,
            c,
            batch,
        )) by {
            assert(front[i] == msgs[i]);
        }
        lemma_joined_batches(query, entries, c, front);
        assert(msgs[last] == msgs.last());
        let start = last * BATCH_SIZE;
        let batch = msgs.last()->Batch_1;
        let rest = results_in(front);
        let all = results_in(msgs);
        assert(all =~= rest + batch);
        assert forall|i: int| #![trigger entries[i]]
            0 <= i < batch_end(start, entries.len() as int) && accepts(c, entries[i])
                && text_matches(query, entries[i].argv@) implies has_entry(all, i) by {
            if i < start {
                let k = choose|k: int| 0 <= k < rest.len() && #[trigger] rest[k].idx == i;
                assert(all[k].idx == i);
            } else {
                let k = choose|k: int| 0 <= k < batch.len() && #[trigger] batch[k].idx == i;
                assert(all[rest.len() + k].idx == i);
            }
        }
        assert forall|k: int| 0 <= k < all.len() implies is_result(
            entries,
            query,
            c,
            #[trigger] all[k],
        ) && 0 <= all[k].idx < batch_end(start, entries.len() as int) by {
            if k < rest.len() {
                assert(all[k] == rest[k]);
            } else {
                assert(all[k] == batch[k - rest.len()]);
            }
        }
        assert forall|k: int, l: int| 0 <= k < l < all.len() implies all[k].idx < all[l].idx by {
            if l < rest.len() {
                assert(all[k] == rest[k] && all[l] == rest[l]);
            } else if k >= rest.len() {
                assert(all[k] == batch[k - rest.len()] && all[l] == batch[l - rest.len()]);
            } else {
                assert(all[k] == rest[k] && all[l] == batch[l - rest.len()]);
            }
        }
    }
}

/// The batches of a search that is never cancelled, taken together, hold exactly the entries that
/// meet the criteria and that the query matches, in the order of the history.
pub proof fn lemma_full_run_results(
    query: Seq<char>,
    token: u64,
    entries: Seq<HistoryEntry>,
    c: CriteriaView,
    rs: Seq<Reading>,
    msgs: Seq<MessageView>,
)
    requires
        run_gives(run_start(query, token), entries, c, rs, msgs),
        never_cancelled(rs),
        trimmed(query).len() > 0,
        entries.len() <= usize::MAX,
    ensures
        is_full_batch(
            entries,
            0,
            entries.len() as int,
            trimmed(query),
            c,
            results_in(msgs),
        ),
{
    lemma_full_run(query, token, entries, c, rs, msgs);
    let batches = msgs.drop_last();
    assert forall|i: int| #![trigger batches[i]] 0 <= i < batches.len() implies (batches[i]
        matches MessageView::Batch(m, batch) && is_full_batch(
        entries,
        i * BATCH_SIZE,
        batch_end(i * BATCH_SIZE, entries.len() as int),
        trimmed(query),
        c,
        batch,
    )) by {
        assert(batches[i] == msgs[i]);
    }
    lemma_joined_batches(trimmed(query), entries, c, batches);
}

/// The candidates of a batch are exactly the entries in its range for which the search was live and
/// that meet the criteria, in order.
pub proof fn lemma_candidates_exact(
    entries: Seq<HistoryEntry>,
    start: int,
    end: int,
    live: Seq<bool>,
    c: CriteriaView,
)
    requires
        0 <= start <= end <= entries.len(),
        entries.len() <= usize::MAX,
    ensures
        ({
            let picked = candidates(entries, start, end, live, c);
            &&& forall|k: int| #![trigger picked[k]]
                0 <= k < picked.len() ==> start <= picked[k] < end && live[picked[k] - start]
                    && accepts(c, entries[picked[k] as int])
            &&& forall|k: int, l: int| 0 <= k < l < picked.len() ==> picked[k] < picked[l]
            &&& forall|i: int| #![trigger entries[i]]
                start <= i < end && live[i - start] && accepts(c, entries[i]) ==> exists|k: int|
                    0 <= k < picked.len() && #[trigger] picked[k] == i
        }),
    decreases end - start,
{
    lemma_candidates_sound(entries, start, end, live, c);
    let picked = candidates(entries, start, end, live, c);
    if start < end {
        lemma_candidates_exact(entries, start, end - 1, live, c);
        let rest = candidates(entries, start, end - 1, live, c);
        assert forall|k: int| #![trigger picked[k]] 0 <= k < picked.len() implies live[picked[k]
            - start] by {
            if k < rest.len() {
                assert(picked[k] == rest[k]);
            }
        }
    }
    assert forall|i: int| #![trigger entries[i]]
        start <= i < end && live[i - start] && accepts(c, entries[i]) implies exists|k: int|
        0 <= k < picked.len() && #[trigger] picked[k] == i by {
        lemma_candidates_complete(entries, start, end, live, c, i);
    }
}

/// A search begins before the first entry, for the query without the white space around it; for
/// nothing but white space it is over at once.
pub proof fn lemma_search_begins(query: Seq<char>, token: u64)
    ensures
        run_start(query, token).query == trimmed(query),
        run_start(query, token).token == token,
        run_start(query, token).next == 0,
        run_start(query, token).finished <==> trimmed(query).len() == 0,
{
}

/// Searching goes on by five thousand entries, or to the end of the history.
pub proof fn lemma_batch_sizes(start: int, len: int)
    requires
        0 <= start <= len,
    ensures
        start + 5000 <= len ==> batch_end(start, len) == start + 5000,
        start + 5000 > len ==> batch_end(start, len) == len,
{
}

/// One step of a search: a search that is over says nothing and stays so; behind the last entry it
/// tells its end; cancelled before that it is over without a word; and else it sends the results of
/// the next entries, of which it looks at those for which it is live, and goes on behind them.
pub proof fn lemma_search_step(
    s: RunView,
    entries: Seq<HistoryEntry>,
    c: CriteriaView,
    r: Reading,
    t: RunView,
    msg: Option<MessageView>,
)
    requires
        run_step(s, entries, c, r, t, msg),
        entries.len() <= usize::MAX,
    ensures
        t == (RunView { next: t.next, finished: t.finished, ..s }),
        s.finished ==> t == s && msg is None,
        !s.finished && s.next >= entries.len() ==> t.finished && msg == Some(
            MessageView::Done(s.token),
        ),
        !s.finished && s.next < entries.len() && r.cancelled ==> t.finished && msg is None,
        !s.finished && s.next < entries.len() && !r.cancelled ==> {
            &&& !t.finished
            &&& t.next == (if s.next + 5000 <= entries.len() {
                s.next + 5000
            } else {
                entries.len() as int
            })
            &&& msg matches Some(MessageView::Batch(token, batch)) && token == s.token && {
                &&& forall|k: int| #![trigger batch[k]]
                    0 <= k < batch.len() ==> {
                        let e = batch[k];
                        let entry = entries[e.idx as int];
                        &&& s.next <= e.idx < t.next
                        &&& accepts(c, entry)
                        &&& text_matches(s.query, entry.argv@)
                        &&& may_match(s.query, entry.argv@, e.match_indices, e.rank)
                        &&& e.start_time == entry.start_time
                    }
                &&& forall|k: int, l: int|
                    0 <= k < l < batch.len() ==> (#[trigger] batch[k]).idx < (
                    #[trigger] batch[l]).idx
                &&& forall|i: int| #![trigger entries[i]]
                    s.next <= i < t.next && r.live[i - s.next] && accepts(c, entries[i])
                        && text_matches(s.query, entries[i].argv@) ==> exists|k: int|
                        0 <= k < batch.len() && #[trigger] batch[k].idx == i
            }
        },
{
    if !s.finished && s.next < entries.len() && !r.cancelled {
        let end = batch_end(s.next as int, entries.len() as int);
        let batch = msg->0->Batch_1;
        lemma_batch_sound(entries, s.next as int, end, s.query, c, r.live, batch);
        assert forall|i: int| #![trigger entries[i]]
            s.next <= i < t.next && r.live[i - s.next] && accepts(c, entries[i]) && text_matches(
                s.query,
                entries[i].argv@,
            ) implies exists|k: int| 0 <= k < batch.len() && #[trigger] batch[k].idx == i by {
            lemma_batch_complete(
                entries,
                s.next as int,
                end,
                s.query,
                c,
                r.live,
                batch,
                i,
            );
        }
        assert forall|k: int| #![trigger batch[k]] 0 <= k < batch.len() implies may_match(
            s.query,
            entries[batch[k].idx as int].argv@,
            batch[k].match_indices,
            batch[k].rank,
        ) by {
            assert(is_result(entries, s.query, c, batch[k]));
        }
    }
}

proof fn lemma_results_sound(
    query: Seq<char>,
    entries: Seq<HistoryEntry>,
    c: CriteriaView,
    msgs: Seq<MessageView>,
)
    requires
        forall|i: int, k: int| #![trigger msgs[i]->Batch_1[k]]
            0 <= i < msgs.len() && msgs[i] is Batch && 0 <= k < msgs[i]->Batch_1.len() ==> is_result(
                entries,
                query,
                c,
                msgs[i]->Batch_1[k],
            ),
    ensures
        forall|k: int| #![trigger results_in(msgs)[k]]
            0 <= k < results_in(msgs).len() ==> is_result(entries, query, c, results_in(msgs)[k]),
    decreases msgs.len(),
{
    if msgs.len() > 0 {
        let front = msgs.drop_last();
        assert forall|i: int, k: int| #![trigger front[i]->Batch_1[k]]
            0 <= i < front.len() && front[i] is Batch && 0 <= k < front[i]->Batch_1.len()
                implies is_result(entries, query, c, front[i]->Batch_1[k]) by {
            assert(msgs[i]->Batch_1[k] == front[i]->Batch_1[k]);
        }
        lemma_results_sound(query, entries, c, front);
        let last = msgs.len() - 1;
        assert(msgs[last] == msgs.last());
        assert forall|k: int| #![trigger results_in(msgs)[k]]
            0 <= k < results_in(msgs).len() implies is_result(
            entries,
            query,
            c,
            results_in(msgs)[k],
        ) by {
            let n = results_in(front).len();
            if k < n {
                assert(results_in(msgs)[k] == results_in(front)[k]);
            } else {
                assert(results_in(msgs)[k] == msgs[last]->Batch_1[k - n]);
            }
        }
    }
}

/// Whatever is read of the flag, a search sends only entries that meet the criteria and that the
/// query matches; every message carries its token.
pub proof fn lemma_search_sends_matches(
    query: Seq<char>,
    token: u64,
    entries: Seq<HistoryEntry>,
    c: CriteriaView,
    rs: Seq<Reading>,
    msgs: Seq<MessageView>,
)
    requires
        run_gives(run_start(query, token), entries, c, rs, msgs),
        entries.len() <= usize::MAX,
    ensures
        forall|k: int| #![trigger results_in(msgs)[k]]
            0 <= k < results_in(msgs).len() ==> {
                let e = results_in(msgs)[k];
                let entry = entries[e.idx as int];
                &&& e.idx < entries.len()
                &&& accepts(c, entry)
                &&& text_matches(trimmed(query), entry.argv@)
                &&& may_match(trimmed(query), entry.argv@, e.match_indices, e.rank)
                &&& e.start_time == entry.start_time
            },
        forall|i: int| #![trigger msgs[i]]
            0 <= i < msgs.len() ==> match msgs[i] {
                MessageView::Batch(m, _) => m == token,
                MessageView::Done(m) => m == token && i == msgs.len() - 1,
            },
        trimmed(query).len() == 0 ==> msgs.len() == 0,
{
    let s = run_start(query, token);
    let front = rs.drop_last();
    let (t, u) = choose|t: RunView, u: RunView|
        run_steps(s, entries, c, front, t, msgs) && #[trigger] run_step(
            t,
            entries,
            c,
            rs.last(),
            u,
            None,
        );
    lemma_run_order(query, token, entries, c, front, t, msgs);
    assert forall|i: int, k: int| #![trigger msgs[i]->Batch_1[k]]
        0 <= i < msgs.len() && msgs[i] is Batch && 0 <= k < msgs[i]->Batch_1.len() implies is_result(
        entries,
        trimmed(query),
        c,
        msgs[i]->Batch_1[k],
    ) by {
        let n = entries.len() as int;
        assert(message_in_order(trimmed(query), token, entries, c, front[i], msgs[i], i));
        lemma_batch_sound(
            entries,
            i * BATCH_SIZE,
            batch_end(i * BATCH_SIZE, n),
            trimmed(query),
            c,
            front[i].live,
            msgs[i]->Batch_1,
        );
    }
    lemma_results_sound(trimmed(query), entries, c, msgs);
    assert forall|k: int| #![trigger results_in(msgs)[k]] 0 <= k < results_in(msgs).len() implies {
        let e = results_in(msgs)[k];
        let entry = entries[e.idx as int];
        &&& e.idx < entries.len()
        &&& accepts(c, entry)
        &&& text_matches(trimmed(query), entry.argv@)
        &&& may_match(trimmed(query), entry.argv@, e.match_indices, e.rank)
        &&& e.start_time == entry.start_time
    } by {
        assert(is_result(entries, trimmed(query), c, results_in(msgs)[k]));
    }
}

/// A search that is never cancelled sends a message for every five thousand entries and then its
/// end; its results, taken together, are exactly the entries that meet the criteria and that the
/// query matches, in the order of the history.
pub proof fn lemma_search_finds_all(
    query: Seq<char>,
    token: u64,
    entries: Seq<HistoryEntry>,
    c: CriteriaView,
    rs: Seq<Reading>,
    msgs: Seq<MessageView>,
)
    requires
        run_gives(run_start(query, token), entries, c, rs, msgs),
        trimmed(query).len() > 0,
        entries.len() <= usize::MAX,
        forall|i: int| #![trigger rs[i]] 0 <= i < rs.len() ==> !rs[i].cancelled,
        forall|i: int, j: int| #![trigger rs[i].live[j]]
            0 <= i < rs.len() && 0 <= j < rs[i].live.len() ==> rs[i].live[j],
    ensures
        msgs.len() == (entries.len() + 4999) / 5000 + 1,
        msgs.last() == MessageView::Done(token),
        forall|k: int, l: int|
            0 <= k < l < results_in(msgs).len() ==> (#[trigger] results_in(msgs)[k]).idx < (
            #[trigger] results_in(msgs)[l]).idx,
        forall|i: int| #![trigger entries[i]]
            0 <= i < entries.len() && accepts(c, entries[i]) && text_matches(
                trimmed(query),
                entries[i].argv@,
            ) ==> exists|k: int| 0 <= k < results_in(msgs).len() && #[trigger] results_in(msgs)[k].idx
                == i,
        forall|i: int, k: int| #![trigger msgs[i]->Batch_1[k]]
            0 <= i < msgs.len() - 1 && 0 <= k < msgs[i]->Batch_1.len() ==> i * 5000
                <= msgs[i]->Batch_1[k].idx < i * 5000 + 5000,
{
    assert(never_cancelled(rs));
    lemma_full_run(query, token, entries, c, rs, msgs);
    lemma_full_run_results(query, token, entries, c, rs, msgs);
    assert forall|i: int| #![trigger entries[i]]
        0 <= i < entries.len() && accepts(c, entries[i]) && text_matches(
            trimmed(query),
            entries[i].argv@,
        ) implies exists|k: int|
        0 <= k < results_in(msgs).len() && #[trigger] results_in(msgs)[k].idx == i by {
        assert(has_entry(results_in(msgs), i));
    }
    assert forall|i: int, k: int| #![trigger msgs[i]->Batch_1[k]]
        0 <= i < msgs.len() - 1 && 0 <= k < msgs[i]->Batch_1.len() implies i * 5000
        <= msgs[i]->Batch_1[k].idx < i * 5000 + 5000 by {
        let batch = msgs[i]->Batch_1;
        assert(msgs[i] is Batch);
        assert(batch[k].idx < batch_end(i * BATCH_SIZE, entries.len() as int));
    }
}

} // verus!
