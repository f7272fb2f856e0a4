//! Search results, how they are ordered, and the criteria that entries must meet.

use super::matching::texts;
use super::names::has_name;
use crate::db::HistoryEntry;
use std::cmp::Ordering;
use vstd::prelude::*;

pub use super::heap::FilterHeap;
pub use super::search::run_filter_streaming;

verus! {

/// Measurements of a match, as the matcher reports them.
#[derive(Clone, Copy, Debug, PartialEq, Eq, Structural)]
pub struct Rank {
    pub score: i32,
    pub begin: i32,
    pub end: i32,
    pub length: i32,
    pub index: i32,
    pub path_name_offset: i32,
}

impl Default for Rank {
    fn default() -> (r: Self)
        ensures
            r == no_rank(),
    {
        Rank { score: 0, begin: 0, end: 0, length: 0, index: 0, path_name_offset: 0 }
    }
}

/// The rank of an entry that was listed without a query.
pub open spec fn no_rank() -> Rank {
    Rank { score: 0, begin: 0, end: 0, length: 0, index: 0, path_name_offset: 0 }
}

/// Whether a match with rank `a` is better than one with rank `b`: a higher score, then an
/// earlier begin, then an earlier end.
pub open spec fn outranks(a: Rank, b: Rank) -> bool {
    ||| a.score > b.score
    ||| a.score == b.score && a.begin < b.begin
    ||| a.score == b.score && a.begin == b.begin && a.end < b.end
}

/// A history entry that passed the filter.
pub struct FilteredEntry {
    pub idx: usize,
    pub match_indices: Vec<usize>,
    pub rank: Rank,
    pub start_time: i64,
}

/// What a filtered entry holds.
#[verifier::ext_equal]
pub struct FilteredView {
    pub idx: usize,
    pub match_indices: Seq<usize>,
    pub rank: Rank,
    pub start_time: i64,
}

impl View for FilteredEntry {
    type V = FilteredView;

    open spec fn view(&self) -> FilteredView {
        FilteredView {
            idx: self.idx,
            match_indices: self.match_indices@,
            rank: self.rank,
            start_time: self.start_time,
        }
    }
}

/// What each of the entries holds, in order.
pub open spec fn views(s: Seq<FilteredEntry>) -> Seq<FilteredView> {
    s.map_values(|e: FilteredEntry| e@)
}

/// Whether `a` is listed before `b`: the better rank first, then the newer entry.
pub open spec fn beats(a: FilteredView, b: FilteredView) -> bool {
    ||| outranks(a.rank, b.rank)
    ||| !outranks(b.rank, a.rank) && a.start_time > b.start_time
}

/// The order of two entries: the greater one is listed first.
pub open spec fn listing_order(a: FilteredView, b: FilteredView) -> Ordering {
    if beats(a, b) {
        Ordering::Greater
    } else if beats(b, a) {
        Ordering::Less
    } else {
        Ordering::Equal
    }
}

impl Clone for FilteredEntry {
    fn clone(&self) -> (r: Self)
        ensures
            r@ == self@,
    {
        let r = FilteredEntry {
            idx: self.idx,
            match_indices: self.match_indices.clone(),
            rank: self.rank,
            start_time: self.start_time,
        };
        assert(r.match_indices@ =~= self.match_indices@);
        r
    }
}

impl FilteredEntry {
    /// Compares two entries: the greater one is listed first.
    pub fn cmp(&self, other: &Self) -> (r: Ordering)
        ensures
            r == listing_order(self@, other@),
    {
        if self.rank.score != other.rank.score {
            if self.rank.score > other.rank.score {
                Ordering::Greater
            } else {
                Ordering::Less
            }
        } else if self.rank.begin != other.rank.begin {
            if self.rank.begin < other.rank.begin {
                Ordering::Greater
            } else {
                Ordering::Less
            }
        } else if self.rank.end != other.rank.end {
            if self.rank.end < other.rank.end {
                Ordering::Greater
            } else {
                Ordering::Less
            }
        } else if self.start_time > other.start_time {
            Ordering::Greater
        } else if self.start_time < other.start_time {
            Ordering::Less
        } else {
            Ordering::Equal
        }
    }

    /// Whether this entry is listed before the other.
    pub fn is_before(&self, other: &Self) -> (r: bool)
        ensures
            r == beats(self@, other@),
    {
        match self.cmp(other) {
            Ordering::Greater => true,
            _ => false,
        }
    }
}

impl PartialEq for FilteredEntry {
    fn eq(&self, other: &Self) -> (r: bool) {
        match self.cmp(other) {
            Ordering::Equal => true,
            _ => false,
        }
    }
}

impl vstd::std_specs::cmp::PartialEqSpecImpl for FilteredEntry {
    open spec fn obeys_eq_spec() -> bool {
        true
    }

    open spec fn eq_spec(&self, other: &FilteredEntry) -> bool {
        !beats(self@, other@) && !beats(other@, self@)
    }
}

impl Eq for FilteredEntry {

}

impl PartialOrd for FilteredEntry {
    fn partial_cmp(&self, other: &Self) -> (r: Option<Ordering>) {
        Some(self.cmp(other))
    }
}

impl vstd::std_specs::cmp::PartialOrdSpecImpl for FilteredEntry {
    open spec fn obeys_partial_cmp_spec() -> bool {
        true
    }

    open spec fn partial_cmp_spec(&self, other: &FilteredEntry) -> Option<Ordering> {
        Some(listing_order(self@, other@))
    }
}

/// The listing order is a strict weak order: an entry never beats itself, at most one of two
/// entries beats the other, and both beating and not beating carry over.
pub proof fn lemma_beats_order(a: FilteredView, b: FilteredView, c: FilteredView)
    ensures
        !beats(a, a),
        !(beats(a, b) && beats(b, a)),
        beats(a, b) && beats(b, c) ==> beats(a, c),
        !beats(a, b) && !beats(b, c) ==> !beats(a, c),
{
}

/// Part of a search's results, or its end, with the token of the search.
pub enum FilterMessage {
    Batch(u64, Vec<FilteredEntry>),
    Done(u64),
}

/// What an entry must meet to be listed. An empty list of hosts, sessions or directories asks
/// nothing.
pub struct FilterCriteria {
    pub hosts: Vec<String>,
    pub sessions: Vec<i64>,
    pub dirs: Vec<String>,
    pub start_time: Option<i64>,
    pub end_time: Option<i64>,
}

/// What the criteria ask: their lists as sets.
#[verifier::ext_equal]
pub struct CriteriaView {
    pub hosts: Set<Seq<char>>,
    pub sessions: Set<i64>,
    pub dirs: Set<Seq<char>>,
    pub start_time: Option<i64>,
    pub end_time: Option<i64>,
}

impl View for FilterCriteria {
    type V = CriteriaView;

    open spec fn view(&self) -> CriteriaView {
        CriteriaView {
            hosts: texts(self.hosts@).to_set(),
            sessions: self.sessions@.to_set(),
            dirs: texts(self.dirs@).to_set(),
            start_time: self.start_time,
            end_time: self.end_time,
        }
    }
}

/// Whether an entry meets the criteria.
pub open spec fn accepts(c: CriteriaView, entry: HistoryEntry) -> bool {
    &&& c.hosts == Set::<Seq<char>>::empty() || c.hosts.contains(entry.host@)
    &&& c.sessions == Set::<i64>::empty() || c.sessions.contains(entry.session)
    &&& c.dirs == Set::<Seq<char>>::empty() || c.dirs.contains(entry.dir@)
    &&& c.start_time matches Some(start) ==> entry.start_time >= start
    &&& c.end_time matches Some(end) ==> entry.start_time <= end
}

/// The criteria that every entry meets.
pub open spec fn no_criteria() -> CriteriaView {
    CriteriaView {
        hosts: Set::empty(),
        sessions: Set::empty(),
        dirs: Set::empty(),
        start_time: None,
        end_time: None,
    }
}

proof fn lemma_empty_set<T>(s: Seq<T>)
    ensures
        s.to_set() == Set::<T>::empty() <==> s.len() == 0,
{
    if s.len() == 0 {
        assert(s.to_set() =~= Set::empty());
    } else {
        assert(s.contains(s[0]));
        assert(s.to_set().contains(s[0]));
    }
}

fn has_session(sessions: &Vec<i64>, session: i64) -> (r: bool)
    ensures
        r == sessions@.contains(session),
{
    let mut i: usize = 0;
    while i < sessions.len()
        invariant
            i <= sessions@.len(),
            forall|j: int| 0 <= j < i ==> sessions@[j] != session,
        decreases sessions@.len() - i,
    {
        if sessions[i] == session {
            return true;
        }
        i = i + 1;
    }
    false
}

impl FilterCriteria {
    /// Criteria that ask nothing.
    pub fn none() -> (c: Self)
        ensures
            c@ == no_criteria(),
    {
        let c = FilterCriteria {
            hosts: Vec::new(),
            sessions: Vec::new(),
            dirs: Vec::new(),
            start_time: None,
            end_time: None,
        };
        assert(c@ =~= no_criteria());
        c
    }

    /// Whether an entry meets the criteria.
    pub fn matches(&self, entry: &HistoryEntry) -> (r: bool)
        ensures
            r == accepts(self@, *entry),
    {
        proof {
            lemma_empty_set(texts(self.hosts@));
            lemma_empty_set(self.sessions@);
            lemma_empty_set(texts(self.dirs@));
        }
        if self.hosts.len() != 0 && !has_name(&self.hosts, &entry.host) {
            return false;
        }
        if self.sessions.len() != 0 && !has_session(&self.sessions, entry.session) {
            return false;
        }
        if self.dirs.len() != 0 && !has_name(&self.dirs, &entry.dir) {
            return false;
        }
        if let Some(start) = self.start_time {
            if entry.start_time < start {
                return false;
            }
        }
        if let Some(end) = self.end_time {
            if entry.start_time > end {
                return false;
            }
        }
        true
    }
}

impl Clone for FilterCriteria {
    fn clone(&self) -> (r: Self)
        ensures
            r@ == self@,
    {
        let r = FilterCriteria {
            hosts: self.hosts.clone(),
            sessions: self.sessions.clone(),
            dirs: self.dirs.clone(),
            start_time: self.start_time,
            end_time: self.end_time,
        };
        assert(texts(r.hosts@) =~= texts(self.hosts@));
        assert(r.sessions@ =~= self.sessions@);
        assert(texts(r.dirs@) =~= texts(self.dirs@));
        r
    }
}

/// Every entry meets criteria that ask nothing.
pub proof fn lemma_none_accepts_all(entry: HistoryEntry)
    ensures
        accepts(no_criteria(), entry),
{
}

/// Each criterion rules out on its own, whatever the others are: a host, session or directory that
/// is not among those that are asked for, a start before the first time, a start after the last.
pub proof fn lemma_each_criterion_rules_out(c: CriteriaView, entry: HistoryEntry)
    ensures
        (exists|h: Seq<char>| c.hosts.contains(h)) && !c.hosts.contains(entry.host@) ==> !accepts(
            c,
            entry,
        ),
        (exists|n: i64| c.sessions.contains(n)) && !c.sessions.contains(entry.session) ==> !accepts(
            c,
            entry,
        ),
        (exists|d: Seq<char>| c.dirs.contains(d)) && !c.dirs.contains(entry.dir@) ==> !accepts(
            c,
            entry,
        ),
        c.start_time matches Some(start) ==> entry.start_time < start ==> !accepts(c, entry),
        c.end_time matches Some(end) ==> entry.start_time > end ==> !accepts(c, entry),
{
}

/// An entry that no criterion rules out is accepted. An empty set asks nothing.
pub proof fn lemma_nothing_else_rules_out(c: CriteriaView, entry: HistoryEntry)
    requires
        c.hosts.contains(entry.host@) || forall|h: Seq<char>| !c.hosts.contains(h),
        c.sessions.contains(entry.session) || forall|n: i64| !c.sessions.contains(n),
        c.dirs.contains(entry.dir@) || forall|d: Seq<char>| !c.dirs.contains(d),
        c.start_time matches Some(start) ==> start <= entry.start_time,
        c.end_time matches Some(end) ==> entry.start_time <= end,
    ensures
        accepts(c, entry),
{
    assert(c.hosts.contains(entry.host@) || c.hosts =~= Set::<Seq<char>>::empty());
    assert(c.sessions.contains(entry.session) || c.sessions =~= Set::<i64>::empty());
    assert(c.dirs.contains(entry.dir@) || c.dirs =~= Set::<Seq<char>>::empty());
}

/// To accept under all criteria is to accept under each of them alone.
pub proof fn lemma_criteria_together(c: CriteriaView, entry: HistoryEntry)
    ensures
        ({
            let none = CriteriaView {
                hosts: Set::empty(),
                sessions: Set::empty(),
                dirs: Set::empty(),
                start_time: None,
                end_time: None,
            };
            accepts(c, entry) <==> {
                &&& accepts(CriteriaView { hosts: c.hosts, ..none }, entry)
                &&& accepts(CriteriaView { sessions: c.sessions, ..none }, entry)
                &&& accepts(CriteriaView { dirs: c.dirs, ..none }, entry)
                &&& accepts(CriteriaView { start_time: c.start_time, ..none }, entry)
                &&& accepts(CriteriaView { end_time: c.end_time, ..none }, entry)
            }
        }),
{
}

/// The criteria that ask nothing hold no host, session, directory or time.
pub proof fn lemma_no_criteria_ask_nothing(h: Seq<char>, n: i64)
    ensures
        !no_criteria().hosts.contains(h),
        !no_criteria().dirs.contains(h),
        !no_criteria().sessions.contains(n),
        no_criteria().start_time is None,
        no_criteria().end_time is None,
{
}

/// What is listed first: the higher score; at equal scores the match that begins earlier; of those
/// the one that ends earlier; and at equal ranks the newer entry. Where all of these are equal,
/// neither comes first. Nothing else counts.
pub proof fn lemma_better_comes_first(a: FilteredView, b: FilteredView)
    ensures
        a.rank.score > b.rank.score ==> beats(a, b) && !beats(b, a),
        a.rank.score == b.rank.score && a.rank.begin < b.rank.begin ==> beats(a, b) && !beats(b, a),
        a.rank.score == b.rank.score && a.rank.begin == b.rank.begin && a.rank.end < b.rank.end
            ==> beats(a, b) && !beats(b, a),
        a.rank.score == b.rank.score && a.rank.begin == b.rank.begin && a.rank.end == b.rank.end
            && a.start_time > b.start_time ==> beats(a, b) && !beats(b, a),
        a.rank.score == b.rank.score && a.rank.begin == b.rank.begin && a.rank.end == b.rank.end
            && a.start_time == b.start_time ==> !beats(a, b) && !beats(b, a),
{
}

/// What is a better match: the higher score; at equal scores the one that begins earlier; of those
/// the one that ends earlier. Nothing else counts.
pub proof fn lemma_better_match(a: Rank, b: Rank)
    ensures
        a.score > b.score ==> outranks(a, b) && !outranks(b, a),
        a.score == b.score && a.begin < b.begin ==> outranks(a, b) && !outranks(b, a),
        a.score == b.score && a.begin == b.begin && a.end < b.end ==> outranks(a, b) && !outranks(
            b,
            a,
        ),
        a.score == b.score && a.begin == b.begin && a.end == b.end ==> !outranks(a, b) && !outranks(
            b,
            a,
        ),
{
}

/// The greater of two results is the one that is listed first, and equal results are those of which
/// neither is.
pub proof fn lemma_order_of_results(a: FilteredView, b: FilteredView)
    ensures
        listing_order(a, b) is Greater <==> beats(a, b),
        listing_order(a, b) is Less <==> beats(b, a),
        listing_order(a, b) is Equal <==> !beats(a, b) && !beats(b, a),
{
}

/// An entry that is listed without a query has a score of nothing.
pub proof fn lemma_no_rank_is_zero()
    ensures
        no_rank().score == 0,
        no_rank().begin == 0,
        no_rank().end == 0,
        no_rank().length == 0,
        no_rank().index == 0,
        no_rank().path_name_offset == 0,
{
}

} // verus!
