//! How entries come in from the history.

use super::app::{App, AppView};
use super::filter::{views, CriteriaView};
use super::matching::texts;
use super::names::has_name;
use super::overlay::{dirs_listed, hosts_listed};
use super::results::{
    list_entries, listed, may_be_active, may_refilter, no_query, request_view, FilterRequest,
    RequestView,
};
use crate::db::HistoryEntry;
use vstd::prelude::*;

verus! {

/// The names in `known` and then those of `more` up to `end` that are new, each once.
pub open spec fn with_new(known: Seq<Seq<char>>, more: Seq<Seq<char>>, end: int) -> Seq<Seq<char>>
    decreases end,
{
    if end <= 0 {
        known
    } else {
        let names = with_new(known, more, end - 1);
        if names.contains(more[end - 1]) {
            names
        } else {
            names.push(more[end - 1])
        }
    }
}

/// The hosts of the entries.
pub open spec fn hosts_of(entries: Seq<HistoryEntry>) -> Seq<Seq<char>> {
    entries.map_values(|e: HistoryEntry| e.host@)
}

/// The directories of the entries.
pub open spec fn dirs_of(entries: Seq<HistoryEntry>) -> Seq<Seq<char>> {
    entries.map_values(|e: HistoryEntry| e.dir@)
}

/// All entries in the chunks, in order.
pub open spec fn joined(chunks: Seq<Vec<HistoryEntry>>) -> Seq<HistoryEntry> {
    chunks.map_values(|c: Vec<HistoryEntry>| c@).flatten()
}

/// Whether the history has come to its end: an empty chunk says so, and so does the sender's
/// disappearance.
pub open spec fn at_end(chunks: Seq<Vec<HistoryEntry>>, disconnected: bool) -> bool {
    disconnected || exists|i: int| 0 <= i < chunks.len() && #[trigger] chunks[i]@.len() == 0
}

/// The state with the chunks' entries added.
pub open spec fn loaded(
    s: AppView,
    chunks: Seq<Vec<HistoryEntry>>,
    disconnected: bool,
) -> AppView {
    let done = at_end(chunks, disconnected);
    AppView {
        entries: s.entries + joined(chunks),
        receiving: !done,
        loading: !done,
        filter_done: s.filter_done || (done && no_query(s)),
        ..s
    }
}

/// The state with the hosts and directories of the entries from `from` on added to the known
/// ones.
pub open spec fn named(s: AppView, from: int) -> AppView {
    let new = s.entries.skip(from);
    AppView {
        all_hosts: with_new(s.all_hosts, hosts_of(new), new.len() as int),
        all_dirs: with_new(s.all_dirs, dirs_of(new), new.len() as int),
        ..s
    }
}

/// Whether an open overlay lists the hosts anew where there are new ones.
pub open spec fn hosts_followed(s: AppView, new_hosts: bool, t: AppView) -> bool {
    if s.show_overlay && new_hosts {
        hosts_listed(s, t)
    } else {
        t == s
    }
}

/// Whether an open overlay lists the directories anew where there are new ones.
pub open spec fn dirs_followed(s: AppView, new_dirs: bool, t: AppView) -> bool {
    if s.show_overlay && new_dirs {
        dirs_listed(s, t)
    } else {
        t == s
    }
}

/// Whether an open overlay lists the hosts and then the directories anew where there are new
/// ones.
pub open spec fn followed(s: AppView, new_hosts: bool, new_dirs: bool, t: AppView) -> bool {
    exists|m: AppView| #[trigger]
        hosts_followed(s, new_hosts, m) && dirs_followed(m, new_dirs, t)
}

/// Whether the listing takes in the entries from `from` on: without a query those that meet the
/// criteria join its end, with one the search starts anew.
pub open spec fn extended(
    s: AppView,
    from: int,
    t: AppView,
    request: Option<RequestView>,
) -> bool {
    if no_query(s) {
        &&& request is None
        &&& exists|c: CriteriaView|
            may_be_active(s, c) && t == (AppView {
                filtered: s.filtered + #[trigger] listed(
                    s.entries,
                    from,
                    s.entries.len() as int,
                    c,
                ),
                ..s
            })
    } else {
        may_refilter(s, t, request)
    }
}

/// Whether the chunks lead from `s` to `t` and ask for `request`.
pub open spec fn chunks_loaded(
    s: AppView,
    chunks: Seq<Vec<HistoryEntry>>,
    disconnected: bool,
    t: AppView,
    request: Option<RequestView>,
) -> bool {
    let u = loaded(s, chunks, disconnected);
    if !s.receiving {
        t == s && request is None
    } else if joined(chunks).len() == 0 {
        t == u && request is None
    } else {
        let v = named(u, s.entries.len() as int);
        exists|m: AppView|
            followed(v, v.all_hosts != s.all_hosts, v.all_dirs != s.all_dirs, m)
                && #[trigger] extended(m, s.entries.len() as int, t, request)
    }
}

proof fn lemma_with_new_grows(known: Seq<Seq<char>>, more: Seq<Seq<char>>, end: int)
    ensures
        with_new(known, more, end).len() >= known.len(),
        with_new(known, more, end).len() == known.len() ==> with_new(known, more, end) == known,
    decreases end,
{
    if end > 0 {
        lemma_with_new_grows(known, more, end - 1);
    }
}

/// No known name is lost, every name is known afterwards, and none is known twice.
pub proof fn lemma_with_new_complete(known: Seq<Seq<char>>, more: Seq<Seq<char>>, end: int)
    requires
        0 <= end <= more.len(),
        known.no_duplicates(),
    ensures
        ({
            let names = with_new(known, more, end);
            &&& known.is_prefix_of(names)
            &&& names.no_duplicates()
            &&& forall|i: int| 0 <= i < end ==> names.contains(#[trigger] more[i])
            &&& forall|k: int| #![trigger names[k]]
                known.len() <= k < names.len() ==> more.contains(names[k])
        }),
    decreases end,
{
    if end > 0 {
        lemma_with_new_complete(known, more, end - 1);
        let before = with_new(known, more, end - 1);
        let names = with_new(known, more, end);
        assert forall|i: int| 0 <= i < end implies names.contains(#[trigger] more[i]) by {
            if i < end - 1 {
                let k = before.index_of(more[i]);
                assert(names[k] == more[i]);
            } else if !before.contains(more[end - 1]) {
                assert(names[before.len() as int] == more[end - 1]);
            }
        }
        assert(more.contains(more[end - 1]));
    }
}

/// Adds a name to the known ones if it is new.
fn add_name(names: &mut Vec<String>, name: &String)
    ensures
        texts(final(names)@) == (if texts(old(names)@).contains(name@) {
            texts(old(names)@)
        } else {
            texts(old(names)@).push(name@)
        }),
{
    if !has_name(names, name) {
        names.push(name.clone());
        assert(texts(names@) =~= texts(old(names)@).push(name@));
    }
}

/// Adds the entries of the chunks; tells whether a chunk is empty.
fn append_chunks(entries: &mut Vec<HistoryEntry>, chunks: Vec<Vec<HistoryEntry>>) -> (done: bool)
    ensures
        final(entries)@ == old(entries)@ + joined(chunks@),
        done == at_end(chunks@, false),
{
    let mut done = false;
    let ghost start = entries@;
    let ghost all = chunks@;
    let ghost seqs = chunks@.map_values(|c: Vec<HistoryEntry>| c@);
    proof {
        assert(seqs.take(0) =~= seq![]);
        assert(entries@ =~= start + seqs.take(0).flatten());
    }
    for chunk in it: chunks
        invariant
            it.seq() == all,
            seqs == all.map_values(|c: Vec<HistoryEntry>| c@),
            entries@ == start + seqs.take(it.index()).flatten(),
            done == exists|i: int| 0 <= i < it.index() && #[trigger] all[i]@.len() == 0,
    {
        let ghost k = it.index();
        let ghost before = entries@;
        proof {
            assert(seqs[k] == chunk@);
            assert(seqs.take(k + 1) =~= seqs.take(k).push(chunk@));
            seqs.take(k).lemma_flatten_push(chunk@);
            assert(all[k] == chunk);
        }
        let mut chunk = chunk;
        if chunk.len() == 0 {
            done = true;
        }
        entries.append(&mut chunk);
        assert(entries@ =~= start + seqs.take(k + 1).flatten());
    }
    assert(seqs.take(seqs.len() as int) =~= seqs);
    done
}

impl App {
    /// Takes note of the hosts and directories of the entries from `from` on.
    fn note_names(&mut self, from: usize)
        requires
            old(self).wf(),
            from <= old(self).entries@.len(),
        ensures
            final(self).wf(),
            final(self)@ == named(old(self)@, from as int),
    {
        let ghost s = self@;
        let ghost new = s.entries.skip(from as int);
        let mut i = from;
        while i < self.entries.len()
            invariant
                s.wf(),
                self.wf(),
                from <= i <= s.entries.len(),
                new == s.entries.skip(from as int),
                self@ == (AppView {
                    all_hosts: with_new(s.all_hosts, hosts_of(new), i - from),
                    all_dirs: with_new(s.all_dirs, dirs_of(new), i - from),
                    ..s
                }),
            decreases s.entries.len() - i,
        {
            let ghost before = self@;
            assert(new[i - from] == s.entries[i as int]);
            add_name(&mut self.all_hosts, &self.entries[i].host);
            add_name(&mut self.all_dirs, &self.entries[i].dir);
            i = i + 1;
            assert(self@ =~= (AppView {
                all_hosts: with_new(s.all_hosts, hosts_of(new), i - from),
                all_dirs: with_new(s.all_dirs, dirs_of(new), i - from),
                ..s
            }));
            assert(self@.wf());
        }
    }

    /// Lets the listing take in the entries from `from` on.
    fn extend_listing(&mut self, from: usize) -> (request: Option<FilterRequest>)
        requires
            old(self).wf(),
            from <= old(self).entries@.len(),
        ensures
            final(self).wf(),
            extended(old(self)@, from as int, final(self)@, request_view(request)),
    {
        if self.input.as_str().trim().is_empty() {
            let ghost s = self@;
            let criteria = self.active_filter_criteria();
            let mut more = list_entries(&self.entries, from, &criteria);
            let ghost added = views(more@);
            self.filtered.append(&mut more);
            proof {
                assert(self@.filtered =~= s.filtered + added);
                assert(self@ =~= (AppView { filtered: s.filtered + added, ..s }));
            }
            None
        } else {
            self.filter_entries()
        }
    }

    /// Adds the chunks' entries.
    fn add_chunks(&mut self, chunks: Vec<Vec<HistoryEntry>>, disconnected: bool)
        requires
            old(self).wf(),
        ensures
            final(self).wf(),
            final(self)@ == loaded(old(self)@, chunks@, disconnected),
    {
        let ghost s = self@;
        let empty = append_chunks(&mut self.entries, chunks);
        let done = empty || disconnected;
        self.receiving = !done;
        self.loading = !done;
        if done && self.input.as_str().trim().is_empty() {
            self.filter_done = true;
        }
        assert(self@ =~= loaded(s, chunks@, disconnected));
        assert(self@.wf());
    }

    /// Lets an open overlay list the hosts and the directories anew where there are new ones.
    fn follow_names(&mut self, new_hosts: bool, new_dirs: bool)
        requires
            old(self).wf(),
        ensures
            final(self).wf(),
            followed(old(self)@, new_hosts, new_dirs, final(self)@),
    {
        let ghost s = self@;
        if self.show_overlay && new_hosts {
            self.update_host_filter();
        }
        assert(hosts_followed(s, new_hosts, self@));
        if self.show_overlay && new_dirs {
            self.update_dir_filter();
        }
    }

    /// Takes in the chunks of history that have arrived. `disconnected` says that no more can
    /// come. Where there is a query, gives the search that has to be started.
    pub fn try_load_chunk(&mut self, chunks: Vec<Vec<HistoryEntry>>, disconnected: bool) -> (request:
        Option<FilterRequest>)
        requires
            old(self).wf(),
        ensures
            final(self).wf(),
            chunks_loaded(
                old(self)@,
                chunks@,
                disconnected,
                final(self)@,
                request_view(request),
            ),
    {
        if !self.receiving {
            return None;
        }
        let ghost s = self@;
        let old_len = self.entries.len();
        self.add_chunks(chunks, disconnected);
        if self.entries.len() == old_len {
            return None;
        }
        let known_hosts = self.all_hosts.len();
        let known_dirs = self.all_dirs.len();
        self.note_names(old_len);
        proof {
            let new = self@.entries.skip(old_len as int);
            lemma_with_new_grows(s.all_hosts, hosts_of(new), new.len() as int);
            lemma_with_new_grows(s.all_dirs, dirs_of(new), new.len() as int);
        }
        let new_hosts = self.all_hosts.len() > known_hosts;
        let new_dirs = self.all_dirs.len() > known_dirs;
        self.follow_names(new_hosts, new_dirs);
        self.extend_listing(old_len)
    }
}

/// Names become known one by one: one that is known changes nothing, and a new one comes behind all
/// that are known.
pub proof fn lemma_names_one_by_one(known: Seq<Seq<char>>, more: Seq<Seq<char>>, name: Seq<char>)
    ensures
        ({
            let n = more.len() as int;
            let before = with_new(known, more, n);
            let after = with_new(known, more.push(name), n + 1);
            &&& before.contains(name) ==> after == before
            &&& !before.contains(name) ==> after.len() == before.len() + 1 && after.last() == name
                && after.drop_last() == before
        }),
        with_new(known, Seq::<Seq<char>>::empty(), 0) == known,
{
    let n = more.len() as int;
    lemma_same_beginning(known, more, more.push(name), n);
    assert(with_new(known, more, n).push(name).drop_last() =~= with_new(known, more, n));
}

proof fn lemma_same_beginning(
    known: Seq<Seq<char>>,
    a: Seq<Seq<char>>,
    b: Seq<Seq<char>>,
    end: int,
)
    requires
        end <= a.len(),
        end <= b.len(),
        forall|i: int| #![trigger a[i]] 0 <= i < end ==> a[i] == b[i],
    ensures
        with_new(known, a, end) == with_new(known, b, end),
    decreases end,
{
    if end > 0 {
        lemma_same_beginning(known, a, b, end - 1);
        assert(a[end - 1] == b[end - 1]);
    }
}

} // verus!
