//! The state of the browser and the steps that change its listing.

use super::filter::{beats, views, FilterHeap, FilteredEntry, FilteredView};
use super::heap::{is_preview, lists_best};
use super::listing::{overlay_views, usable_items, OverlayFiltered, OverlayFilteredView};
use super::matching::texts;
use super::names::NameSet;
use super::overlay::{OverlayFocus, OverlayRightFocus, TimeField};
use crate::db::{opt_text, HistdbInfo, HistoryEntry};
use crate::text::{byte_len, is_boundary, lemma_boundary_ends, str_bytes};
use std::collections::HashSet;
use vstd::multiset::Multiset;
use vstd::prelude::*;

verus! {

/// The state of the browser.
pub struct App {
    pub entries: Vec<HistoryEntry>,
    pub filtered: Vec<FilteredEntry>,
    pub selected: usize,
    pub scroll: u16,
    pub list_height: u16,
    pub input: String,
    pub cursor: usize,
    pub running: bool,
    pub output: Option<String>,
    pub receiving: bool,
    pub loading: bool,
    pub filter_token: u64,
    pub heap: FilterHeap,
    pub filter_done: bool,
    pub histdb_info: HistdbInfo,
    pub selected_hosts: NameSet,
    pub selected_sessions: HashSet<i64>,
    pub selected_dirs: NameSet,
    pub restore_entry_idx: Option<usize>,
    pub current_dir: Option<String>,
    pub initial_query: Option<String>,
    pub show_overlay: bool,
    pub overlay_active_item: usize,
    pub overlay_focus: OverlayFocus,
    pub overlay_host_selected: usize,
    pub overlay_dir_selected: usize,
    pub overlay_start_time: String,
    pub overlay_start_cursor: usize,
    pub overlay_end_time: String,
    pub overlay_end_cursor: usize,
    pub overlay_active_time_field: TimeField,
    pub overlay_right_subfocus: OverlayRightFocus,
    pub overlay_host_filter: String,
    pub overlay_host_filter_cursor: usize,
    pub overlay_host_filtered: Vec<OverlayFiltered>,
    pub overlay_dir_filter: String,
    pub overlay_dir_filter_cursor: usize,
    pub overlay_dir_filtered: Vec<OverlayFiltered>,
    pub all_hosts: Vec<String>,
    pub all_dirs: Vec<String>,
}

/// What the state holds.
#[verifier::ext_equal]
pub struct AppView {
    pub entries: Seq<HistoryEntry>,
    pub filtered: Seq<FilteredView>,
    pub selected: usize,
    pub scroll: u16,
    pub list_height: u16,
    pub input: Seq<char>,
    pub cursor: usize,
    pub running: bool,
    pub output: Option<Seq<char>>,
    pub receiving: bool,
    pub loading: bool,
    pub filter_token: u64,
    pub heap: Multiset<FilteredView>,
    pub filter_done: bool,
    pub host: Option<Seq<char>>,
    pub session: Option<i64>,
    pub file: Option<Seq<char>>,
    pub widget: bool,
    pub selected_hosts: Set<Seq<char>>,
    pub selected_sessions: Set<i64>,
    pub selected_dirs: Set<Seq<char>>,
    pub restore_entry_idx: Option<usize>,
    pub current_dir: Option<Seq<char>>,
    pub initial_query: Option<Seq<char>>,
    pub show_overlay: bool,
    pub overlay_active_item: usize,
    pub overlay_focus: OverlayFocus,
    pub overlay_host_selected: usize,
    pub overlay_dir_selected: usize,
    pub overlay_start_time: Seq<char>,
    pub overlay_start_cursor: usize,
    pub overlay_end_time: Seq<char>,
    pub overlay_end_cursor: usize,
    pub overlay_active_time_field: TimeField,
    pub overlay_right_subfocus: OverlayRightFocus,
    pub overlay_host_filter: Seq<char>,
    pub overlay_host_filter_cursor: usize,
    pub overlay_host_filtered: Seq<OverlayFilteredView>,
    pub overlay_dir_filter: Seq<char>,
    pub overlay_dir_filter_cursor: usize,
    pub overlay_dir_filtered: Seq<OverlayFilteredView>,
    pub all_hosts: Seq<Seq<char>>,
    pub all_dirs: Seq<Seq<char>>,
}

impl View for App {
    type V = AppView;

    open spec fn view(&self) -> AppView {
        AppView {
            entries: self.entries@,
            filtered: views(self.filtered@),
            selected: self.selected,
            scroll: self.scroll,
            list_height: self.list_height,
            input: self.input@,
            cursor: self.cursor,
            running: self.running,
            output: opt_text(self.output),
            receiving: self.receiving,
            loading: self.loading,
            filter_token: self.filter_token,
            heap: self.heap@,
            filter_done: self.filter_done,
            host: opt_text(self.histdb_info.host),
            session: self.histdb_info.session,
            file: opt_text(self.histdb_info.file),
            widget: self.histdb_info.widget,
            selected_hosts: self.selected_hosts@,
            selected_sessions: self.selected_sessions@,
            selected_dirs: self.selected_dirs@,
            restore_entry_idx: self.restore_entry_idx,
            current_dir: opt_text(self.current_dir),
            initial_query: opt_text(self.initial_query),
            show_overlay: self.show_overlay,
            overlay_active_item: self.overlay_active_item,
            overlay_focus: self.overlay_focus,
            overlay_host_selected: self.overlay_host_selected,
            overlay_dir_selected: self.overlay_dir_selected,
            overlay_start_time: self.overlay_start_time@,
            overlay_start_cursor: self.overlay_start_cursor,
            overlay_end_time: self.overlay_end_time@,
            overlay_end_cursor: self.overlay_end_cursor,
            overlay_active_time_field: self.overlay_active_time_field,
            overlay_right_subfocus: self.overlay_right_subfocus,
            overlay_host_filter: self.overlay_host_filter@,
            overlay_host_filter_cursor: self.overlay_host_filter_cursor,
            overlay_host_filtered: overlay_views(self.overlay_host_filtered@),
            overlay_dir_filter: self.overlay_dir_filter@,
            overlay_dir_filter_cursor: self.overlay_dir_filter_cursor,
            overlay_dir_filtered: overlay_views(self.overlay_dir_filtered@),
            all_hosts: texts(self.all_hosts@),
            all_dirs: texts(self.all_dirs@),
        }
    }
}

/// No match position is the largest number, so that the place behind it can be named.
pub open spec fn usable(e: FilteredView) -> bool {
    forall|k: int| 0 <= k < e.match_indices.len() ==> #[trigger] e.match_indices[k] < usize::MAX
}

/// Whether all of the entries have usable match positions.
pub open spec fn all_usable(s: Seq<FilteredView>) -> bool {
    forall|i: int| 0 <= i < s.len() ==> usable(#[trigger] s[i])
}

impl AppView {
    /// Cursors are at boundaries, match positions are usable, and the selected position and
    /// the overlay's page are in range.
    pub open spec fn wf(self) -> bool {
        &&& is_boundary(self.input, self.cursor as int)
        &&& is_boundary(self.overlay_start_time, self.overlay_start_cursor as int)
        &&& is_boundary(self.overlay_end_time, self.overlay_end_cursor as int)
        &&& is_boundary(self.overlay_host_filter, self.overlay_host_filter_cursor as int)
        &&& is_boundary(self.overlay_dir_filter, self.overlay_dir_filter_cursor as int)
        &&& all_usable(self.filtered)
        &&& forall|e: FilteredView| #[trigger] self.heap.contains(e) ==> usable(e)
        &&& usable_items(self.overlay_host_filtered)
        &&& usable_items(self.overlay_dir_filtered)
        &&& self.selected < usize::MAX
        &&& self.overlay_active_item <= 2
    }
}

impl App {
    /// The state is in order.
    pub open spec fn wf(&self) -> bool {
        &&& self@.wf()
        &&& self.heap.wf()
        &&& self.selected_hosts.wf()
        &&& self.selected_dirs.wf()
    }
}

/// The state at the start: nothing is loaded, and the query is in the input line.
pub open spec fn initial_state(
    query: Option<Seq<char>>,
    host: Option<Seq<char>>,
    session: Option<i64>,
    file: Option<Seq<char>>,
    widget: bool,
    current_dir: Option<Seq<char>>,
) -> AppView {
    AppView {
        entries: seq![],
        filtered: seq![],
        selected: 0,
        scroll: 0,
        list_height: 0,
        input: match query {
            Some(q) => q,
            None => seq![],
        },
        cursor: match query {
            Some(q) => byte_len(q) as usize,
            None => 0,
        },
        running: true,
        output: None,
        receiving: false,
        loading: true,
        filter_token: 0,
        heap: Multiset::empty(),
        filter_done: false,
        host,
        session,
        file,
        widget,
        selected_hosts: Set::empty(),
        selected_sessions: Set::empty(),
        selected_dirs: Set::empty(),
        restore_entry_idx: None,
        current_dir,
        initial_query: query,
        show_overlay: false,
        overlay_active_item: 0,
        overlay_focus: OverlayFocus::Left,
        overlay_host_selected: 0,
        overlay_dir_selected: 0,
        overlay_start_time: seq![],
        overlay_start_cursor: 0,
        overlay_end_time: seq![],
        overlay_end_cursor: 0,
        overlay_active_time_field: TimeField::Start,
        overlay_right_subfocus: OverlayRightFocus::List,
        overlay_host_filter: seq![],
        overlay_host_filter_cursor: 0,
        overlay_host_filtered: seq![],
        overlay_dir_filter: seq![],
        overlay_dir_filter_cursor: 0,
        overlay_dir_filtered: seq![],
        all_hosts: seq![],
        all_dirs: seq![],
    }
}

/// How many results there are to go through: while a search runs, those that wait in the heap.
pub open spec fn total(s: AppView) -> int {
    let n = if s.filter_done { s.filtered.len() + s.heap.len() } else { s.heap.len() };
    if n < usize::MAX {
        n as int
    } else {
        usize::MAX as int
    }
}

/// Whether `t` is `s` with `needed` results in the list, as far as there are so many. While a
/// search runs the heap keeps all results, and a list that is too short becomes a longer preview
/// of the best; the list of the search before stays until there are results.
pub open spec fn topped_up(s: AppView, needed: int, t: AppView) -> bool {
    if s.filter_done {
        taken_over(s, needed, t)
    } else if needed <= s.filtered.len() || s.heap.len() == 0 {
        t == s
    } else {
        is_preview(s.heap, needed, t.filtered) && t == (AppView { filtered: t.filtered, ..s })
    }
}

/// Whether `t` is `s` with results moved from the heap to the end of the list, the best first,
/// until there are `needed` or the heap is empty.
pub open spec fn taken_over(s: AppView, needed: int, t: AppView) -> bool {
    let taken = t.filtered.skip(s.filtered.len() as int);
    let missing = if needed > s.filtered.len() { needed - s.filtered.len() } else { 0 };
    &&& t == (AppView { filtered: t.filtered, heap: t.heap, ..s })
    &&& t.filtered == s.filtered + taken
    &&& taken.len() == (if missing < s.heap.len() { missing } else { s.heap.len() as int })
    &&& s.heap == taken.to_multiset().add(t.heap)
    &&& lists_best(taken, t.heap)
}

/// The first place at which the entry `target` is listed.
pub open spec fn is_first_at(filtered: Seq<FilteredView>, target: usize, at: int) -> bool {
    &&& 0 <= at < filtered.len()
    &&& filtered[at].idx == target
    &&& forall|j: int| 0 <= j < at ==> #[trigger] filtered[j].idx != target
}

/// Whether the entry `target` is listed.
pub open spec fn is_listed(filtered: Seq<FilteredView>, target: usize) -> bool {
    exists|j: int| 0 <= j < filtered.len() && #[trigger] filtered[j].idx == target
}

/// Whether `e` is the result for the entry `target` that leaves the heap first.
pub open spec fn is_found_in(heap: Multiset<FilteredView>, target: usize, e: FilteredView) -> bool {
    &&& heap.contains(e)
    &&& e.idx == target
    &&& forall|x: FilteredView| #[trigger]
        heap.contains(x) && x.idx == target ==> !beats(x, e)
}

/// Whether `t` is `s` with the remembered entry selected again: where it is listed, or else at
/// the end of the list, moved there from the heap. Without such an entry nothing is selected
/// anew.
pub open spec fn restored(s: AppView, t: AppView) -> bool {
    match s.restore_entry_idx {
        None => t == s,
        Some(target) => {
            let u = AppView { restore_entry_idx: None, ..s };
            if is_listed(s.filtered, target) {
                &&& is_first_at(s.filtered, target, t.selected as int)
                &&& t == (AppView { selected: t.selected, ..u })
            } else if exists|e: FilteredView| #[trigger] s.heap.contains(e) && e.idx == target {
                exists|e: FilteredView| #[trigger] is_found_in(s.heap, target, e) && t == (AppView {
                    filtered: s.filtered.push(e),
                    heap: s.heap.remove(e),
                    selected: s.filtered.len() as usize,
                    ..u
                })
            } else {
                t == u
            }
        },
    }
}

/// The first visible row, after the selection has moved: as before if the selected row is
/// visible then, otherwise such that it is the first or the last visible one. Rows are counted
/// in 16 bits.
pub open spec fn scrolled(selected: int, scroll: u16, height: u16) -> u16 {
    if selected < scroll {
        selected as u16
    } else if selected >= scroll + height {
        ((selected - height + 1) % 65536) as u16
    } else {
        scroll
    }
}

/// The state with the selection within the results and on the screen.
pub open spec fn clamped(s: AppView) -> AppView {
    if total(s) == 0 {
        AppView { selected: 0, scroll: 0, ..s }
    } else {
        let selected = if s.selected >= total(s) { total(s) - 1 } else { s.selected as int };
        AppView {
            selected: selected as usize,
            scroll: scrolled(selected, s.scroll, s.list_height),
            ..s
        }
    }
}

/// The state with the selection moved by `delta` rows, as far as there are results.
pub open spec fn moved(s: AppView, delta: int) -> AppView {
    if total(s) == 0 {
        s
    } else {
        let at = s.selected + delta;
        let selected = if at < 0 {
            0
        } else if at > total(s) - 1 {
            total(s) - 1
        } else {
            at
        };
        AppView {
            selected: selected as usize,
            scroll: scrolled(selected, s.scroll, s.list_height),
            ..s
        }
    }
}

/// The result that is selected.
pub open spec fn selection(s: AppView) -> Option<FilteredView> {
    if s.selected < s.filtered.len() {
        Some(s.filtered[s.selected as int])
    } else {
        None
    }
}

/// The entry that is selected.
pub open spec fn selected_history(s: AppView) -> Option<HistoryEntry> {
    match selection(s) {
        Some(fe) => if fe.idx < s.entries.len() {
            Some(s.entries[fe.idx as int])
        } else {
            None
        },
        None => None,
    }
}

fn scroll_to(selected: usize, scroll: u16, height: u16) -> (r: u16)
    ensures
        r == scrolled(selected as int, scroll, height),
{
    if selected < scroll as usize {
        selected as u16
    } else if selected - scroll as usize >= height as usize {
        let first = selected - height as usize;
        let low = first % 65536;
        if low == 65535 {
            proof {
                assert((first + 1) % 65536 == 0) by (nonlinear_arith)
                    requires
                        first % 65536 == 65535,
                ;
            }
            0
        } else {
            proof {
                assert((first + 1) % 65536 == low + 1) by (nonlinear_arith)
                    requires
                        first % 65536 == low,
                        low < 65535,
                ;
            }
            (low + 1) as u16
        }
    } else {
        scroll
    }
}

impl App {
    /// The browser at its start, with what the environment says.
    pub fn new(
        initial_query: Option<String>,
        histdb_info: HistdbInfo,
        current_dir: Option<String>,
    ) -> (app: Self)
        ensures
            app.wf(),
            app@ == initial_state(
                opt_text(initial_query),
                opt_text(histdb_info.host),
                histdb_info.session,
                opt_text(histdb_info.file),
                histdb_info.widget,
                opt_text(current_dir),
            ),
    {
        let (input, cursor) = match &initial_query {
            Some(q) => (q.clone(), str_bytes(q.as_str())),
            None => (String::new(), 0),
        };
        proof {
            lemma_boundary_ends(input@);
            lemma_boundary_ends(Seq::<char>::empty());
        }
        let app = App {
            entries: Vec::new(),
            filtered: Vec::new(),
            selected: 0,
            scroll: 0,
            list_height: 0,
            input,
            cursor,
            running: true,
            output: None,
            receiving: false,
            loading: true,
            filter_token: 0,
            heap: FilterHeap::new(),
            filter_done: false,
            histdb_info,
            selected_hosts: NameSet::new(),
            selected_sessions: HashSet::new(),
            selected_dirs: NameSet::new(),
            restore_entry_idx: None,
            current_dir,
            initial_query,
            show_overlay: false,
            overlay_active_item: 0,
            overlay_focus: OverlayFocus::Left,
            overlay_host_selected: 0,
            overlay_dir_selected: 0,
            overlay_start_time: String::new(),
            overlay_start_cursor: 0,
            overlay_end_time: String::new(),
            overlay_end_cursor: 0,
            overlay_active_time_field: TimeField::Start,
            overlay_right_subfocus: OverlayRightFocus::List,
            overlay_host_filter: String::new(),
            overlay_host_filter_cursor: 0,
            overlay_host_filtered: Vec::new(),
            overlay_dir_filter: String::new(),
            overlay_dir_filter_cursor: 0,
            overlay_dir_filtered: Vec::new(),
            all_hosts: Vec::new(),
            all_dirs: Vec::new(),
        };
        proof {
            assert(views(app.filtered@) =~= seq![]);
            assert(overlay_views(app.overlay_host_filtered@) =~= seq![]);
            assert(overlay_views(app.overlay_dir_filtered@) =~= seq![]);
            assert(texts(app.all_hosts@) =~= seq![]);
            assert(texts(app.all_dirs@) =~= seq![]);
            assert(app.input@.len() == 0 ==> app.input@ =~= seq![]);
        }
        app
    }

    /// How many results there are to go through.
    pub fn total_filtered(&self) -> (n: usize)
        ensures
            n == total(self@),
    {
        if self.filter_done {
            self.filtered.len().saturating_add(self.heap.len())
        } else {
            self.heap.len()
        }
    }

    /// Brings results from the heap into the list until there are `needed`.
    pub fn ensure_filtered_len(&mut self, needed: usize)
        requires
            old(self).wf(),
        ensures
            final(self).wf(),
            topped_up(old(self)@, needed as int, final(self)@),
    {
        if self.filter_done {
            self.take_over(needed);
        } else if needed > self.filtered.len() && self.heap.len() > 0 {
            self.preview(needed);
        }
    }

    /// Lists the best `n` results; all of them stay in the heap.
    pub fn preview(&mut self, n: usize)
        requires
            old(self).wf(),
        ensures
            final(self).wf(),
            is_preview(old(self)@.heap, n as int, final(self)@.filtered),
            final(self)@ == (AppView { filtered: final(self)@.filtered, ..old(self)@ }),
    {
        let ghost s = self@;
        self.filtered = self.heap.top_n(n);
        proof {
            let top = views(self.filtered@);
            assert(self@ =~= (AppView { filtered: top, ..s }));
            assert forall|i: int| 0 <= i < top.len() implies usable(#[trigger] top[i]) by {
                assert(top.contains(top[i]));
                top.to_multiset_ensures();
                assert(top.to_multiset().contains(top[i]));
                assert(s.heap.contains(top[i]));
            }
        }
    }

    fn take_over(&mut self, needed: usize)
        requires
            old(self).wf(),
        ensures
            final(self).wf(),
            taken_over(old(self)@, needed as int, final(self)@),
    {
        let n = self.filtered.len();
        let missing = if needed > n { needed - n } else { 0 };
        let ghost s = self@;
        let mut taken = self.heap.take_best(missing);
        let ghost best = views(taken@);
        self.filtered.append(&mut taken);
        proof {
            let t = self@;
            assert(t.filtered =~= s.filtered + best);
            assert(t.filtered.skip(s.filtered.len() as int) =~= best);
            assert forall|e: FilteredView| #[trigger] t.heap.contains(e) implies s.heap.contains(
                e,
            ) by {}
            assert forall|i: int| 0 <= i < t.filtered.len() implies usable(
                #[trigger] t.filtered[i],
            ) by {
                if i >= s.filtered.len() {
                    let e = best[i - s.filtered.len()];
                    assert(best.contains(e));
                    best.to_multiset_ensures();
                    assert(s.heap.contains(e));
                }
            }
            assert(t =~= (AppView { filtered: t.filtered, heap: t.heap, ..s }));
        }
    }

    /// Brings the selection into the results and onto the screen.
    pub fn clamp_filter_state(&mut self)
        requires
            old(self).wf(),
        ensures
            final(self).wf(),
            final(self)@ == clamped(old(self)@),
    {
        let total = self.total_filtered();
        if total == 0 {
            self.select(0, 0);
        } else {
            let selected = if self.selected >= total { total - 1 } else { self.selected };
            self.select(selected, scroll_to(selected, self.scroll, self.list_height));
        }
    }

    fn select(&mut self, selected: usize, scroll: u16)
        requires
            old(self).wf(),
            selected < usize::MAX,
        ensures
            final(self).wf(),
            final(self)@ == (AppView { selected, scroll, ..old(self)@ }),
    {
        self.selected = selected;
        self.scroll = scroll;
        assert(self@ =~= (AppView { selected, scroll, ..old(self)@ }));
    }

    /// The result that is selected.
    pub fn selected_filtered(&self) -> (r: Option<&FilteredEntry>)
        ensures
            match r {
                Some(fe) => selection(self@) == Some(fe@),
                None => selection(self@) is None,
            },
    {
        if self.selected < self.filtered.len() {
            Some(&self.filtered[self.selected])
        } else {
            None
        }
    }

    /// The entry that is selected.
    pub fn selected_entry(&self) -> (r: Option<&HistoryEntry>)
        ensures
            match r {
                Some(e) => selected_history(self@) == Some(*e),
                None => selected_history(self@) is None,
            },
    {
        match self.selected_filtered() {
            Some(fe) => {
                if fe.idx < self.entries.len() {
                    Some(&self.entries[fe.idx])
                } else {
                    None
                }
            },
            None => None,
        }
    }

    /// Moves the selection by `delta` rows.
    pub fn move_selection(&mut self, delta: i32)
        requires
            old(self).wf(),
        ensures
            final(self).wf(),
            final(self)@ == moved(old(self)@, delta as int),
    {
        let total = self.total_filtered();
        if total == 0 {
            return;
        }
        let at = self.selected as i128 + delta as i128;
        let selected = if at < 0 {
            0
        } else if at > (total - 1) as i128 {
            total - 1
        } else {
            at as usize
        };
        self.select(selected, scroll_to(selected, self.scroll, self.list_height));
    }
}

} // verus!
