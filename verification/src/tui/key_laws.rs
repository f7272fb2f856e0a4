//! What holds of the keys in the listing.

use super::app::{topped_up, AppView};
use super::keys::{
    accepted, action, asked_search, handled, input_edited, refilters_to, Action, EffectView,
    KeyCode, KeyEvent,
};
use super::list_laws::{filtered_anew, lemma_filtering_anew, lemma_topping_up};
use super::overlay::{overlay_handled, OverlayFocus, OverlayRightFocus};
use super::overlay_laws::{all_offered, lemma_hosts_offered_all, lemma_dirs_offered_all};
use super::util::{base64_bytes, lemma_clipboard_holds_text};
use crate::text::{
    lemma_arrows, lemma_backspace, lemma_delete, lemma_ends_of_line, lemma_typing, TextEdit,
};
use vstd::prelude::*;
use vstd::utf8::encode_utf8;

verus! {

/// Whether a key is pressed in the listing.
pub open spec fn pressed(s: AppView, key: KeyEvent) -> bool {
    key.press && !s.show_overlay
}

/// The search that an effect asks for; the effect must not be anything else.
pub open spec fn only_search(effect: EffectView) -> bool {
    effect is Nothing || effect is Search
}

/// Letting a key go does nothing.
pub proof fn lemma_release(s: AppView, key: KeyEvent, t: AppView, effect: EffectView)
    requires
        handled(s, key, t, effect),
        !key.press,
    ensures
        t == s,
        effect is Nothing,
{
}

/// While the overlay is open it gets every key that is pressed, and the search that it asks for is
/// the search that is made.
pub proof fn lemma_overlay_gets_keys(s: AppView, key: KeyEvent, t: AppView, effect: EffectView)
    requires
        handled(s, key, t, effect),
        key.press,
        s.show_overlay,
    ensures
        effect matches EffectView::Search(q) ==> overlay_handled(s, key, t, Some(q)),
        effect is Nothing ==> overlay_handled(s, key, t, None),
        only_search(effect),
{
}

/// Escape ends the browser: a widget gets back the query that it was started with, and otherwise
/// nothing is given. Nothing else changes.
pub proof fn lemma_leaving(s: AppView, key: KeyEvent, t: AppView, effect: EffectView)
    requires
        handled(s, key, t, effect),
        pressed(s, key),
        key.code == KeyCode::Esc,
    ensures
        !t.running,
        effect is Nothing,
        s.widget ==> t.output == s.initial_query,
        !s.widget ==> t.output is None,
        t == (AppView { running: t.running, output: t.output, ..s }),
{
}

/// Enter ends the browser with the command of the entry in the selected row, whatever stands in the
/// input line: a widget gets it as its output. The list is made long enough first, by results that
/// come next in order. Without an entry in that row nothing ends.
#[verifier::rlimit(40)]
pub proof fn lemma_accepting(s: AppView, key: KeyEvent, t: AppView, effect: EffectView)
    requires
        handled(s, key, t, effect),
        pressed(s, key),
        key.code == KeyCode::Enter,
        s.filtered.len() + s.heap.len() < usize::MAX,
    ensures
        effect is Nothing,
        t == (AppView {
            filtered: t.filtered,
            heap: t.heap,
            running: t.running,
            output: t.output,
            ..s
        }),
        topped_up(
            s,
            s.selected + 1,
            AppView { running: s.running, output: s.output, ..t },
        ),
        s.selected < s.filtered.len() ==> t.filtered == s.filtered,
        s.filter_done && s.selected < s.filtered.len() + s.heap.len() ==> s.selected
            < t.filtered.len(),
        s.selected < t.filtered.len() && t.filtered[s.selected as int].idx < s.entries.len() ==> {
            let chosen = s.entries[t.filtered[s.selected as int].idx as int];
            &&& !t.running
            &&& s.widget ==> t.output == Some(chosen.argv@)
            &&& !s.widget ==> t.output is None
        },
        !(s.selected < t.filtered.len() && t.filtered[s.selected as int].idx < s.entries.len())
            ==> t.running == s.running && t.output == s.output,
{
    let m = choose|m: AppView| #[trigger] topped_up(s, s.selected + 1, m) && t == accepted(m);
    lemma_topping_up(s, s.selected + 1, m);
    assert(m =~= (AppView { running: s.running, output: s.output, ..t }));
}

/// Enter on a row of the list ends the browser, and a widget gets the command in that row, whatever is
/// typed.
pub proof fn lemma_accepting_listed(s: AppView, key: KeyEvent, t: AppView, effect: EffectView)
    requires
        handled(s, key, t, effect),
        pressed(s, key),
        key.code == KeyCode::Enter,
        s.selected < s.filtered.len(),
        s.filtered[s.selected as int].idx < s.entries.len(),
        s.filtered.len() + s.heap.len() < usize::MAX,
    ensures
        !t.running,
        s.widget ==> t.output == Some(s.entries[s.filtered[s.selected as int].idx as int].argv@),
        !s.widget ==> t.output is None,
        t.filtered == s.filtered,
        t.selected == s.selected,
{
    let m = choose|m: AppView| #[trigger] topped_up(s, s.selected + 1, m) && t == accepted(m);
    lemma_topping_up(s, s.selected + 1, m);
}

/// Control-C copies the command of the entry in the selected row: the clipboard gets its UTF-8
/// bytes. Without an entry in that row nothing is copied.
#[verifier::rlimit(40)]
pub proof fn lemma_copying(s: AppView, key: KeyEvent, t: AppView, effect: EffectView)
    requires
        handled(s, key, t, effect),
        pressed(s, key),
        key.code == KeyCode::Char('c'),
        key.ctrl,
        s.filtered.len() + s.heap.len() < usize::MAX,
    ensures
        t == (AppView { filtered: t.filtered, heap: t.heap, ..s }),
        topped_up(s, s.selected + 1, t),
        s.selected < s.filtered.len() ==> t.filtered == s.filtered,
        s.filter_done && s.selected < s.filtered.len() + s.heap.len() ==> s.selected
            < t.filtered.len(),
        s.selected < t.filtered.len() && t.filtered[s.selected as int].idx < s.entries.len() ==> {
            let chosen = s.entries[t.filtered[s.selected as int].idx as int];
            &&& effect matches EffectView::Copy(q) && {
                &&& q.len() >= 8
                &&& q.take(7) == seq!['\u{1b}', ']', '5', '2', ';', 'c', ';']
                &&& q.last() == '\u{7}'
                &&& base64_bytes(q.subrange(7, q.len() - 1)) == encode_utf8(chosen.argv@)
            }
        },
        !(s.selected < t.filtered.len() && t.filtered[s.selected as int].idx < s.entries.len())
            ==> effect is Nothing,
{
    lemma_topping_up(s, s.selected + 1, t);
    if s.selected < t.filtered.len() && t.filtered[s.selected as int].idx < s.entries.len() {
        lemma_clipboard_holds_text(s.entries[t.filtered[s.selected as int].idx as int].argv@);
    }
}

/// The arrow keys move the selection by one row and the page keys by as many as the list has, at
/// least by one: not before the first result and not behind the last. Nothing but the selection and
/// what is in view changes.
pub proof fn lemma_moving_keys(s: AppView, key: KeyEvent, t: AppView, effect: EffectView)
    requires
        handled(s, key, t, effect),
        pressed(s, key),
        key.code == KeyCode::Up || key.code == KeyCode::Down || key.code == KeyCode::PageUp
            || key.code == KeyCode::PageDown,
    ensures
        effect is Nothing,
        t == (AppView { selected: t.selected, scroll: t.scroll, ..s }),
        ({
            let n = if s.filter_done { s.filtered.len() + s.heap.len() } else { s.heap.len() };
            let page: int = if s.list_height > 1 { s.list_height as int } else { 1 };
            let step = if key.code == KeyCode::Up || key.code == KeyCode::Down { 1 } else { page };
            let back = key.code == KeyCode::Up || key.code == KeyCode::PageUp;
            &&& n == 0 ==> t == s
            &&& back && 0 < n < usize::MAX && step <= s.selected < n ==> t.selected == s.selected
                - step
            &&& back && 0 < n && s.selected < step ==> t.selected == 0
            &&& !back && s.selected + step < n < usize::MAX ==> t.selected == s.selected + step
            &&& !back && 0 < n < usize::MAX && n <= s.selected + step ==> t.selected == n - 1
            &&& 0 < n && s.list_height > 0 && t.selected - s.list_height < 65535 ==> t.scroll
                <= t.selected < t.scroll + s.list_height
            &&& 0 < n && s.scroll <= t.selected < s.scroll + s.list_height ==> t.scroll == s.scroll
        }),
{
    assert(action(s, key) is Move);
    let page: int = if s.list_height > 1 { s.list_height as int } else { 1 };
    if key.code == KeyCode::PageUp {
        assert(action(s, key)->Move_0 == -page);
    }
    if key.code == KeyCode::PageDown {
        assert(action(s, key)->Move_0 == page);
    }
}

/// Control-F opens the overlay at its left side with empty filters, in which all hosts and all
/// directories are offered and the first of each is selected. Nothing else changes.
pub proof fn lemma_opening_overlay(s: AppView, key: KeyEvent, t: AppView, effect: EffectView)
    requires
        handled(s, key, t, effect),
        pressed(s, key),
        key.code == KeyCode::Char('f'),
        key.ctrl,
        s.all_hosts.len() <= usize::MAX,
        s.all_dirs.len() <= usize::MAX,
    ensures
        effect is Nothing,
        t.show_overlay,
        t.overlay_focus == OverlayFocus::Left,
        t.overlay_right_subfocus == OverlayRightFocus::List,
        t.overlay_host_filter.len() == 0,
        t.overlay_host_filter_cursor == 0,
        t.overlay_dir_filter.len() == 0,
        t.overlay_dir_filter_cursor == 0,
        t.overlay_host_selected == 0,
        t.overlay_dir_selected == 0,
        all_offered(s.all_hosts, s.selected_hosts, t.overlay_host_filtered),
        all_offered(s.all_dirs, s.selected_dirs, t.overlay_dir_filtered),
        t == (AppView {
            show_overlay: t.show_overlay,
            overlay_focus: t.overlay_focus,
            overlay_right_subfocus: t.overlay_right_subfocus,
            overlay_host_filter: t.overlay_host_filter,
            overlay_host_filter_cursor: t.overlay_host_filter_cursor,
            overlay_dir_filter: t.overlay_dir_filter,
            overlay_dir_filter_cursor: t.overlay_dir_filter_cursor,
            overlay_host_filtered: t.overlay_host_filtered,
            overlay_dir_filtered: t.overlay_dir_filtered,
            overlay_host_selected: t.overlay_host_selected,
            overlay_dir_selected: t.overlay_dir_selected,
            ..s
        }),
{
    let u = super::keys::overlay_opened(s);
    let m = choose|m: AppView| #[trigger]
        super::overlay::hosts_listed(u, m) && super::overlay::dirs_listed(m, t);
    lemma_hosts_offered_all(u, m);
    lemma_dirs_offered_all(m, t);
}

/// Whether two sets differ in one element, which is in one of them only.
pub open spec fn turned_around<T>(a: Set<T>, b: Set<T>, x: T) -> bool {
    &&& a.contains(x) != b.contains(x)
    &&& forall|y: T| y != x ==> #[trigger] a.contains(y) == b.contains(y)
}

/// Whether `u` is `s` with the entry in the selected row remembered, and nothing else changed but the
/// selected hosts, sessions and directories.
pub open spec fn remembers(s: AppView, u: AppView) -> bool {
    &&& u == (AppView {
        restore_entry_idx: u.restore_entry_idx,
        selected_hosts: u.selected_hosts,
        selected_sessions: u.selected_sessions,
        selected_dirs: u.selected_dirs,
        ..s
    })
    &&& s.selected < s.filtered.len() ==> u.restore_entry_idx == Some(
        s.filtered[s.selected as int].idx,
    )
    &&& s.selected >= s.filtered.len() ==> u.restore_entry_idx == s.restore_entry_idx
}

/// Control with `h`, `s` or `d` turns the filter around for the host, the session or the directory
/// that the browser was started in, and for no other; then it filters anew and selects the same
/// entry again.
#[verifier::rlimit(40)]
pub proof fn lemma_own_filters(s: AppView, key: KeyEvent, t: AppView, effect: EffectView)
    requires
        handled(s, key, t, effect),
        pressed(s, key),
        key.ctrl,
        key.code == KeyCode::Char('h') && s.host is Some || key.code == KeyCode::Char('s')
            && s.session is Some || key.code == KeyCode::Char('d'),
        s.entries.len() < usize::MAX,
    ensures
        only_search(effect),
        exists|u: AppView| #[trigger]
            filtered_anew(u, t, asked_search(effect)) && remembers(s, u) && if key.code
                == KeyCode::Char('h') {
                &&& turned_around(s.selected_hosts, u.selected_hosts, s.host->0)
                &&& u.selected_sessions == s.selected_sessions
                &&& u.selected_dirs == s.selected_dirs
            } else if key.code == KeyCode::Char('s') {
                &&& u.selected_hosts == s.selected_hosts
                &&& turned_around(s.selected_sessions, u.selected_sessions, s.session->0)
                &&& u.selected_dirs == s.selected_dirs
            } else {
                &&& u.selected_hosts == s.selected_hosts
                &&& u.selected_sessions == s.selected_sessions
                &&& s.current_dir matches Some(dir) ==> turned_around(
                    s.selected_dirs,
                    u.selected_dirs,
                    dir,
                )
                &&& s.current_dir is None ==> u.selected_dirs == s.selected_dirs
            },
{
    let u = super::keys::facet_toggled(s, action(s, key))->0;
    assert(refilters_to(u, t, effect));
    lemma_filtering_anew(u, t, asked_search(effect));
}

/// Alt with `h`, `s` or `d` turns the filter around for the host, the session or the directory of the
/// entry in the selected row, and for no other; then it filters anew and selects the same entry
/// again. Without an entry in that row nothing happens.
#[verifier::rlimit(40)]
pub proof fn lemma_entry_filters(s: AppView, key: KeyEvent, t: AppView, effect: EffectView)
    requires
        handled(s, key, t, effect),
        pressed(s, key),
        key.alt,
        !key.ctrl,
        key.code == KeyCode::Char('h') || key.code == KeyCode::Char('s') || key.code
            == KeyCode::Char('d'),
        s.entries.len() < usize::MAX,
    ensures
        only_search(effect),
        !(s.selected < s.filtered.len() && s.filtered[s.selected as int].idx < s.entries.len())
            ==> t == s && effect is Nothing,
        s.selected < s.filtered.len() && s.filtered[s.selected as int].idx < s.entries.len() ==> {
            let chosen = s.entries[s.filtered[s.selected as int].idx as int];
            exists|u: AppView| #[trigger]
                filtered_anew(u, t, asked_search(effect)) && remembers(s, u) && if key.code
                    == KeyCode::Char('h') {
                    &&& turned_around(s.selected_hosts, u.selected_hosts, chosen.host@)
                    &&& u.selected_sessions == s.selected_sessions
                    &&& u.selected_dirs == s.selected_dirs
                } else if key.code == KeyCode::Char('s') {
                    &&& u.selected_hosts == s.selected_hosts
                    &&& turned_around(s.selected_sessions, u.selected_sessions, chosen.session)
                    &&& u.selected_dirs == s.selected_dirs
                } else {
                    &&& u.selected_hosts == s.selected_hosts
                    &&& u.selected_sessions == s.selected_sessions
                    &&& turned_around(s.selected_dirs, u.selected_dirs, chosen.dir@)
                }
        },
{
    if s.selected < s.filtered.len() && s.filtered[s.selected as int].idx < s.entries.len() {
        let u = super::keys::facet_toggled(s, action(s, key))->0;
        assert(refilters_to(u, t, effect));
        lemma_filtering_anew(u, t, asked_search(effect));
    }
}

/// Whether an edit has made `text` of the input line, with the cursor at `at`, and the listing was
/// filtered anew for it.
pub open spec fn searched_with(
    s: AppView,
    text: Seq<char>,
    at: int,
    t: AppView,
    effect: EffectView,
) -> bool {
    only_search(effect) && filtered_anew(
        AppView { input: text, cursor: at as usize, ..s },
        t,
        asked_search(effect),
    )
}

/// Typing a character puts it where the cursor is, moves the cursor behind it, and filters anew.
pub proof fn lemma_typing_filters(
    s: AppView,
    before: Seq<char>,
    after: Seq<char>,
    c: char,
    key: KeyEvent,
    t: AppView,
    effect: EffectView,
)
    requires
        handled(s, key, t, effect),
        pressed(s, key),
        key.code == KeyCode::Char(c),
        !key.ctrl,
        !key.alt,
        s.input == before + after,
        s.cursor == encode_utf8(before).len(),
        s.entries.len() < usize::MAX,
    ensures
        searched_with(
            s,
            before + seq![c] + after,
            encode_utf8(before + seq![c]).len() as int,
            t,
            effect,
        ),
{
    lemma_typing(before, after, c);
    let u = input_edited(s, TextEdit::Insert(c)).0;
    assert(action(s, key) == Action::Edit(TextEdit::Insert(c)));
    assert(refilters_to(u, t, effect));
    lemma_filtering_anew(u, t, asked_search(effect));
}

/// Backspace takes away the character before the cursor, Delete the one behind it, and both filter
/// anew; without such a character nothing happens.
#[verifier::rlimit(40)]
pub proof fn lemma_erasing_filters(
    s: AppView,
    before: Seq<char>,
    x: char,
    after: Seq<char>,
    key: KeyEvent,
    t: AppView,
    effect: EffectView,
)
    requires
        handled(s, key, t, effect),
        pressed(s, key),
        s.entries.len() < usize::MAX,
    ensures
        key.code == KeyCode::Backspace && s.input == before + seq![x] + after && s.cursor
            == encode_utf8(before + seq![x]).len() ==> searched_with(
            s,
            before + after,
            encode_utf8(before).len() as int,
            t,
            effect,
        ),
        key.code == KeyCode::Delete && s.input == before + seq![x] + after && s.cursor
            == encode_utf8(before).len() ==> searched_with(
            s,
            before + after,
            encode_utf8(before).len() as int,
            t,
            effect,
        ),
        key.code == KeyCode::Backspace && s.cursor == 0 ==> t == s && effect is Nothing,
        key.code == KeyCode::Delete && s.cursor == encode_utf8(s.input).len() ==> t == s && effect
            is Nothing,
{
    lemma_backspace(before, x, after);
    lemma_delete(before, x, after);
    lemma_backspace(before, x, s.input);
    lemma_delete(s.input, x, after);
    if key.code == KeyCode::Backspace {
        let (u, changed) = input_edited(s, TextEdit::Backspace);
        assert(action(s, key) == Action::Edit(TextEdit::Backspace));
        if changed {
            assert(refilters_to(u, t, effect));
            lemma_filtering_anew(u, t, asked_search(effect));
        }
    }
    if key.code == KeyCode::Delete {
        let (u, changed) = input_edited(s, TextEdit::Delete);
        assert(action(s, key) == Action::Edit(TextEdit::Delete));
        if changed {
            assert(refilters_to(u, t, effect));
            lemma_filtering_anew(u, t, asked_search(effect));
        }
    }
}

/// Control-U clears the input line and filters anew.
pub proof fn lemma_clearing_filters(s: AppView, key: KeyEvent, t: AppView, effect: EffectView)
    requires
        handled(s, key, t, effect),
        pressed(s, key),
        key.code == KeyCode::Char('u'),
        key.ctrl,
        s.entries.len() < usize::MAX,
    ensures
        searched_with(s, Seq::<char>::empty(), 0, t, effect),
{
    lemma_ends_of_line(s.input, s.cursor as int);
    let u = input_edited(s, TextEdit::Clear).0;
    assert(action(s, key) == Action::Edit(TextEdit::Clear));
    assert(refilters_to(u, t, effect));
    lemma_filtering_anew(u, t, asked_search(effect));
}

/// The arrows to the left and right move the cursor of the input line over one character, Home and
/// End to its ends; nothing else changes.
#[verifier::rlimit(40)]
pub proof fn lemma_cursor_keys(
    s: AppView,
    before: Seq<char>,
    x: char,
    after: Seq<char>,
    key: KeyEvent,
    t: AppView,
    effect: EffectView,
)
    requires
        handled(s, key, t, effect),
        pressed(s, key),
        key.code == KeyCode::Left || key.code == KeyCode::Right || key.code == KeyCode::Home
            || key.code == KeyCode::End,
        encode_utf8(s.input).len() <= usize::MAX,
    ensures
        effect is Nothing,
        t == (AppView { cursor: t.cursor, ..s }),
        key.code == KeyCode::Home ==> t.cursor == 0,
        key.code == KeyCode::End ==> t.cursor == encode_utf8(s.input).len(),
        key.code == KeyCode::Left && s.input == before + seq![x] + after && s.cursor == encode_utf8(
            before + seq![x],
        ).len() ==> t.cursor == encode_utf8(before).len(),
        key.code == KeyCode::Right && s.input == before + seq![x] + after && s.cursor
            == encode_utf8(before).len() ==> t.cursor == encode_utf8(before + seq![x]).len(),
        key.code == KeyCode::Left && s.cursor == 0 ==> t == s,
        key.code == KeyCode::Right && s.cursor == encode_utf8(s.input).len() ==> t == s,
{
    lemma_arrows(before, x, after);
    lemma_ends_of_line(s.input, s.cursor as int);
    let all = before + seq![x] + after;
    if s.input == all {
        crate::text::lemma_encode_concat(before + seq![x], after);
        crate::text::lemma_encode_concat(before, seq![x]);
    }
    assert(action(s, key) is Edit);
}

/// Any other key does nothing: characters with control or alt that have no meaning, and keys that
/// belong to the overlay alone.
#[verifier::rlimit(40)]
pub proof fn lemma_other_keys(s: AppView, key: KeyEvent, t: AppView, effect: EffectView)
    requires
        handled(s, key, t, effect),
        pressed(s, key),
        key.code == KeyCode::Tab || key.code == KeyCode::BackTab || key.code == KeyCode::Other || (
        key.code matches KeyCode::Char(c) && (key.ctrl || key.alt) && (key.ctrl ==> c != 'c' && c
            != 'f' && c != 'd' && c != 'u' && (c == 'h' ==> s.host is None) && (c == 's'
            ==> s.session is None)) && (key.alt ==> c != 'h' && c != 's' && c != 'd')),
    ensures
        t == s,
        effect is Nothing,
{
}

} // verus!
