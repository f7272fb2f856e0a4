//! Keys and what they do.

use super::app::{moved, selected_history, selection, topped_up, App, AppView};
use super::names::{toggle_session, toggled};
use super::overlay::{
    dirs_listed, hosts_listed, overlay_handled, OverlayFocus, OverlayRightFocus,
};
use super::results::{may_refilter, request_view, FilterRequest, RequestView};
use super::util::{osc52_copy, osc52_sequence};
use crate::text::{apply_edit, edited, lemma_boundary_ends, TextEdit};
use vstd::prelude::*;

verus! {

/// A key.
#[derive(Clone, Copy, Debug, PartialEq, Eq, Structural)]
pub enum KeyCode {
    Char(char),
    Esc,
    Enter,
    Tab,
    BackTab,
    Up,
    Down,
    Left,
    Right,
    PageUp,
    PageDown,
    Home,
    End,
    Backspace,
    Delete,
    Other,
}

/// A key that was pressed or let go, with the modifiers held down.
#[derive(Clone, Copy, Debug, PartialEq, Eq, Structural)]
pub struct KeyEvent {
    pub code: KeyCode,
    pub ctrl: bool,
    pub alt: bool,
    pub press: bool,
}

/// What is left to do outside once a key is handled.
pub enum Effect {
    /// Nothing.
    Nothing,
    /// Send this control sequence to the terminal.
    Copy(String),
    /// Start this search in place of the one that may be running.
    Search(FilterRequest),
}

/// What an effect holds.
#[verifier::ext_equal]
pub enum EffectView {
    Nothing,
    Copy(Seq<char>),
    Search(RequestView),
}

impl View for Effect {
    type V = EffectView;

    open spec fn view(&self) -> EffectView {
        match *self {
            Effect::Nothing => EffectView::Nothing,
            Effect::Copy(text) => EffectView::Copy(text@),
            Effect::Search(request) => EffectView::Search(request@),
        }
    }
}

/// The effect that starts a search, if one is asked for.
pub open spec fn search_effect(request: Option<RequestView>) -> EffectView {
    match request {
        Some(q) => EffectView::Search(q),
        None => EffectView::Nothing,
    }
}

/// The search that an effect asks for.
pub open spec fn asked_search(effect: EffectView) -> Option<RequestView> {
    match effect {
        EffectView::Search(q) => Some(q),
        _ => None,
    }
}

fn start_search(request: Option<FilterRequest>) -> (effect: Effect)
    ensures
        effect@ == search_effect(request_view(request)),
{
    match request {
        Some(q) => Effect::Search(q),
        None => Effect::Nothing,
    }
}

/// What a key does in the listing.
#[derive(Clone, Copy)]
pub enum Action {
    Ignore,
    Quit,
    Accept,
    Copy,
    OpenOverlay,
    Move(i32),
    ToggleHost,
    ToggleSession,
    ToggleDir,
    ToggleEntryHost,
    ToggleEntrySession,
    ToggleEntryDir,
    Edit(TextEdit),
}

/// How many rows a page has.
pub open spec fn page(s: AppView) -> int {
    if s.list_height > 1 {
        s.list_height as int
    } else {
        1
    }
}

/// What a character key does in the listing. With control: `c` copies, `f` opens the overlay,
/// `h`, `s` and `d` toggle the host, the session and the directory that the browser was started
/// in, `u` clears the line. With alt: `h`, `s` and `d` toggle those of the selected entry.
/// Without either the character is typed.
pub open spec fn char_action(s: AppView, c: char, ctrl: bool, alt: bool) -> Action {
    if ctrl && c == 'c' {
        Action::Copy
    } else if ctrl && c == 'f' {
        Action::OpenOverlay
    } else if ctrl && c == 'h' && s.host is Some {
        Action::ToggleHost
    } else if ctrl && c == 's' && s.session is Some {
        Action::ToggleSession
    } else if ctrl && c == 'd' {
        Action::ToggleDir
    } else if alt && c == 'h' {
        Action::ToggleEntryHost
    } else if alt && c == 's' {
        Action::ToggleEntrySession
    } else if alt && c == 'd' {
        Action::ToggleEntryDir
    } else if !ctrl && !alt {
        Action::Edit(TextEdit::Insert(c))
    } else if ctrl && c == 'u' {
        Action::Edit(TextEdit::Clear)
    } else {
        Action::Ignore
    }
}

/// What a key does in the listing.
pub open spec fn action(s: AppView, key: KeyEvent) -> Action {
    match key.code {
        KeyCode::Esc => Action::Quit,
        KeyCode::Enter => Action::Accept,
        KeyCode::Up => Action::Move((-1) as i32),
        KeyCode::Down => Action::Move(1),
        KeyCode::PageUp => Action::Move(-page(s) as i32),
        KeyCode::PageDown => Action::Move(page(s) as i32),
        KeyCode::Char(c) => char_action(s, c, key.ctrl, key.alt),
        KeyCode::Backspace => Action::Edit(TextEdit::Backspace),
        KeyCode::Delete => Action::Edit(TextEdit::Delete),
        KeyCode::Left => Action::Edit(TextEdit::Left),
        KeyCode::Right => Action::Edit(TextEdit::Right),
        KeyCode::Home => Action::Edit(TextEdit::Home),
        KeyCode::End => Action::Edit(TextEdit::End),
        _ => Action::Ignore,
    }
}

/// The state with the selected entry, if there is one, remembered for selecting it again.
pub open spec fn remembered(s: AppView) -> AppView {
    match selection(s) {
        Some(fe) => AppView { restore_entry_idx: Some(fe.idx), ..s },
        None => s,
    }
}

/// The state with a criterion toggled, as the action says; `None` if there is nothing to toggle.
pub open spec fn facet_toggled(s: AppView, action: Action) -> Option<AppView> {
    let u = remembered(s);
    match action {
        Action::ToggleHost => match s.host {
            Some(host) => Some(AppView { selected_hosts: toggled(s.selected_hosts, host), ..u }),
            None => None,
        },
        Action::ToggleSession => match s.session {
            Some(session) => Some(
                AppView { selected_sessions: toggled(s.selected_sessions, session), ..u },
            ),
            None => None,
        },
        Action::ToggleDir => match s.current_dir {
            Some(dir) => Some(AppView { selected_dirs: toggled(s.selected_dirs, dir), ..u }),
            None => Some(u),
        },
        Action::ToggleEntryHost => match selected_history(s) {
            Some(e) => Some(AppView { selected_hosts: toggled(s.selected_hosts, e.host@), ..u }),
            None => None,
        },
        Action::ToggleEntrySession => match selected_history(s) {
            Some(e) => Some(
                AppView { selected_sessions: toggled(s.selected_sessions, e.session), ..u },
            ),
            None => None,
        },
        Action::ToggleEntryDir => match selected_history(s) {
            Some(e) => Some(AppView { selected_dirs: toggled(s.selected_dirs, e.dir@), ..u }),
            None => None,
        },
        _ => None,
    }
}

/// The state at the end, when the browser is left without a choice. A widget gets back the
/// query that it was started with.
pub open spec fn quitted(s: AppView) -> AppView {
    AppView {
        output: if s.widget {
            s.initial_query
        } else {
            None
        },
        running: false,
        ..s
    }
}

/// The state at the end, when the selected entry is chosen. A widget gets its command.
pub open spec fn accepted(s: AppView) -> AppView {
    match selected_history(s) {
        Some(e) => AppView {
            output: if s.widget {
                Some(e.argv@)
            } else {
                None
            },
            running: false,
            ..s
        },
        None => s,
    }
}

/// What is copied of the selected entry: its command.
pub open spec fn copy_effect(s: AppView) -> EffectView {
    match selected_history(s) {
        Some(e) => EffectView::Copy(osc52_sequence(e.argv@)),
        None => EffectView::Nothing,
    }
}

/// The state with the overlay open and its filters empty, before its lists are made.
pub open spec fn overlay_opened(s: AppView) -> AppView {
    AppView {
        show_overlay: true,
        overlay_focus: OverlayFocus::Left,
        overlay_right_subfocus: OverlayRightFocus::List,
        overlay_host_filter: seq![],
        overlay_host_filter_cursor: 0,
        overlay_dir_filter: seq![],
        overlay_dir_filter_cursor: 0,
        ..s
    }
}

/// The state with the input line edited, and whether its text changed.
pub open spec fn input_edited(s: AppView, edit: TextEdit) -> (AppView, bool) {
    let (text, at, changed) = edited(s.input, s.cursor as int, edit);
    (AppView { input: text, cursor: at as usize, ..s }, changed)
}

/// Whether an action may lead from `s` to `t` with the given effect.
pub open spec fn acted(s: AppView, action: Action, t: AppView, effect: EffectView) -> bool {
    match action {
        Action::Ignore => t == s && effect == EffectView::Nothing,
        Action::Quit => t == quitted(s) && effect == EffectView::Nothing,
        Action::Accept => effect == EffectView::Nothing && exists|m: AppView|
            #[trigger] topped_up(s, s.selected + 1, m) && t == accepted(m),
        Action::Copy => topped_up(s, s.selected + 1, t) && effect == copy_effect(t),
        Action::OpenOverlay => effect == EffectView::Nothing && exists|m: AppView|
            #[trigger] hosts_listed(overlay_opened(s), m) && dirs_listed(m, t),
        Action::Move(delta) => t == moved(s, delta as int) && effect == EffectView::Nothing,
        Action::Edit(edit) => {
            let (u, changed) = input_edited(s, edit);
            if changed {
                refilters_to(u, t, effect)
            } else {
                t == u && effect == EffectView::Nothing
            }
        },
        _ => match facet_toggled(s, action) {
            Some(u) => refilters_to(u, t, effect),
            None => t == s && effect == EffectView::Nothing,
        },
    }
}

/// Whether filtering anew may lead from `s` to `t` with the given effect.
pub open spec fn refilters_to(s: AppView, t: AppView, effect: EffectView) -> bool {
    may_refilter(s, t, asked_search(effect)) && effect == search_effect(asked_search(effect))
}

/// Whether a key may lead from `s` to `t` with the given effect. Only presses count.
pub open spec fn handled(s: AppView, key: KeyEvent, t: AppView, effect: EffectView) -> bool {
    if !key.press {
        t == s && effect == EffectView::Nothing
    } else if s.show_overlay {
        overlay_handled(s, key, t, asked_search(effect)) && effect == search_effect(
            asked_search(effect),
        )
    } else {
        acted(s, action(s, key), t, effect)
    }
}

impl App {
    fn char_action_of(&self, c: char, ctrl: bool, alt: bool) -> (a: Action)
        ensures
            a == char_action(self@, c, ctrl, alt),
    {
        if ctrl && c == 'c' {
            Action::Copy
        } else if ctrl && c == 'f' {
            Action::OpenOverlay
        } else if ctrl && c == 'h' && self.histdb_info.host.is_some() {
            Action::ToggleHost
        } else if ctrl && c == 's' && self.histdb_info.session.is_some() {
            Action::ToggleSession
        } else if ctrl && c == 'd' {
            Action::ToggleDir
        } else if alt && c == 'h' {
            Action::ToggleEntryHost
        } else if alt && c == 's' {
            Action::ToggleEntrySession
        } else if alt && c == 'd' {
            Action::ToggleEntryDir
        } else if !ctrl && !alt {
            Action::Edit(TextEdit::Insert(c))
        } else if ctrl && c == 'u' {
            Action::Edit(TextEdit::Clear)
        } else {
            Action::Ignore
        }
    }

    fn action_of(&self, key: &KeyEvent) -> (a: Action)
        ensures
            a == action(self@, *key),
    {
        let page: i32 = if self.list_height > 1 { self.list_height as i32 } else { 1 };
        match key.code {
            KeyCode::Esc => Action::Quit,
            KeyCode::Enter => Action::Accept,
            KeyCode::Up => Action::Move(-1),
            KeyCode::Down => Action::Move(1),
            KeyCode::PageUp => Action::Move(-page),
            KeyCode::PageDown => Action::Move(page),
            KeyCode::Char(c) => self.char_action_of(c, key.ctrl, key.alt),
            KeyCode::Backspace => Action::Edit(TextEdit::Backspace),
            KeyCode::Delete => Action::Edit(TextEdit::Delete),
            KeyCode::Left => Action::Edit(TextEdit::Left),
            KeyCode::Right => Action::Edit(TextEdit::Right),
            KeyCode::Home => Action::Edit(TextEdit::Home),
            KeyCode::End => Action::Edit(TextEdit::End),
            _ => Action::Ignore,
        }
    }

    fn quit(&mut self)
        requires
            old(self).wf(),
        ensures
            final(self).wf(),
            final(self)@ == quitted(old(self)@),
    {
        self.output = if self.histdb_info.widget {
            match &self.initial_query {
                Some(q) => Some(q.clone()),
                None => None,
            }
        } else {
            None
        };
        self.running = false;
        assert(self@ =~= quitted(old(self)@));
    }

    fn accept(&mut self)
        requires
            old(self).wf(),
        ensures
            final(self).wf(),
            exists|m: AppView| #[trigger]
                topped_up(old(self)@, old(self)@.selected + 1, m) && final(self)@ == accepted(m),
    {
        self.ensure_filtered_len(self.selected + 1);
        let ghost m = self@;
        let chosen = match self.selected_entry() {
            Some(entry) => {
                Some(if self.histdb_info.widget {
                    Some(entry.argv.clone())
                } else {
                    None
                })
            },
            None => None,
        };
        if let Some(output) = chosen {
            self.output = output;
            self.running = false;
        }
        assert(self@ =~= accepted(m));
    }

    fn copy(&mut self) -> (effect: Effect)
        requires
            old(self).wf(),
        ensures
            final(self).wf(),
            topped_up(old(self)@, old(self)@.selected + 1, final(self)@),
            effect@ == copy_effect(final(self)@),
    {
        self.ensure_filtered_len(self.selected + 1);
        match self.selected_entry() {
            Some(entry) => Effect::Copy(osc52_copy(entry.argv.as_str())),
            None => Effect::Nothing,
        }
    }

    fn open_overlay(&mut self)
        requires
            old(self).wf(),
        ensures
            final(self).wf(),
            exists|m: AppView| #[trigger]
                hosts_listed(overlay_opened(old(self)@), m) && dirs_listed(m, final(self)@),
    {
        self.show_overlay = true;
        self.overlay_focus = OverlayFocus::Left;
        self.overlay_right_subfocus = OverlayRightFocus::List;
        self.overlay_host_filter = String::new();
        self.overlay_host_filter_cursor = 0;
        self.overlay_dir_filter = String::new();
        self.overlay_dir_filter_cursor = 0;
        proof {
            lemma_boundary_ends(Seq::<char>::empty());
            assert(self@ =~= overlay_opened(old(self)@));
        }
        self.update_host_filter();
        self.update_dir_filter();
    }

    fn remember_selection(&mut self)
        requires
            old(self).wf(),
        ensures
            final(self).wf(),
            final(self)@ == remembered(old(self)@),
    {
        let idx = match self.selected_filtered() {
            Some(fe) => Some(fe.idx),
            None => None,
        };
        if let Some(idx) = idx {
            self.restore_entry_idx = Some(idx);
        }
    }

    fn toggle_host(&mut self, host: String)
        requires
            old(self).wf(),
        ensures
            final(self).wf(),
            final(self)@ == (AppView {
                selected_hosts: toggled(old(self)@.selected_hosts, host@),
                ..remembered(old(self)@)
            }),
    {
        self.remember_selection();
        self.selected_hosts.toggle(host);
    }

    fn toggle_dir(&mut self, dir: String)
        requires
            old(self).wf(),
        ensures
            final(self).wf(),
            final(self)@ == (AppView {
                selected_dirs: toggled(old(self)@.selected_dirs, dir@),
                ..remembered(old(self)@)
            }),
    {
        self.remember_selection();
        self.selected_dirs.toggle(dir);
    }

    fn toggle_session_number(&mut self, session: i64)
        requires
            old(self).wf(),
        ensures
            final(self).wf(),
            final(self)@ == (AppView {
                selected_sessions: toggled(old(self)@.selected_sessions, session),
                ..remembered(old(self)@)
            }),
    {
        self.remember_selection();
        toggle_session(&mut self.selected_sessions, session);
    }

    /// Toggles what the browser was started in; says whether there is anything to toggle.
    fn toggle_own(&mut self, action: Action) -> (changed: bool)
        requires
            old(self).wf(),
            action is ToggleHost || action is ToggleSession || action is ToggleDir,
        ensures
            final(self).wf(),
            match facet_toggled(old(self)@, action) {
                Some(u) => changed && final(self)@ == u,
                None => !changed && final(self)@ == old(self)@,
            },
    {
        match action {
            Action::ToggleHost => match &self.histdb_info.host {
                Some(host) => {
                    let host = host.clone();
                    self.toggle_host(host);
                    true
                },
                None => false,
            },
            Action::ToggleSession => match self.histdb_info.session {
                Some(session) => {
                    self.toggle_session_number(session);
                    true
                },
                None => false,
            },
            _ => {
                match &self.current_dir {
                    Some(dir) => {
                        let dir = dir.clone();
                        self.toggle_dir(dir);
                    },
                    None => {
                        self.remember_selection();
                    },
                }
                true
            },
        }
    }

    /// Toggles what the selected entry has; says whether there is one.
    fn toggle_of_entry(&mut self, action: Action) -> (changed: bool)
        requires
            old(self).wf(),
            action is ToggleEntryHost || action is ToggleEntrySession || action is ToggleEntryDir,
        ensures
            final(self).wf(),
            match facet_toggled(old(self)@, action) {
                Some(u) => changed && final(self)@ == u,
                None => !changed && final(self)@ == old(self)@,
            },
    {
        let (host, session, dir) = match self.selected_entry() {
            Some(e) => (e.host.clone(), e.session, e.dir.clone()),
            None => {
                return false;
            },
        };
        match action {
            Action::ToggleEntryHost => {
                self.toggle_host(host);
            },
            Action::ToggleEntrySession => {
                self.toggle_session_number(session);
            },
            _ => {
                self.toggle_dir(dir);
            },
        }
        true
    }

    fn edit_input(&mut self, edit: TextEdit) -> (changed: bool)
        requires
            old(self).wf(),
        ensures
            final(self).wf(),
            (final(self)@, changed) == input_edited(old(self)@, edit),
    {
        let changed = apply_edit(&mut self.input, &mut self.cursor, edit);
        assert(self@ =~= input_edited(old(self)@, edit).0);
        changed
    }

    fn refilter(&mut self) -> (effect: Effect)
        requires
            old(self).wf(),
        ensures
            final(self).wf(),
            refilters_to(old(self)@, final(self)@, effect@),
    {
        start_search(self.filter_entries())
    }

    /// Does what an action says.
    fn act(&mut self, action: Action) -> (effect: Effect)
        requires
            old(self).wf(),
        ensures
            final(self).wf(),
            acted(old(self)@, action, final(self)@, effect@),
    {
        match action {
            Action::Ignore => Effect::Nothing,
            Action::Quit => {
                self.quit();
                Effect::Nothing
            },
            Action::Accept => {
                self.accept();
                Effect::Nothing
            },
            Action::Copy => self.copy(),
            Action::OpenOverlay => {
                self.open_overlay();
                Effect::Nothing
            },
            Action::Move(delta) => {
                self.move_selection(delta);
                Effect::Nothing
            },
            Action::Edit(edit) => {
                if self.edit_input(edit) {
                    self.refilter()
                } else {
                    Effect::Nothing
                }
            },
            Action::ToggleHost | Action::ToggleSession | Action::ToggleDir => {
                if self.toggle_own(action) {
                    self.refilter()
                } else {
                    Effect::Nothing
                }
            },
            Action::ToggleEntryHost | Action::ToggleEntrySession | Action::ToggleEntryDir => {
                if self.toggle_of_entry(action) {
                    self.refilter()
                } else {
                    Effect::Nothing
                }
            },
        }
    }

    /// Handles a key and says what is left to do outside.
    pub fn handle_event(&mut self, key: KeyEvent) -> (effect: Effect)
        requires
            old(self).wf(),
        ensures
            final(self).wf(),
            handled(old(self)@, key, final(self)@, effect@),
    {
        if !key.press {
            return Effect::Nothing;
        }
        if self.show_overlay {
            return start_search(self.handle_overlay_event(key));
        }
        let action = self.action_of(&key);
        self.act(action)
    }
}

} // verus!
