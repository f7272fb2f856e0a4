//! The filter overlay.

use super::app::{App, AppView};
use super::keys::{KeyCode, KeyEvent};
use super::listing::{item_name, overlay_listing, toggle_selection, update_generic_filter};
use super::names::toggled;
use super::results::{may_refilter, request_view, FilterRequest, RequestView};
use crate::text::{apply_edit, edited, TextEdit};
use vstd::prelude::*;

pub use super::listing::OverlayFiltered;

verus! {

/// The side of the overlay that keys go to.
#[derive(Clone, Copy, Debug, PartialEq, Eq, Structural)]
pub enum OverlayFocus {
    Left,
    Right,
}

/// An end of the time range.
#[derive(Clone, Copy, Debug, PartialEq, Eq, Structural)]
pub enum TimeField {
    Start,
    End,
}

/// The part of the overlay's right side that is in use.
#[derive(Clone, Copy, Debug, PartialEq, Eq, Structural)]
pub enum OverlayRightFocus {
    Filter,
    List,
}

/// Whether `t` is `s` with the hosts listed anew and the first of them selected.
pub open spec fn hosts_listed(s: AppView, t: AppView) -> bool {
    &&& overlay_listing(
        s.overlay_host_filter,
        s.all_hosts,
        s.selected_hosts,
        t.overlay_host_filtered,
    )
    &&& t == (AppView {
        overlay_host_filtered: t.overlay_host_filtered,
        overlay_host_selected: 0,
        ..s
    })
}

/// Whether `t` is `s` with the directories listed anew and the first of them selected.
pub open spec fn dirs_listed(s: AppView, t: AppView) -> bool {
    &&& overlay_listing(s.overlay_dir_filter, s.all_dirs, s.selected_dirs, t.overlay_dir_filtered)
    &&& t == (AppView {
        overlay_dir_filtered: t.overlay_dir_filtered,
        overlay_dir_selected: 0,
        ..s
    })
}

impl App {
    /// Lists the hosts that the host filter lets through.
    pub fn update_host_filter(&mut self)
        requires
            old(self).wf(),
        ensures
            final(self).wf(),
            hosts_listed(old(self)@, final(self)@),
    {
        self.overlay_host_filtered = update_generic_filter(
            self.overlay_host_filter.as_str(),
            &self.all_hosts,
            &self.selected_hosts,
        );
        self.overlay_host_selected = 0;
    }

    /// Lists the directories that the directory filter lets through.
    pub fn update_dir_filter(&mut self)
        requires
            old(self).wf(),
        ensures
            final(self).wf(),
            dirs_listed(old(self)@, final(self)@),
    {
        self.overlay_dir_filtered = update_generic_filter(
            self.overlay_dir_filter.as_str(),
            &self.all_dirs,
            &self.selected_dirs,
        );
        self.overlay_dir_selected = 0;
    }
}

/// What a key does in the overlay.
#[derive(Clone, Copy, Debug, PartialEq, Eq, Structural)]
pub enum OverlayAction {
    Ignore,
    Close,
    SwitchSide,
    SwitchField,
    Toggle,
    Up,
    Down,
    TypeTime,
    TypeFilter,
}

/// What a key does in the overlay. Its pages are the hosts, the directories and the time range.
pub open spec fn overlay_action(s: AppView, key: KeyEvent) -> OverlayAction {
    let right = s.overlay_focus == OverlayFocus::Right;
    let time = s.overlay_active_item == 2;
    match key.code {
        KeyCode::Esc => OverlayAction::Close,
        KeyCode::Tab => OverlayAction::SwitchSide,
        KeyCode::BackTab => OverlayAction::SwitchSide,
        KeyCode::Enter => if !right {
            OverlayAction::SwitchSide
        } else if time {
            OverlayAction::SwitchField
        } else {
            OverlayAction::Toggle
        },
        KeyCode::Up => OverlayAction::Up,
        KeyCode::Down => OverlayAction::Down,
        code => if code == KeyCode::Char('f') && key.ctrl {
            OverlayAction::Close
        } else if right && time {
            OverlayAction::TypeTime
        } else if right && s.overlay_right_subfocus == OverlayRightFocus::Filter && code
            != KeyCode::Char(' ') {
            OverlayAction::TypeFilter
        } else {
            OverlayAction::Ignore
        },
    }
}

/// The state after a key that moves through the overlay.
pub open spec fn overlay_moved(s: AppView, action: OverlayAction) -> AppView {
    match action {
        OverlayAction::Close => AppView { show_overlay: false, ..s },
        OverlayAction::SwitchSide => match s.overlay_focus {
            OverlayFocus::Left => AppView {
                overlay_focus: OverlayFocus::Right,
                overlay_right_subfocus: if s.overlay_active_item == 2 {
                    s.overlay_right_subfocus
                } else {
                    OverlayRightFocus::Filter
                },
                ..s
            },
            OverlayFocus::Right => AppView { overlay_focus: OverlayFocus::Left, ..s },
        },
        OverlayAction::SwitchField => AppView {
            overlay_active_time_field: match s.overlay_active_time_field {
                TimeField::Start => TimeField::End,
                TimeField::End => TimeField::Start,
            },
            ..s
        },
        OverlayAction::Up => match s.overlay_focus {
            OverlayFocus::Left => if s.overlay_active_item > 0 {
                AppView {
                    overlay_active_item: (s.overlay_active_item - 1) as usize,
                    overlay_right_subfocus: OverlayRightFocus::Filter,
                    ..s
                }
            } else {
                s
            },
            OverlayFocus::Right => if s.overlay_active_item == 0 {
                AppView { overlay_host_selected: one_up(s.overlay_host_selected), ..s }
            } else if s.overlay_active_item == 1 {
                AppView { overlay_dir_selected: one_up(s.overlay_dir_selected), ..s }
            } else {
                AppView { overlay_active_time_field: TimeField::End, ..s }
            },
        },
        OverlayAction::Down => match s.overlay_focus {
            OverlayFocus::Left => if s.overlay_active_item < 2 {
                AppView {
                    overlay_active_item: (s.overlay_active_item + 1) as usize,
                    overlay_right_subfocus: OverlayRightFocus::Filter,
                    ..s
                }
            } else {
                s
            },
            OverlayFocus::Right => if s.overlay_active_item == 0 {
                AppView {
                    overlay_host_selected: one_down(
                        s.overlay_host_selected,
                        s.overlay_host_filtered.len(),
                    ),
                    ..s
                }
            } else if s.overlay_active_item == 1 {
                AppView {
                    overlay_dir_selected: one_down(
                        s.overlay_dir_selected,
                        s.overlay_dir_filtered.len(),
                    ),
                    ..s
                }
            } else {
                AppView { overlay_active_time_field: TimeField::Start, ..s }
            },
        },
        _ => s,
    }
}

/// The row above, if there is one.
pub open spec fn one_up(at: usize) -> usize {
    if at > 0 {
        (at - 1) as usize
    } else {
        at
    }
}

/// The row below, if there is one among `n`.
pub open spec fn one_down(at: usize, n: nat) -> usize {
    if at + 1 < n {
        (at + 1) as usize
    } else {
        at
    }
}

/// The state with the item under the cursor toggled, where there is one.
pub open spec fn item_toggled(s: AppView) -> Option<AppView> {
    if s.overlay_active_item == 0 {
        match item_name(s.overlay_host_filtered, s.overlay_host_selected as int, s.all_hosts) {
            Some(name) => Some(
                AppView { selected_hosts: toggled(s.selected_hosts, name), ..s },
            ),
            None => None,
        }
    } else if s.overlay_active_item == 1 {
        match item_name(s.overlay_dir_filtered, s.overlay_dir_selected as int, s.all_dirs) {
            Some(name) => Some(AppView { selected_dirs: toggled(s.selected_dirs, name), ..s }),
            None => None,
        }
    } else {
        None
    }
}

/// The edit that a key makes in one of the overlay's text fields.
pub open spec fn typed_edit(key: KeyEvent) -> Option<TextEdit> {
    match key.code {
        KeyCode::Char(c) => if c == 'u' && key.ctrl {
            Some(TextEdit::Clear)
        } else {
            Some(TextEdit::Insert(c))
        },
        KeyCode::Backspace => Some(TextEdit::Backspace),
        KeyCode::Delete => Some(TextEdit::Delete),
        KeyCode::Home => Some(TextEdit::Home),
        KeyCode::End => Some(TextEdit::End),
        KeyCode::Left => Some(TextEdit::Left),
        KeyCode::Right => Some(TextEdit::Right),
        _ => None,
    }
}

/// The state with the active end of the time range edited, and whether its text changed.
pub open spec fn time_edited(s: AppView, edit: TextEdit) -> (AppView, bool) {
    match s.overlay_active_time_field {
        TimeField::Start => {
            let (text, at, changed) = edited(
                s.overlay_start_time,
                s.overlay_start_cursor as int,
                edit,
            );
            (
                AppView {
                    overlay_start_time: text,
                    overlay_start_cursor: at as usize,
                    ..s
                },
                changed,
            )
        },
        TimeField::End => {
            let (text, at, changed) = edited(s.overlay_end_time, s.overlay_end_cursor as int, edit);
            (AppView { overlay_end_time: text, overlay_end_cursor: at as usize, ..s }, changed)
        },
    }
}

/// Whether typing into the time range may lead from `s` to `t` and ask for `request`.
pub open spec fn time_typed(
    s: AppView,
    key: KeyEvent,
    t: AppView,
    request: Option<RequestView>,
) -> bool {
    match typed_edit(key) {
        Some(edit) => {
            let (u, changed) = time_edited(s, edit);
            if changed {
                may_refilter(u, t, request)
            } else {
                t == u && request is None
            }
        },
        None => t == s && request is None,
    }
}

/// The state with the host filter edited, and whether its text changed.
pub open spec fn host_filter_edited(s: AppView, edit: TextEdit) -> (AppView, bool) {
    let (text, at, changed) = edited(
        s.overlay_host_filter,
        s.overlay_host_filter_cursor as int,
        edit,
    );
    (
        AppView { overlay_host_filter: text, overlay_host_filter_cursor: at as usize, ..s },
        changed,
    )
}

/// The state with the directory filter edited, and whether its text changed.
pub open spec fn dir_filter_edited(s: AppView, edit: TextEdit) -> (AppView, bool) {
    let (text, at, changed) = edited(
        s.overlay_dir_filter,
        s.overlay_dir_filter_cursor as int,
        edit,
    );
    (AppView { overlay_dir_filter: text, overlay_dir_filter_cursor: at as usize, ..s }, changed)
}

/// Whether typing into the filter of hosts or directories may lead from `s` to `t`.
pub open spec fn filter_typed(s: AppView, key: KeyEvent, t: AppView) -> bool {
    match typed_edit(key) {
        Some(edit) => if s.overlay_active_item == 0 {
            let (u, changed) = host_filter_edited(s, edit);
            if changed {
                hosts_listed(u, t)
            } else {
                t == u
            }
        } else if s.overlay_active_item == 1 {
            let (u, changed) = dir_filter_edited(s, edit);
            if changed {
                dirs_listed(u, t)
            } else {
                t == u
            }
        } else {
            t == s
        },
        None => t == s,
    }
}

/// Whether a key in the overlay may lead from `s` to `t` and ask for `request`.
pub open spec fn overlay_handled(
    s: AppView,
    key: KeyEvent,
    t: AppView,
    request: Option<RequestView>,
) -> bool {
    match overlay_action(s, key) {
        OverlayAction::Toggle => match item_toggled(s) {
            Some(u) => may_refilter(u, t, request),
            None => t == s && request is None,
        },
        OverlayAction::TypeTime => time_typed(s, key, t, request),
        OverlayAction::TypeFilter => filter_typed(s, key, t) && request is None,
        action => t == overlay_moved(s, action) && request is None,
    }
}

/// The edit that a key makes in one of the overlay's text fields.
fn edit_of(key: &KeyEvent) -> (r: Option<TextEdit>)
    ensures
        r == typed_edit(*key),
{
    match key.code {
        KeyCode::Char(c) => {
            if c == 'u' && key.ctrl {
                Some(TextEdit::Clear)
            } else {
                Some(TextEdit::Insert(c))
            }
        },
        KeyCode::Backspace => Some(TextEdit::Backspace),
        KeyCode::Delete => Some(TextEdit::Delete),
        KeyCode::Home => Some(TextEdit::Home),
        KeyCode::End => Some(TextEdit::End),
        KeyCode::Left => Some(TextEdit::Left),
        KeyCode::Right => Some(TextEdit::Right),
        _ => None,
    }
}

impl App {
    /// What a key does in the overlay.
    fn overlay_action_of(&self, key: &KeyEvent) -> (action: OverlayAction)
        ensures
            action == overlay_action(self@, *key),
    {
        let right = self.overlay_focus == OverlayFocus::Right;
        let time = self.overlay_active_item == 2;
        match key.code {
            KeyCode::Esc => OverlayAction::Close,
            KeyCode::Tab => OverlayAction::SwitchSide,
            KeyCode::BackTab => OverlayAction::SwitchSide,
            KeyCode::Enter => {
                if !right {
                    OverlayAction::SwitchSide
                } else if time {
                    OverlayAction::SwitchField
                } else {
                    OverlayAction::Toggle
                }
            },
            KeyCode::Up => OverlayAction::Up,
            KeyCode::Down => OverlayAction::Down,
            code => {
                if code == KeyCode::Char('f') && key.ctrl {
                    OverlayAction::Close
                } else if right && time {
                    OverlayAction::TypeTime
                } else if right && self.overlay_right_subfocus == OverlayRightFocus::Filter && code
                    != KeyCode::Char(' ') {
                    OverlayAction::TypeFilter
                } else {
                    OverlayAction::Ignore
                }
            },
        }
    }

    fn switch_side(&mut self)
        requires
            old(self).wf(),
        ensures
            final(self).wf(),
            final(self)@ == overlay_moved(old(self)@, OverlayAction::SwitchSide),
    {
        match self.overlay_focus {
            OverlayFocus::Left => {
                self.overlay_focus = OverlayFocus::Right;
                if self.overlay_active_item == 0 || self.overlay_active_item == 1 {
                    self.overlay_right_subfocus = OverlayRightFocus::Filter;
                }
            },
            OverlayFocus::Right => {
                self.overlay_focus = OverlayFocus::Left;
            },
        }
    }

    #[verifier::rlimit(30)]
    fn overlay_up(&mut self)
        requires
            old(self).wf(),
        ensures
            final(self).wf(),
            final(self)@ == overlay_moved(old(self)@, OverlayAction::Up),
    {
        match self.overlay_focus {
            OverlayFocus::Left => {
                if self.overlay_active_item > 0 {
                    self.overlay_active_item = self.overlay_active_item - 1;
                    self.overlay_right_subfocus = OverlayRightFocus::Filter;
                }
            },
            OverlayFocus::Right => {
                if self.overlay_active_item == 0 {
                    if self.overlay_host_selected > 0 {
                        self.overlay_host_selected = self.overlay_host_selected - 1;
                    }
                } else if self.overlay_active_item == 1 {
                    if self.overlay_dir_selected > 0 {
                        self.overlay_dir_selected = self.overlay_dir_selected - 1;
                    }
                } else {
                    self.overlay_active_time_field = TimeField::End;
                }
            },
        }
    }

    #[verifier::rlimit(30)]
    fn overlay_down(&mut self)
        requires
            old(self).wf(),
        ensures
            final(self).wf(),
            final(self)@ == overlay_moved(old(self)@, OverlayAction::Down),
    {
        match self.overlay_focus {
            OverlayFocus::Left => {
                if self.overlay_active_item < 2 {
                    self.overlay_active_item = self.overlay_active_item + 1;
                    self.overlay_right_subfocus = OverlayRightFocus::Filter;
                }
            },
            OverlayFocus::Right => {
                if self.overlay_active_item == 0 {
                    let max = self.overlay_host_filtered.len().saturating_sub(1);
                    if self.overlay_host_selected < max {
                        self.overlay_host_selected = self.overlay_host_selected + 1;
                    }
                } else if self.overlay_active_item == 1 {
                    let max = self.overlay_dir_filtered.len().saturating_sub(1);
                    if self.overlay_dir_selected < max {
                        self.overlay_dir_selected = self.overlay_dir_selected + 1;
                    }
                } else {
                    self.overlay_active_time_field = TimeField::Start;
                }
            },
        }
    }

    /// Toggles the item under the cursor; says whether there is one.
    fn toggle_item(&mut self) -> (changed: bool)
        requires
            old(self).wf(),
        ensures
            final(self).wf(),
            match item_toggled(old(self)@) {
                Some(u) => changed && final(self)@ == u,
                None => !changed && final(self)@ == old(self)@,
            },
    {
        if self.overlay_active_item == 0 {
            toggle_selection(
                &self.overlay_host_filtered,
                self.overlay_host_selected,
                &self.all_hosts,
                &mut self.selected_hosts,
            )
        } else if self.overlay_active_item == 1 {
            toggle_selection(
                &self.overlay_dir_filtered,
                self.overlay_dir_selected,
                &self.all_dirs,
                &mut self.selected_dirs,
            )
        } else {
            false
        }
    }

    /// Handles a key typed into the active end of the time range.
    pub fn handle_overlay_time_input(&mut self, key: KeyEvent) -> (request: Option<FilterRequest>)
        requires
            old(self).wf(),
        ensures
            final(self).wf(),
            time_typed(old(self)@, key, final(self)@, request_view(request)),
    {
        match edit_of(&key) {
            Some(edit) => {
                let changed = match self.overlay_active_time_field {
                    TimeField::Start => apply_edit(
                        &mut self.overlay_start_time,
                        &mut self.overlay_start_cursor,
                        edit,
                    ),
                    TimeField::End => apply_edit(
                        &mut self.overlay_end_time,
                        &mut self.overlay_end_cursor,
                        edit,
                    ),
                };
                assert(self@ =~= time_edited(old(self)@, edit).0);
                if changed {
                    self.filter_entries()
                } else {
                    None
                }
            },
            None => None,
        }
    }

    fn edit_host_filter(&mut self, edit: TextEdit) -> (changed: bool)
        requires
            old(self).wf(),
        ensures
            final(self).wf(),
            (final(self)@, changed) == host_filter_edited(old(self)@, edit),
    {
        let changed = apply_edit(
            &mut self.overlay_host_filter,
            &mut self.overlay_host_filter_cursor,
            edit,
        );
        assert(self@ =~= host_filter_edited(old(self)@, edit).0);
        changed
    }

    fn edit_dir_filter(&mut self, edit: TextEdit) -> (changed: bool)
        requires
            old(self).wf(),
        ensures
            final(self).wf(),
            (final(self)@, changed) == dir_filter_edited(old(self)@, edit),
    {
        let changed = apply_edit(
            &mut self.overlay_dir_filter,
            &mut self.overlay_dir_filter_cursor,
            edit,
        );
        assert(self@ =~= dir_filter_edited(old(self)@, edit).0);
        changed
    }

    /// Handles a key typed into the filter of hosts or directories.
    pub fn handle_overlay_filter_input(&mut self, key: KeyEvent)
        requires
            old(self).wf(),
        ensures
            final(self).wf(),
            filter_typed(old(self)@, key, final(self)@),
    {
        if let Some(edit) = edit_of(&key) {
            if self.overlay_active_item == 0 {
                if self.edit_host_filter(edit) {
                    self.update_host_filter();
                }
            } else if self.overlay_active_item == 1 {
                if self.edit_dir_filter(edit) {
                    self.update_dir_filter();
                }
            }
        }
    }

    /// Handles a key while the overlay is open.
    pub fn handle_overlay_event(&mut self, key: KeyEvent) -> (request: Option<FilterRequest>)
        requires
            old(self).wf(),
        ensures
            final(self).wf(),
            overlay_handled(old(self)@, key, final(self)@, request_view(request)),
    {
        match self.overlay_action_of(&key) {
            OverlayAction::Ignore => None,
            OverlayAction::Close => {
                self.show_overlay = false;
                None
            },
            OverlayAction::SwitchSide => {
                self.switch_side();
                None
            },
            OverlayAction::SwitchField => {
                self.overlay_active_time_field = match self.overlay_active_time_field {
                    TimeField::Start => TimeField::End,
                    TimeField::End => TimeField::Start,
                };
                None
            },
            OverlayAction::Up => {
                self.overlay_up();
                None
            },
            OverlayAction::Down => {
                self.overlay_down();
                None
            },
            OverlayAction::Toggle => {
                if self.toggle_item() {
                    self.filter_entries()
                } else {
                    None
                }
            },
            OverlayAction::TypeTime => self.handle_overlay_time_input(key),
            OverlayAction::TypeFilter => {
                self.handle_overlay_filter_input(key);
                None
            },
        }
    }
}

} // verus!
