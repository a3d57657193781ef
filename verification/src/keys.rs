//! What each key does: it goes to the dialog that is open, or moves through the
//! library and starts something.

use vstd::prelude::*;
use crate::actions::{PlaybackStep, RenameOrder};
use crate::browser::{App, Key, Playback};
use crate::editing::SaveOrder;
use crate::path::FilePath;
use crate::actions::{order_of, PlaybackStepView, RenameOrderView};
use crate::browser::{filter_index, AppView, PlaybackView};
use crate::editing::SaveOrderView;
use crate::path::PathView;

verus! {

/// What is to be done outside the browser after a key: nothing, ending the
/// program, scanning the library again, making a preview for which it must be
/// known which files exist, or carrying out what was confirmed.
pub enum Action {
    Nothing,
    Quit,
    Rescan,
    PreviewRename,
    PreviewConversion,
    Rename(RenameOrder),
    Convert(Vec<FilePath>),
    DeleteOriginals,
    Save(SaveOrder),
    StopPlayback,
    Play(Playback),
}

/// What an action says.
#[verifier::ext_equal]
pub enum ActionView {
    Nothing,
    Quit,
    Rescan,
    PreviewRename,
    PreviewConversion,
    Rename(RenameOrderView),
    Convert(Seq<PathView>),
    DeleteOriginals,
    Save(SaveOrderView),
    StopPlayback,
    Play(PlaybackView),
}

impl View for Action {
    type V = ActionView;

    open spec fn view(&self) -> ActionView {
        match self {
            Action::Nothing => ActionView::Nothing,
            Action::Quit => ActionView::Quit,
            Action::Rescan => ActionView::Rescan,
            Action::PreviewRename => ActionView::PreviewRename,
            Action::PreviewConversion => ActionView::PreviewConversion,
            Action::Rename(order) => ActionView::Rename(order@),
            Action::Convert(paths) => ActionView::Convert(paths.deep_view()),
            Action::DeleteOriginals => ActionView::DeleteOriginals,
            Action::Save(order) => ActionView::Save(order@),
            Action::StopPlayback => ActionView::StopPlayback,
            Action::Play(playback) => ActionView::Play(playback@),
        }
    }
}

/// Whether a key confirms.
pub open spec fn confirms(key: Key) -> bool {
    key == Key::Char('y') || key == Key::Char('Y')
}

impl AppView {
    /// Whether a dialog is open, or files are being converted: then keys do not
    /// go to the library.
    pub open spec fn is_busy(self) -> bool {
        ||| self.delete_confirmation is Some
        ||| self.rename_preview is Some
        ||| self.conversion_preview is Some
        ||| self.conversion_result is Some
        ||| self.filter_menu is Some
        ||| self.search_input is Some
        ||| self.editor is Some
        ||| self.path_inspector is Some
        ||| self.conversion_progress is Some
    }

    /// The browser after a key: it goes to the first of the dialogs that is
    /// open, to none while files are converted, and else to the library.
    pub open spec fn after_key(self, key: Key, control: bool) -> AppView {
        if self.delete_confirmation is Some {
            self.delete_key(key)
        } else if self.rename_preview is Some {
            self.rename_key(key)
        } else if self.conversion_preview is Some {
            self.conversion_preview_key(key)
        } else if self.conversion_result is Some {
            self.conversion_result_key(key)
        } else if self.filter_menu is Some {
            self.filter_key(key)
        } else if self.search_input is Some {
            self.search_key(key)
        } else if self.editor is Some {
            self.editor_key(key)
        } else if self.path_inspector is Some {
            self.path_inspector_key(key)
        } else if self.conversion_progress is Some {
            self
        } else {
            self.after_library_key(key, control)
        }
    }

    /// The browser after a key that went to the library.
    pub open spec fn after_library_key(self, key: Key, control: bool) -> AppView {
        if key == Key::Char('k') && control {
            AppView { search_input: Some(Seq::empty()), ..self }
        } else {
            match key {
                Key::Char('q') => AppView { playback: None, ..self },
                Key::Esc => if self.search is Some {
                    self.search_cleared()
                } else {
                    AppView { playback: None, ..self }
                },
                Key::Char('i') => self.paths_inspected(),
                Key::Char('v') => self.view_toggled(),
                Key::Char('f') => AppView {
                    filter_menu: Some(filter_index(self.active_filter)),
                    ..self
                },
                Key::Char('c') => self.with_selected_queued(),
                Key::Char('d') => self.delete_requested(),
                Key::Char('e') => self.editor_opened(),
                Key::Down | Key::Char('j') => self.moved_next(),
                Key::Up | Key::Char('k') => self.moved_previous(),
                Key::Enter => self.with_selected_toggled(),
                Key::Char(' ') => self.playback_toggled(),
                Key::Right | Key::Char('l') => self.with_selected_expanded(),
                Key::Left | Key::Char('h') => self.with_selected_collapsed(),
                _ => self,
            }
        }
    }

    /// What is to be done outside the browser after a key.
    pub open spec fn key_action(self, key: Key, control: bool) -> ActionView {
        if self.delete_confirmation is Some {
            if confirms(key) {
                ActionView::DeleteOriginals
            } else {
                ActionView::Nothing
            }
        } else if self.rename_preview is Some {
            if confirms(key) {
                ActionView::Rename(order_of(self.rename_preview.unwrap()))
            } else {
                ActionView::Nothing
            }
        } else if self.conversion_preview is Some {
            if confirms(key) && self.ready_sources().len() > 0 {
                ActionView::Convert(self.ready_sources())
            } else {
                ActionView::Nothing
            }
        } else if self.conversion_result is Some || self.filter_menu is Some
            || self.search_input is Some {
            ActionView::Nothing
        } else if self.editor is Some {
            match self.saving() {
                Some(order) => if key == Key::Enter {
                    ActionView::Save(order)
                } else {
                    ActionView::Nothing
                },
                None => ActionView::Nothing,
            }
        } else if self.path_inspector is Some || self.conversion_progress is Some {
            ActionView::Nothing
        } else {
            self.library_key_action(key, control)
        }
    }

    /// What is to be done after a key that went to the library.
    pub open spec fn library_key_action(self, key: Key, control: bool) -> ActionView {
        match key {
            Key::Char('q') => ActionView::Quit,
            Key::Esc => if self.search is Some {
                ActionView::Nothing
            } else {
                ActionView::Quit
            },
            Key::Char('r') => ActionView::Rescan,
            Key::Char('R') => ActionView::PreviewRename,
            Key::Char('C') => ActionView::PreviewConversion,
            Key::Char(' ') => match self.playback_step() {
                PlaybackStepView::Nothing => ActionView::Nothing,
                PlaybackStepView::Stop => ActionView::StopPlayback,
                PlaybackStepView::Play(playback) => ActionView::Play(playback),
            },
            _ => ActionView::Nothing,
        }
    }
}

/// Whatever key is pressed while a dialog is open or files are converted, the
/// program does not end, and no file is touched but by what was confirmed there.
pub proof fn law_dialogs_hold_keys(app: AppView, key: Key, control: bool)
    requires
        app.is_busy(),
    ensures
        !(app.key_action(key, control) is Quit),
        app.key_action(key, control) is DeleteOriginals ==> app.delete_confirmation is Some
            && confirms(key),
        app.key_action(key, control) is Rename ==> app.rename_preview is Some && confirms(key),
        app.key_action(key, control) is Convert ==> app.conversion_preview is Some && confirms(key),
        app.key_action(key, control) is Save ==> app.editor is Some && key == Key::Enter,
{
}

/// No key that goes to the library renames, converts, deletes or writes: each of
/// these is confirmed in a dialog first.
pub proof fn law_library_keys_touch_no_file(app: AppView, key: Key, control: bool)
    requires
        !app.is_busy(),
    ensures
        !(app.key_action(key, control) is Rename),
        !(app.key_action(key, control) is Convert),
        !(app.key_action(key, control) is DeleteOriginals),
        !(app.key_action(key, control) is Save),
{
}

impl App {
    /// Handles a key that is pressed, with or without Control. Returns what is
    /// to be done outside the browser.
    pub fn handle_key(&mut self, key: Key, control: bool) -> (action: Action)
        requires
            old(self)@.wf(),
        ensures
            final(self)@ == old(self)@.after_key(key, control),
            action@ == old(self)@.key_action(key, control),
            final(self)@.wf(),
    {
        if self.delete_confirmation.is_some() {
            return if self.handle_delete_confirmation(key) {
                Action::DeleteOriginals
            } else {
                Action::Nothing
            };
        }
        if self.rename_preview.is_some() {
            return match self.handle_rename_confirmation(key) {
                Some(order) => Action::Rename(order),
                None => Action::Nothing,
            };
        }
        if self.conversion_preview.is_some() {
            let queued = self.handle_conversion_preview(key);
            assert(queued.deep_view().len() == queued.len());
            return if queued.len() > 0 {
                Action::Convert(queued)
            } else {
                Action::Nothing
            };
        }
        if self.conversion_result.is_some() {
            self.handle_conversion_result(key);
            return Action::Nothing;
        }
        if self.filter_menu.is_some() {
            self.handle_filter_menu_key(key);
            return Action::Nothing;
        }
        if self.search_input.is_some() {
            self.handle_search_key(key);
            return Action::Nothing;
        }
        if self.editor.is_some() {
            return match self.handle_editor_key(key) {
                Some(order) => Action::Save(order),
                None => Action::Nothing,
            };
        }
        if self.path_inspector.is_some() {
            self.handle_path_inspector(key);
            return Action::Nothing;
        }
        if self.conversion_progress.is_some() {
            return Action::Nothing;
        }
        self.handle_library_key(key, control)
    }

    fn handle_library_key(&mut self, key: Key, control: bool) -> (action: Action)
        requires
            old(self)@.wf(),
            old(self)@.editor is None,
        ensures
            final(self)@ == old(self)@.after_library_key(key, control),
            action@ == old(self)@.library_key_action(key, control),
            final(self)@.wf(),
    {
        match key {
            Key::Char('k') => {
                if control {
                    self.open_search();
                } else {
                    self.previous();
                }
            },
            Key::Char('q') => {
                self.stop_playback();
                return Action::Quit;
            },
            Key::Esc => {
                if !self.clear_search() {
                    self.stop_playback();
                    return Action::Quit;
                }
            },
            Key::Char('r') => {
                return Action::Rescan;
            },
            Key::Char('R') => {
                return Action::PreviewRename;
            },
            Key::Char('i') => self.open_path_inspector(),
            Key::Char('v') => self.toggle_view(),
            Key::Char('f') => self.open_filter_menu(),
            Key::Char('c') => self.enqueue_selected(),
            Key::Char('C') => {
                return Action::PreviewConversion;
            },
            Key::Char('d') => self.request_delete_originals(),
            Key::Char('e') => self.open_editor(),
            Key::Down | Key::Char('j') => self.next(),
            Key::Up => self.previous(),
            Key::Enter => self.toggle_selected_album(),
            Key::Char(' ') => {
                return match self.toggle_playback_selected() {
                    PlaybackStep::Nothing => Action::Nothing,
                    PlaybackStep::Stop => Action::StopPlayback,
                    PlaybackStep::Play(playback) => Action::Play(playback),
                };
            },
            Key::Right | Key::Char('l') => self.expand_selected_album(),
            Key::Left | Key::Char('h') => self.collapse_selected_album(),
            _ => {},
        }
        Action::Nothing
    }
}

} // verus!
