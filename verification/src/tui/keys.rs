//! What a key does on each screen of the interface. The state changes that
//! need nothing from outside happen here; the outside work that a key asks
//! for (reading the file system, the database, deleting) comes back as an
//! action for the caller to perform.

use vstd::prelude::*;
use crate::models::NodeType;
use crate::text::text;
use crate::tui::app::{
    TuiApp, TuiAppView, AppScreen, SortMode, ScanRequest, SubtreeLoad, view_wf, after_next,
    after_previous, after_toggle, after_toggle_system_dirs, after_toggle_hidden,
    after_request_delete, root_sorted, rows_of,
};

verus! {

/// A key press, as far as the interface tells keys apart.
#[derive(Debug, Clone, Copy, PartialEq, Eq, Structural)]
pub enum Key {
    Char(char),
    Esc,
    Enter,
    Up,
    Down,
    Backspace,
    Other,
}

/// The outside work that a key asks for.
pub enum KeyAction {
    /// Nothing.
    Nothing,
    /// Scan the current directory, as `request_directory_scan` decides.
    ScanCurrentDirectory,
    /// Scan the directory at this path, as `request_directory_scan` decides.
    ScanDirectory(String),
    /// Scan the disk mounted here, as `request_disk_scan` decides.
    ScanDisk(String),
    /// Perform this scan and hand it to `scan_path`.
    Scan(ScanRequest),
    /// Load the saved tree of this path from this scan and hand it to
    /// `open_saved_directory_version`.
    LoadSavedVersion(String, i64),
    /// Delete this entry from disk and hand the outcome to `confirm_delete`.
    DeleteFromDisk(String, NodeType),
}

/// `v` on screen `s`.
pub open spec fn at_screen(v: TuiAppView, s: AppScreen) -> TuiAppView {
    TuiAppView { screen: s, ..v }
}

/// `v` with the application about to quit.
pub open spec fn quitting(v: TuiAppView) -> TuiAppView {
    TuiAppView { should_quit: true, ..v }
}

/// `v` with the status line set to `m`.
pub open spec fn with_status(v: TuiAppView, m: Seq<char>) -> TuiAppView {
    TuiAppView { status_message: m, ..v }
}

/// The main menu: move, choose, toggle hidden files, quit.
pub open spec fn main_menu_key(v: TuiAppView, key: Key) -> TuiAppView {
    match key {
        Key::Char('q') | Key::Esc => quitting(v),
        Key::Char('h') => after_toggle_hidden(v),
        Key::Down | Key::Char('j') => after_next(v),
        Key::Up | Key::Char('k') => after_previous(v),
        Key::Enter => if v.menu_index == 0 {
            at_screen(v, AppScreen::DirectoryScanMenu)
        } else if v.menu_index == 1 {
            at_screen(v, AppScreen::DiskSelection)
        } else if v.menu_index == 2 {
            after_toggle_system_dirs(v)
        } else if v.menu_index == 3 {
            quitting(v)
        } else {
            v
        },
        _ => v,
    }
}

/// The directory menu: scan the current directory, type a path, go back,
/// toggle hidden files, or quit.
pub open spec fn directory_menu_key(v: TuiAppView, key: Key, new: TuiAppView, action: KeyAction) -> bool {
    match key {
        Key::Char('q') => new == quitting(v) && action is Nothing,
        Key::Char('h') => new == after_toggle_hidden(v) && action is Nothing,
        Key::Esc => new == at_screen(v, AppScreen::MainMenu) && action is Nothing,
        Key::Down | Key::Char('j') => new == after_next(v) && action is Nothing,
        Key::Up | Key::Char('k') => new == after_previous(v) && action is Nothing,
        Key::Enter => if v.directory_menu_index == 0 {
            new == v && action is ScanCurrentDirectory
        } else if v.directory_menu_index == 1 {
            new == (TuiAppView { input_path: Seq::empty(), screen: AppScreen::PathInput, ..v })
                && action is Nothing
        } else if v.directory_menu_index == 2 {
            new == at_screen(v, AppScreen::MainMenu) && action is Nothing
        } else {
            new == v && action is Nothing
        },
        _ => new == v && action is Nothing,
    }
}

/// The path input: type, erase, go back, or scan the typed path.
pub open spec fn path_input_key(v: TuiAppView, key: Key, new: TuiAppView, action: KeyAction) -> bool {
    match key {
        Key::Esc => new == (TuiAppView {
            input_path: Seq::empty(),
            screen: AppScreen::DirectoryScanMenu,
            ..v
        }) && action is Nothing,
        Key::Enter => new == v && (action matches KeyAction::ScanDirectory(p) && p@ == v.input_path),
        Key::Backspace => new == (TuiAppView {
            input_path: if v.input_path.len() > 0 {
                v.input_path.drop_last()
            } else {
                v.input_path
            },
            ..v
        }) && action is Nothing,
        Key::Char(c) => new == (TuiAppView { input_path: v.input_path.push(c), ..v })
            && action is Nothing,
        _ => new == v && action is Nothing,
    }
}

/// The choice offered when a saved scan exists: open it, scan again, go
/// back, toggle hidden files, or quit.
pub open spec fn saved_choice_key(v: TuiAppView, key: Key, new: TuiAppView, action: KeyAction) -> bool {
    match key {
        Key::Char('q') => new == quitting(v) && action is Nothing,
        Key::Char('h') => new == after_toggle_hidden(v) && action is Nothing,
        Key::Esc => new == at_screen(v, AppScreen::DirectoryScanMenu) && action is Nothing,
        Key::Down | Key::Char('j') => new == after_next(v) && action is Nothing,
        Key::Up | Key::Char('k') => new == after_previous(v) && action is Nothing,
        Key::Enter => if v.saved_choice_index == 0 {
            match (v.pending_directory_path, v.pending_scan) {
                (None, _) => new == with_status(v, "No pending directory"@) && action is Nothing,
                (Some(_), None) => new == with_status(v, "No saved scan"@) && action is Nothing,
                (Some(p), Some(scan)) => match scan.id {
                    None => new == with_status(v, "Saved scan has no id"@) && action is Nothing,
                    Some(id) => new == v && (action matches KeyAction::LoadSavedVersion(q, i) && q@
                        == p && i == id),
                },
            }
        } else if v.saved_choice_index == 1 {
            match v.pending_directory_path {
                None => new == with_status(v, "No pending path"@) && action is Nothing,
                Some(p) => new == v && (action matches KeyAction::Scan(q) && q.path@ == p
                    && q.persist_to_database == v.pending_is_disk_scan),
            }
        } else if v.saved_choice_index == 2 {
            new == at_screen(v, AppScreen::DirectoryScanMenu) && action is Nothing
        } else {
            new == v && action is Nothing
        },
        _ => new == v && action is Nothing,
    }
}

/// The disk list: move, go back, quit, toggle hidden files, or scan the
/// disk under the cursor.
pub open spec fn disk_selection_key(v: TuiAppView, key: Key, new: TuiAppView, action: KeyAction) -> bool {
    match key {
        Key::Char('q') => new == quitting(v) && action is Nothing,
        Key::Char('h') => new == after_toggle_hidden(v) && action is Nothing,
        Key::Esc => new == at_screen(v, AppScreen::MainMenu) && action is Nothing,
        Key::Down | Key::Char('j') => new == after_next(v) && action is Nothing,
        Key::Up | Key::Char('k') => new == after_previous(v) && action is Nothing,
        Key::Enter => new == v && if v.disk_index < v.disk_rows.len() {
            action matches KeyAction::ScanDisk(m) && m@ == v.disk_rows[v.disk_index as int].mount_point@
        } else {
            action is Nothing
        },
        _ => new == v && action is Nothing,
    }
}

/// The sort mode that a key of the tree view chooses, if any.
pub open spec fn sort_key(key: Key) -> Option<SortMode> {
    match key {
        Key::Char('n') => Some(SortMode::Name),
        Key::Char('s') => Some(SortMode::Size),
        Key::Char('t') => Some(SortMode::Type),
        _ => None,
    }
}

/// The tree view: move, expand or collapse, delete, sort, toggle hidden
/// files, go back, quit.
pub open spec fn file_tree_key(v: TuiAppView, key: Key, new: TuiAppView) -> bool {
    match sort_key(key) {
        Some(m) => root_sorted(v.root_node, new.root_node, m) && new == (TuiAppView {
            sort_mode: m,
            root_node: new.root_node,
            rows: rows_of(new.root_node, v.expanded),
            ..v
        }),
        None => new == match key {
            Key::Char('q') => quitting(v),
            Key::Esc => at_screen(v, AppScreen::MainMenu),
            Key::Down | Key::Char('j') => after_next(v),
            Key::Up | Key::Char('k') => after_previous(v),
            Key::Enter => after_toggle(v),
            Key::Char('d') => after_request_delete(v),
            Key::Char('h') => after_toggle_hidden(v),
            _ => v,
        },
    }
}

/// The delete confirmation: cancel, or delete the entry from disk.
pub open spec fn delete_confirm_key(v: TuiAppView, key: Key, new: TuiAppView, action: KeyAction) -> bool {
    match key {
        Key::Esc => new == (TuiAppView { delete_target: None, screen: AppScreen::FileTree, ..v })
            && action is Nothing,
        Key::Enter => match v.delete_target {
            None => new == at_screen(v, AppScreen::FileTree) && action is Nothing,
            Some(t) => if t.depth == 0 {
                new == (TuiAppView {
                    status_message: "Cannot delete root item from this view"@,
                    delete_target: None,
                    screen: AppScreen::FileTree,
                    ..v
                }) && action is Nothing
            } else {
                new == v && (action matches KeyAction::DeleteFromDisk(p, k) && p@ == t.path@ && k
                    == t.node_type)
            },
        },
        _ => new == v && action is Nothing,
    }
}

/// What a key does on the screen that `v` shows.
pub open spec fn key_effect(v: TuiAppView, key: Key, new: TuiAppView, action: KeyAction) -> bool {
    match v.screen {
        AppScreen::MainMenu => new == main_menu_key(v, key) && action is Nothing,
        AppScreen::DirectoryScanMenu => directory_menu_key(v, key, new, action),
        AppScreen::PathInput => path_input_key(v, key, new, action),
        AppScreen::SavedDirectoryChoice => saved_choice_key(v, key, new, action),
        AppScreen::DiskSelection => disk_selection_key(v, key, new, action),
        AppScreen::FileTree => file_tree_key(v, key, new) && action is Nothing,
        AppScreen::DeleteConfirm => delete_confirm_key(v, key, new, action),
    }
}

/// On every screen but the path input and the delete confirmation, `q`
/// quits and `h` turns the showing of hidden files on or off.
pub proof fn lemma_q_quits_and_h_toggles_hidden(v: TuiAppView, key: Key, new: TuiAppView, action: KeyAction)
    requires
        key_effect(v, key, new, action),
        v.screen != AppScreen::PathInput,
        v.screen != AppScreen::DeleteConfirm,
    ensures
        key == Key::Char('q') ==> new.should_quit && action is Nothing,
        key == Key::Char('h') ==> new.show_hidden == !v.show_hidden && action is Nothing,
{
}

/// Nothing is deleted from disk but by `Enter` on the delete confirmation.
pub proof fn lemma_only_confirmation_deletes(v: TuiAppView, key: Key, new: TuiAppView, action: KeyAction)
    requires
        key_effect(v, key, new, action),
        action is DeleteFromDisk,
    ensures
        v.screen == AppScreen::DeleteConfirm,
        key == Key::Enter,
{
}

/// On the tree view, `n` sorts the tree by name, `s` by size (largest first)
/// and `t` by type, and the chosen order becomes the sort mode of the view;
/// the screen and the expanded directories stay as they were, and no outside
/// work is asked for.
pub proof fn lemma_tree_view_sort_keys(v: TuiAppView, key: Key, new: TuiAppView, action: KeyAction)
    requires
        key_effect(v, key, new, action),
        v.screen == AppScreen::FileTree,
    ensures
        key == Key::Char('n') ==> new.sort_mode == SortMode::Name && root_sorted(
            v.root_node,
            new.root_node,
            SortMode::Name,
        ),
        key == Key::Char('s') ==> new.sort_mode == SortMode::Size && root_sorted(
            v.root_node,
            new.root_node,
            SortMode::Size,
        ),
        key == Key::Char('t') ==> new.sort_mode == SortMode::Type && root_sorted(
            v.root_node,
            new.root_node,
            SortMode::Type,
        ),
        key == Key::Char('n') || key == Key::Char('s') || key == Key::Char('t') ==> new.screen
            == AppScreen::FileTree && new.expanded == v.expanded,
        action is Nothing,
{
}

fn handle_main_menu_key(app: &mut TuiApp, key: Key)
    requires
        view_wf(old(app)@),
        old(app)@.screen == AppScreen::MainMenu,
    ensures
        view_wf(final(app)@),
        final(app)@ == main_menu_key(old(app)@, key),
{
    match key {
        Key::Char('q') | Key::Esc => app.quit(),
        Key::Char('h') => app.toggle_hidden_mode(),
        Key::Down | Key::Char('j') => app.next(),
        Key::Up | Key::Char('k') => app.previous(),
        Key::Enter => {
            let index = app.menu_index();
            if index == 0 {
                app.set_screen(AppScreen::DirectoryScanMenu);
            } else if index == 1 {
                app.set_screen(AppScreen::DiskSelection);
            } else if index == 2 {
                app.toggle_system_dirs_mode();
            } else if index == 3 {
                app.quit();
            }
        },
        _ => {},
    }
}

fn handle_directory_scan_menu_key(app: &mut TuiApp, key: Key) -> (action: KeyAction)
    requires
        view_wf(old(app)@),
        old(app)@.screen == AppScreen::DirectoryScanMenu,
    ensures
        view_wf(final(app)@),
        directory_menu_key(old(app)@, key, final(app)@, action),
{
    match key {
        Key::Char('q') => app.quit(),
        Key::Char('h') => app.toggle_hidden_mode(),
        Key::Esc => app.set_screen(AppScreen::MainMenu),
        Key::Down | Key::Char('j') => app.next(),
        Key::Up | Key::Char('k') => app.previous(),
        Key::Enter => {
            let index = app.directory_menu_index();
            if index == 0 {
                return KeyAction::ScanCurrentDirectory;
            } else if index == 1 {
                app.clear_input();
                app.set_screen(AppScreen::PathInput);
            } else if index == 2 {
                app.set_screen(AppScreen::MainMenu);
            }
        },
        _ => {},
    }
    KeyAction::Nothing
}

fn handle_path_input_key(app: &mut TuiApp, key: Key) -> (action: KeyAction)
    requires
        view_wf(old(app)@),
        old(app)@.screen == AppScreen::PathInput,
    ensures
        view_wf(final(app)@),
        path_input_key(old(app)@, key, final(app)@, action),
{
    match key {
        Key::Esc => {
            app.clear_input();
            app.set_screen(AppScreen::DirectoryScanMenu);
        },
        Key::Enter => {
            return KeyAction::ScanDirectory(text(app.input_path()));
        },
        Key::Backspace => app.pop_input_char(),
        Key::Char(ch) => app.push_input_char(ch),
        _ => {},
    }
    KeyAction::Nothing
}

fn handle_saved_directory_choice_key(app: &mut TuiApp, key: Key) -> (action: KeyAction)
    requires
        view_wf(old(app)@),
        old(app)@.screen == AppScreen::SavedDirectoryChoice,
    ensures
        view_wf(final(app)@),
        saved_choice_key(old(app)@, key, final(app)@, action),
{
    match key {
        Key::Char('q') => app.quit(),
        Key::Char('h') => app.toggle_hidden_mode(),
        Key::Esc => app.set_screen(AppScreen::DirectoryScanMenu),
        Key::Down | Key::Char('j') => app.next(),
        Key::Up | Key::Char('k') => app.previous(),
        Key::Enter => {
            let index = app.saved_choice_index();
            if index == 0 {
                match app.saved_version_to_load() {
                    Some((path, scan_id)) => {
                        return KeyAction::LoadSavedVersion(path, scan_id);
                    },
                    None => {
                        // What is missing decides the message; nothing is loaded.
                        app.open_saved_directory_version(SubtreeLoad::LoadFailed);
                    },
                }
            } else if index == 1 {
                match app.scan_pending_path_again() {
                    Some(request) => {
                        return KeyAction::Scan(request);
                    },
                    None => {},
                }
            } else if index == 2 {
                app.set_screen(AppScreen::DirectoryScanMenu);
            }
        },
        _ => {},
    }
    KeyAction::Nothing
}

fn handle_disk_selection_key(app: &mut TuiApp, key: Key) -> (action: KeyAction)
    requires
        view_wf(old(app)@),
        old(app)@.screen == AppScreen::DiskSelection,
    ensures
        view_wf(final(app)@),
        disk_selection_key(old(app)@, key, final(app)@, action),
{
    match key {
        Key::Char('q') => app.quit(),
        Key::Char('h') => app.toggle_hidden_mode(),
        Key::Esc => app.set_screen(AppScreen::MainMenu),
        Key::Down | Key::Char('j') => app.next(),
        Key::Up | Key::Char('k') => app.previous(),
        Key::Enter => {
            match app.selected_disk_mount_point() {
                Some(mount_point) => {
                    return KeyAction::ScanDisk(mount_point);
                },
                None => {},
            }
        },
        _ => {},
    }
    KeyAction::Nothing
}

fn handle_file_tree_key(app: &mut TuiApp, key: Key)
    requires
        view_wf(old(app)@),
        old(app)@.screen == AppScreen::FileTree,
    ensures
        view_wf(final(app)@),
        file_tree_key(old(app)@, key, final(app)@),
{
    match key {
        Key::Char('q') => app.quit(),
        Key::Esc => app.set_screen(AppScreen::MainMenu),
        Key::Down | Key::Char('j') => app.next(),
        Key::Up | Key::Char('k') => app.previous(),
        Key::Enter => app.toggle_selected_directory(),
        Key::Char('d') => app.request_delete_selected(),
        Key::Char('n') => app.set_sort_mode(SortMode::Name),
        Key::Char('s') => app.set_sort_mode(SortMode::Size),
        Key::Char('t') => app.set_sort_mode(SortMode::Type),
        Key::Char('h') => app.toggle_hidden_mode(),
        _ => {},
    }
}

fn handle_delete_confirm_key(app: &mut TuiApp, key: Key) -> (action: KeyAction)
    requires
        view_wf(old(app)@),
        old(app)@.screen == AppScreen::DeleteConfirm,
    ensures
        view_wf(final(app)@),
        delete_confirm_key(old(app)@, key, final(app)@, action),
{
    match key {
        Key::Esc => app.cancel_delete(),
        Key::Enter => {
            match app.pending_deletion() {
                Some((path, node_type)) => {
                    return KeyAction::DeleteFromDisk(path, node_type);
                },
                None => {
                    // No target, or the root of the view: nothing is deleted.
                    app.confirm_delete(false);
                },
            }
        },
        _ => {},
    }
    KeyAction::Nothing
}

/// Applies a key to the interface and returns the outside work it asks for.
pub fn handle_key(app: &mut TuiApp, key: Key) -> (action: KeyAction)
    requires
        view_wf(old(app)@),
    ensures
        view_wf(final(app)@),
        key_effect(old(app)@, key, final(app)@, action),
{
    match app.screen() {
        AppScreen::MainMenu => {
            handle_main_menu_key(app, key);
            KeyAction::Nothing
        },
        AppScreen::DirectoryScanMenu => handle_directory_scan_menu_key(app, key),
        AppScreen::PathInput => handle_path_input_key(app, key),
        AppScreen::SavedDirectoryChoice => handle_saved_directory_choice_key(app, key),
        AppScreen::DiskSelection => handle_disk_selection_key(app, key),
        AppScreen::FileTree => {
            handle_file_tree_key(app, key);
            KeyAction::Nothing
        },
        AppScreen::DeleteConfirm => handle_delete_confirm_key(app, key),
    }
}

} // verus!
