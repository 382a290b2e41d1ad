use disk_analyzer::models::{FileNode, NodeType};
use disk_analyzer::tui::app::{AppScreen, DirectoryCheck, DiskRow, SavedScanLookup, SortMode, TuiApp};
use disk_analyzer::tui::keys::{handle_key, Key, KeyAction};

fn file(path: &str, name: &str, size: u64) -> FileNode {
    FileNode {
        id: None,
        parent_id: None,
        path: String::from(path),
        name: String::from(name),
        extension: None,
        size,
        node_type: NodeType::File,
        children: Vec::new(),
        category: None,
    }
}

fn tree() -> FileNode {
    FileNode {
        id: None,
        parent_id: None,
        path: String::from("/t"),
        name: String::from("t"),
        extension: None,
        size: 0,
        node_type: NodeType::Directory,
        children: vec![file("/t/b", "b", 1), file("/t/a", "a", 2)],
        category: None,
    }
}

fn new_app() -> TuiApp {
    TuiApp::new(
        vec![DiskRow { index: 0, name: String::from("sda"), mount_point: String::from("/"), total_space: 1, free_space: 1 }],
        String::from("/home"),
    )
}

fn nothing(action: KeyAction) -> bool {
    matches!(action, KeyAction::Nothing)
}

#[test]
fn main_menu_keys() {
    let mut app = new_app();

    assert!(nothing(handle_key(&mut app, Key::Char('j'))));
    assert_eq!(app.menu_index(), 1);
    assert!(nothing(handle_key(&mut app, Key::Enter)));
    assert_eq!(app.screen(), AppScreen::DiskSelection);
    handle_key(&mut app, Key::Esc);
    assert_eq!(app.screen(), AppScreen::MainMenu);
    handle_key(&mut app, Key::Down);
    handle_key(&mut app, Key::Enter);
    assert!(app.scan_system_dirs());
    handle_key(&mut app, Key::Up);
    handle_key(&mut app, Key::Char('k'));
    handle_key(&mut app, Key::Enter);
    assert_eq!(app.screen(), AppScreen::DirectoryScanMenu);
}

#[test]
fn escape_in_the_main_menu_quits() {
    let mut app = new_app();
    handle_key(&mut app, Key::Esc);
    assert!(app.should_quit());
}

#[test]
fn directory_menu_keys() {
    let mut app = new_app();
    handle_key(&mut app, Key::Enter);

    assert!(matches!(handle_key(&mut app, Key::Enter), KeyAction::ScanCurrentDirectory));
    handle_key(&mut app, Key::Down);
    handle_key(&mut app, Key::Enter);
    assert_eq!(app.screen(), AppScreen::PathInput);

    handle_key(&mut app, Key::Char('/'));
    handle_key(&mut app, Key::Char('q'));
    handle_key(&mut app, Key::Char('x'));
    handle_key(&mut app, Key::Backspace);
    assert_eq!(app.input_path(), "/q");
    assert!(!app.should_quit());
    match handle_key(&mut app, Key::Enter) {
        KeyAction::ScanDirectory(path) => assert_eq!(path, "/q"),
        _ => panic!("expected a directory scan"),
    }
    handle_key(&mut app, Key::Esc);
    assert_eq!(app.screen(), AppScreen::DirectoryScanMenu);
    assert_eq!(app.input_path(), "");
}

#[test]
fn disk_selection_enter_asks_for_a_disk_scan() {
    let mut app = new_app();
    handle_key(&mut app, Key::Down);
    handle_key(&mut app, Key::Enter);

    match handle_key(&mut app, Key::Enter) {
        KeyAction::ScanDisk(mount_point) => assert_eq!(mount_point, "/"),
        _ => panic!("expected a disk scan"),
    }
    handle_key(&mut app, Key::Char('q'));
    assert!(app.should_quit());
}

#[test]
fn saved_choice_keys() {
    let mut app = new_app();
    app.request_directory_scan(
        DirectoryCheck::Directory(String::from("/t")),
        SavedScanLookup::Found(disk_analyzer::models::ScanSession {
            id: Some(9),
            root_path: String::from("/t"),
            started_at: String::from("now"),
            finished_at: None,
            total_size: 0,
            files_count: 0,
            dirs_count: 0,
            status: String::from("completed"),
        }),
    );

    match handle_key(&mut app, Key::Enter) {
        KeyAction::LoadSavedVersion(path, id) => {
            assert_eq!(path, "/t");
            assert_eq!(id, 9);
        }
        _ => panic!("expected a saved version to load"),
    }
    handle_key(&mut app, Key::Down);
    match handle_key(&mut app, Key::Enter) {
        KeyAction::Scan(request) => {
            assert_eq!(request.path, "/t");
            assert!(!request.persist_to_database);
        }
        _ => panic!("expected a scan"),
    }
    handle_key(&mut app, Key::Down);
    handle_key(&mut app, Key::Enter);
    assert_eq!(app.screen(), AppScreen::DirectoryScanMenu);
}

#[test]
fn file_tree_keys() {
    let mut app = new_app();
    app.scan_path("/t", false, Some(tree()));

    handle_key(&mut app, Key::Enter);
    assert_eq!(app.rows().len(), 3);
    assert_eq!(app.rows()[1].name, "a");
    handle_key(&mut app, Key::Char('s'));
    assert_eq!(app.sort_mode(), SortMode::Size);
    assert_eq!(app.rows()[1].name, "a");
    handle_key(&mut app, Key::Char('n'));
    handle_key(&mut app, Key::Char('t'));
    assert_eq!(app.sort_mode(), SortMode::Type);
    handle_key(&mut app, Key::Char('h'));
    assert!(app.show_hidden());
    handle_key(&mut app, Key::Char('j'));
    handle_key(&mut app, Key::Char('d'));
    assert_eq!(app.screen(), AppScreen::DeleteConfirm);
    match handle_key(&mut app, Key::Enter) {
        KeyAction::DeleteFromDisk(path, node_type) => {
            assert_eq!(path, "/t/a");
            assert_eq!(node_type, NodeType::File);
        }
        _ => panic!("expected a deletion"),
    }
    handle_key(&mut app, Key::Esc);
    assert_eq!(app.screen(), AppScreen::FileTree);
    assert!(app.delete_target().is_none());
    handle_key(&mut app, Key::Esc);
    assert_eq!(app.screen(), AppScreen::MainMenu);
}

#[test]
fn confirming_the_deletion_of_the_root_is_refused_at_once() {
    let mut app = new_app();
    app.scan_path("/t", false, Some(tree()));
    handle_key(&mut app, Key::Char('d'));

    assert!(nothing(handle_key(&mut app, Key::Enter)));
    assert_eq!(app.status_message(), "Cannot delete root item from this view");
    assert_eq!(app.screen(), AppScreen::FileTree);
}

#[test]
fn other_keys_do_nothing() {
    let mut app = new_app();
    assert!(nothing(handle_key(&mut app, Key::Other)));
    assert!(nothing(handle_key(&mut app, Key::Char('z'))));
    assert_eq!(app.menu_index(), 0);
    assert_eq!(app.screen(), AppScreen::MainMenu);
}

#[test]
fn h_toggles_hidden_files_on_the_menus_and_the_disk_list() {
    let mut app = new_app();
    assert!(nothing(handle_key(&mut app, Key::Char('h'))));
    assert!(app.show_hidden());
    handle_key(&mut app, Key::Enter);
    assert_eq!(app.screen(), AppScreen::DirectoryScanMenu);
    handle_key(&mut app, Key::Char('h'));
    assert!(!app.show_hidden());
    handle_key(&mut app, Key::Esc);
    handle_key(&mut app, Key::Down);
    handle_key(&mut app, Key::Enter);
    assert_eq!(app.screen(), AppScreen::DiskSelection);
    handle_key(&mut app, Key::Char('h'));
    assert!(app.show_hidden());
    assert_eq!(app.status_message(), "Hidden files: enabled. Rescan to apply.");
}

#[test]
fn q_quits_from_the_directory_menu_and_the_saved_choice() {
    let mut app = new_app();
    handle_key(&mut app, Key::Enter);
    handle_key(&mut app, Key::Char('q'));
    assert!(app.should_quit());

    let mut app = new_app();
    app.request_directory_scan(DirectoryCheck::Directory(String::from("/t")), SavedScanLookup::NotFound);
    app.set_screen(AppScreen::SavedDirectoryChoice);
    assert!(nothing(handle_key(&mut app, Key::Char('h'))));
    assert!(app.show_hidden());
    handle_key(&mut app, Key::Char('q'));
    assert!(app.should_quit());
}
