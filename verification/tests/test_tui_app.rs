use disk_analyzer::models::{FileCategory, FileNode, NodeType, ScanSession};
use disk_analyzer::stat_services::system_info_service::DiskInfo;
use disk_analyzer::tui::app::{
    AppScreen, DatabaseUpdate, DirectoryCheck, DiskRow, SavedScanLookup, SortMode, SubtreeLoad, TuiApp,
};

fn file(path: &str, name: &str, size: u64) -> FileNode {
    FileNode {
        id: None,
        parent_id: None,
        path: String::from(path),
        name: String::from(name),
        extension: name.rsplit_once('.').map(|(_, e)| String::from(e)),
        size,
        node_type: NodeType::File,
        children: Vec::new(),
        category: None,
    }
}

fn dir(path: &str, name: &str, children: Vec<FileNode>) -> FileNode {
    FileNode {
        id: None,
        parent_id: None,
        path: String::from(path),
        name: String::from(name),
        extension: None,
        size: 0,
        node_type: NodeType::Directory,
        children,
        category: None,
    }
}

fn sample_tree() -> FileNode {
    dir(
        "/t",
        "t",
        vec![
            file("/t/b.rs", "b.rs", 10),
            dir("/t/a", "a", vec![file("/t/a/x.mp4", "x.mp4", 100), file("/t/a/y.txt", "y.txt", 5)]),
        ],
    )
}

fn disks() -> Vec<DiskRow> {
    vec![
        DiskRow { index: 0, name: String::from("sda"), mount_point: String::from("/"), total_space: 10, free_space: 4 },
        DiskRow { index: 1, name: String::from("sdb"), mount_point: String::from("/mnt"), total_space: 20, free_space: 20 },
    ]
}

fn scan(id: Option<i64>) -> ScanSession {
    ScanSession {
        id,
        root_path: String::from("/t"),
        started_at: String::from("2026-05-04 12:00:00"),
        finished_at: None,
        total_size: 115,
        files_count: 3,
        dirs_count: 2,
        status: String::from("completed"),
    }
}

fn row_names(app: &TuiApp) -> Vec<String> {
    app.rows().iter().map(|r| r.name.clone()).collect()
}

fn app_with_tree() -> TuiApp {
    let mut app = TuiApp::new(disks(), String::from("/home"));
    let plan = app.scan_path("/t", false, Some(sample_tree()));
    assert!(plan.is_none());
    app
}

#[test]
fn new_app_starts_in_the_main_menu() {
    let app = TuiApp::new(disks(), String::from("/home"));

    assert_eq!(app.screen(), AppScreen::MainMenu);
    assert_eq!(app.menu_items()[2], "Toggle system directories: off");
    assert_eq!(app.directory_menu_items()[0], "Scan current directory: /home");
    assert_eq!(app.saved_choice_items()[0], "Open saved version");
    assert_eq!(app.status_message(), "Ready");
    assert_eq!(app.sort_mode(), SortMode::Name);
    assert!(!app.show_hidden() && !app.scan_system_dirs() && !app.should_quit());
    assert!(app.rows().is_empty());
    assert!(app.selected_row().is_none());
}

#[test]
fn next_and_previous_stop_at_the_ends() {
    let mut app = TuiApp::new(disks(), String::from("/home"));

    app.previous();
    assert_eq!(app.menu_index(), 0);
    for _ in 0..10 {
        app.next();
    }
    assert_eq!(app.menu_index(), 3);
    app.previous();
    assert_eq!(app.menu_index(), 2);

    app.set_screen(AppScreen::DiskSelection);
    app.next();
    app.next();
    assert_eq!(app.disk_index(), 1);
    assert_eq!(app.selected_disk_mount_point().as_deref(), Some("/mnt"));
    app.previous();
    assert_eq!(app.selected_disk_mount_point().as_deref(), Some("/"));
}

#[test]
fn toggling_system_dirs_twice_restores_the_menu() {
    let mut app = TuiApp::new(disks(), String::from("/home"));

    app.toggle_system_dirs_mode();
    assert!(app.scan_system_dirs());
    assert_eq!(app.menu_items()[2], "Toggle system directories: on");
    assert_eq!(app.status_message(), "System directories scanning: enabled");

    app.toggle_system_dirs_mode();
    assert!(!app.scan_system_dirs());
    assert_eq!(app.menu_items()[2], "Toggle system directories: off");
    assert_eq!(app.status_message(), "System directories scanning: disabled");
}

#[test]
fn toggling_hidden_files_says_a_rescan_is_needed() {
    let mut app = TuiApp::new(disks(), String::from("/home"));

    app.toggle_hidden_mode();
    assert!(app.show_hidden());
    assert_eq!(app.status_message(), "Hidden files: enabled. Rescan to apply.");
    app.toggle_hidden_mode();
    assert!(!app.show_hidden());
    assert_eq!(app.status_message(), "Hidden files: disabled. Rescan to apply.");
}

#[test]
fn path_input_edits_the_typed_path() {
    let mut app = TuiApp::new(disks(), String::from("/home"));

    app.push_input_char('/');
    app.push_input_char('x');
    assert_eq!(app.input_path(), "/x");
    app.pop_input_char();
    assert_eq!(app.input_path(), "/");
    app.clear_input();
    assert_eq!(app.input_path(), "");
    app.pop_input_char();
    assert_eq!(app.input_path(), "");
}

#[test]
fn scan_path_shows_the_calculated_and_sorted_tree() {
    let app = app_with_tree();

    assert_eq!(app.screen(), AppScreen::FileTree);
    assert_eq!(app.status_message(), "Scan completed");
    assert_eq!(row_names(&app), vec!["t"]);
    let root = app.root_node().unwrap();
    assert_eq!(root.size, 115);
    let names: Vec<&str> = root.children.iter().map(|c| c.name.as_str()).collect();
    assert_eq!(names, vec!["a", "b.rs"]);
    assert_eq!(root.children[0].size, 105);
}

#[test]
fn scan_path_with_saving_returns_what_to_save() {
    let mut app = TuiApp::new(disks(), String::from("/home"));

    let plan = app.scan_path("/t", true, Some(sample_tree())).unwrap();

    assert_eq!(plan.root_path, "/t");
    assert_eq!(plan.total_size, 115);
    assert_eq!(plan.files_count, 3);
    assert_eq!(plan.dirs_count, 2);
    let categories: Vec<FileCategory> = plan.statistics.iter().map(|s| s.category).collect();
    assert_eq!(categories, vec![FileCategory::Video, FileCategory::Code, FileCategory::Documents]);
}

#[test]
fn failed_scan_only_says_so() {
    let mut app = TuiApp::new(disks(), String::from("/home"));

    let plan = app.scan_path("/t", true, None);

    assert!(plan.is_none());
    assert_eq!(app.status_message(), "Scan failed");
    assert_eq!(app.screen(), AppScreen::MainMenu);
    assert!(app.root_node().is_none());
}

#[test]
fn expanding_and_collapsing_a_directory() {
    let mut app = app_with_tree();

    app.toggle_selected_directory();
    assert_eq!(row_names(&app), vec!["t", "a", "b.rs"]);
    app.next();
    app.toggle_selected_directory();
    assert_eq!(row_names(&app), vec!["t", "a", "x.mp4", "y.txt", "b.rs"]);
    assert!(app.rows()[1].is_expanded);
    assert_eq!(app.rows()[2].depth, 2);

    app.next();
    app.toggle_selected_directory();
    assert_eq!(row_names(&app), vec!["t", "a", "x.mp4", "y.txt", "b.rs"]);

    app.previous();
    app.toggle_selected_directory();
    assert_eq!(row_names(&app), vec!["t", "a", "b.rs"]);
}

#[test]
fn collapsing_the_root_hides_everything_below_it() {
    let mut app = app_with_tree();
    app.toggle_selected_directory();
    app.next();
    app.next();
    assert_eq!(app.selected_index(), 2);

    app.previous();
    app.previous();
    app.toggle_selected_directory();
    assert_eq!(row_names(&app), vec!["t"]);
    assert_eq!(app.selected_index(), 0);
}

#[test]
fn sorting_by_size_reorders_the_rows() {
    let mut app = app_with_tree();
    app.toggle_selected_directory();
    app.next();
    app.toggle_selected_directory();

    app.set_sort_mode(SortMode::Size);
    assert_eq!(app.sort_mode(), SortMode::Size);
    assert_eq!(row_names(&app), vec!["t", "a", "x.mp4", "y.txt", "b.rs"]);

    app.set_sort_mode(SortMode::Type);
    assert_eq!(row_names(&app), vec!["t", "a", "x.mp4", "y.txt", "b.rs"]);
    assert_eq!(app.selected_index(), 1);
}

#[test]
fn deleting_an_entry_of_a_saved_full_scan() {
    let mut app = TuiApp::new(disks(), String::from("/home"));
    app.scan_path("/t", true, Some(sample_tree()));
    app.mark_scan_saved(7);
    app.toggle_selected_directory();
    app.next();
    app.toggle_selected_directory();
    app.next();

    app.request_delete_selected();
    assert_eq!(app.screen(), AppScreen::DeleteConfirm);
    assert_eq!(app.delete_target().unwrap().path, "/t/a/x.mp4");
    let (path, node_type) = app.pending_deletion().unwrap();
    assert_eq!(path, "/t/a/x.mp4");
    assert_eq!(node_type, NodeType::File);

    let update = app.confirm_delete(true);

    assert_eq!(app.screen(), AppScreen::FileTree);
    assert_eq!(app.status_message(), "Deleted: /t/a/x.mp4");
    assert!(app.delete_target().is_none());
    assert_eq!(row_names(&app), vec!["t", "a", "y.txt", "b.rs"]);
    assert_eq!(app.root_node().unwrap().size, 15);
    match update {
        Some(DatabaseUpdate::ReplaceScanData { scan_id, statistics, files_count, dirs_count }) => {
            assert_eq!(scan_id, 7);
            assert_eq!(files_count, 2);
            assert_eq!(dirs_count, 2);
            assert_eq!(statistics.len(), 2);
        }
        _ => panic!("expected the saved scan to be replaced"),
    }
}

#[test]
fn deleting_from_a_saved_part_of_a_scan_deletes_the_path() {
    let mut app = TuiApp::new(disks(), String::from("/home"));
    let request = app.request_directory_scan(DirectoryCheck::Directory(String::from("/t")), SavedScanLookup::Found(scan(Some(3))));
    assert!(request.is_none());
    app.open_saved_directory_version(SubtreeLoad::Loaded(sample_tree()));
    app.toggle_selected_directory();
    app.next();

    app.request_delete_selected();
    let update = app.confirm_delete(true);

    match update {
        Some(DatabaseUpdate::DeletePath { scan_id, path }) => {
            assert_eq!(scan_id, 3);
            assert_eq!(path, "/t/a");
        }
        _ => panic!("expected the path to be deleted from the saved scan"),
    }
    assert_eq!(row_names(&app), vec!["t", "b.rs"]);
    assert_eq!(app.selected_index(), 1);
}

#[test]
fn deleting_the_root_is_refused() {
    let mut app = app_with_tree();
    app.request_delete_selected();
    assert!(app.pending_deletion().is_none());

    let update = app.confirm_delete(true);

    assert!(update.is_none());
    assert_eq!(app.status_message(), "Cannot delete root item from this view");
    assert_eq!(app.screen(), AppScreen::FileTree);
    assert_eq!(app.root_node().unwrap().children.len(), 2);
}

#[test]
fn a_failed_deletion_leaves_the_tree() {
    let mut app = app_with_tree();
    app.toggle_selected_directory();
    app.next();
    app.request_delete_selected();

    let update = app.confirm_delete(false);

    assert!(update.is_none());
    assert_eq!(app.status_message(), "Delete from disk failed");
    assert_eq!(row_names(&app), vec!["t", "a", "b.rs"]);
}

#[test]
fn cancelling_a_deletion() {
    let mut app = app_with_tree();
    app.request_delete_selected();
    app.cancel_delete();

    assert!(app.delete_target().is_none());
    assert_eq!(app.screen(), AppScreen::FileTree);
}

#[test]
fn disk_scan_requests() {
    let mut app = TuiApp::new(disks(), String::from("/home"));

    assert!(app.request_disk_scan(None, SavedScanLookup::NotFound).is_none());
    assert_eq!(app.status_message(), "Disk path does not exist");

    let request = app.request_disk_scan(Some(String::from("/")), SavedScanLookup::DatabaseUnavailable).unwrap();
    assert_eq!(request.path, "/");
    assert!(request.persist_to_database);
    assert_eq!(app.status_message(), "Cannot open database. Scanning disk without saved check.");

    let request = app.request_disk_scan(Some(String::from("/")), SavedScanLookup::LookupFailed).unwrap();
    assert!(request.persist_to_database);
    assert_eq!(app.status_message(), "Database search failed. Scanning disk again.");

    assert!(app.request_disk_scan(Some(String::from("/")), SavedScanLookup::Found(scan(Some(1)))).is_none());
    assert_eq!(app.screen(), AppScreen::SavedDirectoryChoice);
    assert!(app.pending_is_disk_scan());
    assert_eq!(app.pending_directory_path(), Some("/"));
    assert_eq!(app.saved_choice_items()[0], "Open saved disk scan");
    assert_eq!(app.saved_choice_items()[1], "Scan again and save");

    let again = app.scan_pending_path_again().unwrap();
    assert_eq!(again.path, "/");
    assert!(again.persist_to_database);
}

#[test]
fn directory_scan_requests() {
    let mut app = TuiApp::new(disks(), String::from("/home"));

    assert!(app.request_directory_scan(DirectoryCheck::Missing, SavedScanLookup::NotFound).is_none());
    assert_eq!(app.status_message(), "Directory does not exist");
    assert!(app.request_directory_scan(DirectoryCheck::NotDirectory, SavedScanLookup::NotFound).is_none());
    assert_eq!(app.status_message(), "Path is not a directory");

    let request = app.request_directory_scan(DirectoryCheck::Directory(String::from("/t")), SavedScanLookup::NotFound).unwrap();
    assert_eq!(request.path, "/t");
    assert!(!request.persist_to_database);

    let request = app.request_directory_scan(DirectoryCheck::Directory(String::from("/t")), SavedScanLookup::DatabaseUnavailable).unwrap();
    assert!(!request.persist_to_database);
    assert_eq!(app.status_message(), "Cannot open database");

    app.request_directory_scan(DirectoryCheck::Directory(String::from("/t")), SavedScanLookup::LookupFailed);
    assert_eq!(app.status_message(), "Database search failed. Scanning without saving.");

    app.request_directory_scan(DirectoryCheck::Directory(String::from("/t")), SavedScanLookup::Found(scan(Some(2))));
    assert_eq!(app.screen(), AppScreen::SavedDirectoryChoice);
    assert!(!app.pending_is_disk_scan());
    assert_eq!(app.saved_choice_items()[0], "Open saved version");
    assert_eq!(app.pending_scan().unwrap().id, Some(2));
    assert_eq!(app.saved_version_to_load(), Some((String::from("/t"), 2)));
}

#[test]
fn opening_a_saved_version() {
    let mut app = TuiApp::new(disks(), String::from("/home"));

    app.open_saved_directory_version(SubtreeLoad::LoadFailed);
    assert_eq!(app.status_message(), "No pending directory");
    assert!(app.scan_pending_path_again().is_none());
    assert_eq!(app.status_message(), "No pending path");

    app.request_directory_scan(DirectoryCheck::Directory(String::from("/t")), SavedScanLookup::Found(scan(None)));
    assert!(app.saved_version_to_load().is_none());
    app.open_saved_directory_version(SubtreeLoad::LoadFailed);
    assert_eq!(app.status_message(), "Saved scan has no id");

    app.request_directory_scan(DirectoryCheck::Directory(String::from("/t")), SavedScanLookup::Found(scan(Some(4))));
    app.open_saved_directory_version(SubtreeLoad::DatabaseUnavailable);
    assert_eq!(app.status_message(), "Scan completed, but database open failed");
    app.open_saved_directory_version(SubtreeLoad::LoadFailed);
    assert_eq!(app.status_message(), "Cannot load saved directory");

    app.open_saved_directory_version(SubtreeLoad::Loaded(sample_tree()));
    assert_eq!(app.screen(), AppScreen::FileTree);
    assert_eq!(app.status_message(), "Opened saved version from 2026-05-04 12:00:00");
    assert_eq!(row_names(&app), vec!["t"]);
}

#[test]
fn quitting() {
    let mut app = TuiApp::new(disks(), String::from("/home"));
    app.quit();
    assert!(app.should_quit());
}

#[test]
fn row_labels_follow_the_row() {
    let mut app = app_with_tree();
    assert_eq!(app.rows()[0].icon(), "[+]");
    assert_eq!(app.rows()[0].expanded_label(), "no");
    app.toggle_selected_directory();
    assert_eq!(app.rows()[0].icon(), "[-]");
    assert_eq!(app.rows()[0].type_label(), "Directory");
    assert_eq!(app.rows()[0].expanded_label(), "yes");
    assert_eq!(app.rows()[2].icon(), "[F]");
    assert_eq!(app.rows()[2].type_label(), "File");
    assert_eq!(app.rows()[2].expanded_label(), "-");
}

#[test]
fn disk_rows_number_the_disks() {
    let rows = DiskRow::from_disks(&[
        DiskInfo { name: String::from("a"), mount_point: String::from("/"), total_space: 9, available_space: 3 },
        DiskInfo { name: String::from("b"), mount_point: String::from("/b"), total_space: 5, available_space: 5 },
    ]);
    assert_eq!(rows.len(), 2);
    assert_eq!(rows[1].index, 1);
    assert_eq!(rows[1].mount_point, "/b");
    assert_eq!(rows[0].free_space, 3);
}

#[test]
fn a_scan_is_first_saved_as_running() {
    let mut app = TuiApp::new(disks(), String::from("/home"));
    let plan = app.scan_path("/t", true, Some(sample_tree())).unwrap();

    let session = plan.session(String::from("2026-01-01T00:00:00+00:00"));

    assert!(session.id.is_none());
    assert_eq!(session.root_path, "/t");
    assert_eq!(session.status, "running");
    assert_eq!(session.total_size, 115);
    assert!(session.finished_at.is_none());
}
