use disk_analyzer::models::{FileNode, NodeType};
use disk_analyzer::scanner_services::{EntryKind, Scanner};

#[test]
fn system_directories_are_skipped_unless_asked_for() {
    let scanner = Scanner::new(false);
    assert!(!scanner.scan_system_dirs);
    assert!(scanner.should_skip_path("/proc"));
    assert!(scanner.should_skip_path("/proc/1/status"));
    assert!(scanner.should_skip_path("/tmp/x"));
    assert!(scanner.should_skip_path("/dev"));
    assert!(!scanner.should_skip_path("/procfs"));
    assert!(!scanner.should_skip_path("/home/proc"));

    let all = Scanner::new_with_options(false, true);
    assert!(!all.should_skip_path("/proc"));
}

#[test]
fn hidden_names_are_skipped_unless_shown() {
    let scanner = Scanner::new(false);
    assert!(scanner.should_skip_name(".env"));
    assert!(scanner.should_skip_name(".hidden_dir"));
    assert!(!scanner.should_skip_name("visible.txt"));
    assert!(!scanner.should_skip_name(""));

    let showing = Scanner::new_with_options(true, false);
    assert!(showing.show_hidden);
    assert!(!showing.should_skip_name(".env"));
}

#[test]
fn entry_nodes_by_kind() {
    let file = Scanner::entry_node(String::from("/d/a.txt"), EntryKind::File, 7, Vec::new()).unwrap();
    assert_eq!(file.node_type, NodeType::File);
    assert_eq!(file.name, "a.txt");
    assert_eq!(file.size, 7);
    assert_eq!(file.extension.as_deref(), Some("txt"));

    let link = Scanner::entry_node(String::from("/d/l"), EntryKind::Symlink, 3, Vec::new()).unwrap();
    assert_eq!(link.node_type, NodeType::Symlink);
    assert_eq!(link.name, "l");
    assert!(link.extension.is_none());
    assert_eq!(link.size, 3);

    let child: FileNode = file;
    let directory =
        Scanner::entry_node(String::from("/d/archive.old"), EntryKind::Directory, 4096, vec![child]).unwrap();
    assert_eq!(directory.node_type, NodeType::Directory);
    assert_eq!(directory.name, "archive.old");
    assert_eq!(directory.size, 0);
    assert!(directory.extension.is_none());
    assert_eq!(directory.children.len(), 1);

    assert!(Scanner::entry_node(String::from("/d/s"), EntryKind::Other, 0, Vec::new()).is_none());
}

#[test]
fn entry_names_come_from_the_path() {
    assert_eq!(Scanner::entry_name("/home/user/.env"), ".env");
    assert_eq!(Scanner::entry_name("/home/user/"), "user");
    assert_eq!(Scanner::entry_name("/"), "/");
    assert_eq!(Scanner::entry_name("relative"), "relative");
    let hidden = Scanner::entry_node(String::from("/d/.bashrc"), EntryKind::File, 1, Vec::new()).unwrap();
    assert_eq!(hidden.name, ".bashrc");
    assert!(hidden.extension.is_none());
}
