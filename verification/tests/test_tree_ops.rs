use disk_analyzer::models::{FileCategory, FileNode, NodeType};
use disk_analyzer::stat_services::statistics_service::StatService;
use disk_analyzer::tui::app::{SortMode, TreeRow};
use disk_analyzer::tui::tree_ops::{
    checked_category_size, checked_node_count, checked_tree_size, collect_visible_rows, contains_path,
    count_nodes, fits_within_limits, insert_path, remove_node_by_path, remove_path, sort_node_recursive,
};

fn node(path: &str, node_type: NodeType, size: u64, children: Vec<FileNode>) -> FileNode {
    FileNode {
        id: None,
        parent_id: None,
        path: String::from(path),
        name: String::from(path.rsplit('/').next().unwrap()),
        extension: None,
        size,
        node_type,
        children,
        category: None,
    }
}

fn tree() -> FileNode {
    node(
        "/r",
        NodeType::Directory,
        0,
        vec![
            node("/r/z", NodeType::File, 3, Vec::new()),
            node("/r/d", NodeType::Directory, 0, vec![node("/r/d/f", NodeType::File, 4, Vec::new())]),
            node("/r/l", NodeType::Symlink, 5, Vec::new()),
        ],
    )
}

#[test]
fn count_nodes_counts_files_with_symlinks_and_directories() {
    assert_eq!(count_nodes(&tree()), (3, 2));
}

#[test]
fn checked_measures_of_a_small_tree() {
    let t = tree();
    assert_eq!(checked_tree_size(&t), Some(12));
    assert_eq!(checked_node_count(&t), Some(5));
    assert_eq!(checked_category_size(&t, FileCategory::NoExtension), Some(7));
    assert_eq!(checked_category_size(&t, FileCategory::Video), Some(0));
    assert!(fits_within_limits(&t));
}

#[test]
fn a_tree_larger_than_a_u64_does_not_fit() {
    let t = node(
        "/r",
        NodeType::Directory,
        0,
        vec![node("/r/a", NodeType::File, u64::MAX, Vec::new()), node("/r/b", NodeType::File, 1, Vec::new())],
    );
    assert_eq!(checked_tree_size(&t), None);
    assert_eq!(checked_category_size(&t, FileCategory::NoExtension), None);
    assert!(!fits_within_limits(&t));
}

#[test]
fn sorting_recursively_sorts_every_level() {
    let mut t = tree();
    sort_node_recursive(&mut t, SortMode::Name);
    let names: Vec<&str> = t.children.iter().map(|c| c.name.as_str()).collect();
    assert_eq!(names, vec!["d", "l", "z"]);

    sort_node_recursive(&mut t, SortMode::Type);
    let names: Vec<&str> = t.children.iter().map(|c| c.name.as_str()).collect();
    assert_eq!(names, vec!["d", "z", "l"]);
}

#[test]
fn removing_a_path_removes_it_where_it_is_first_found() {
    let mut t = tree();
    assert!(remove_node_by_path(&mut t, &String::from("/r/d/f")));
    assert!(t.children[1].children.is_empty());
    assert!(!remove_node_by_path(&mut t, &String::from("/r/d/f")));
    assert!(remove_node_by_path(&mut t, &String::from("/r/z")));
    assert_eq!(t.children.len(), 2);
    assert!(!remove_node_by_path(&mut t, &String::from("/r")));
}

#[test]
fn visible_rows_follow_the_expanded_paths() {
    let t = tree();
    let mut expanded: Vec<String> = Vec::new();
    let mut rows: Vec<TreeRow> = Vec::new();
    collect_visible_rows(&t, 0, &expanded, &mut rows);
    assert_eq!(rows.len(), 1);

    insert_path(&mut expanded, String::from("/r"));
    insert_path(&mut expanded, String::from("/r/d"));
    insert_path(&mut expanded, String::from("/r"));
    assert_eq!(expanded.len(), 2);
    let mut rows: Vec<TreeRow> = Vec::new();
    collect_visible_rows(&t, 0, &expanded, &mut rows);
    let paths: Vec<&str> = rows.iter().map(|r| r.path.as_str()).collect();
    assert_eq!(paths, vec!["/r", "/r/z", "/r/d", "/r/d/f", "/r/l"]);
    assert_eq!(rows[3].depth, 2);
    assert_eq!(rows[2].children_count, 1);

    remove_path(&mut expanded, &String::from("/r/d"));
    assert!(!contains_path(&expanded, &String::from("/r/d")));
    assert!(contains_path(&expanded, &String::from("/r")));
}

#[test]
fn a_file_path_in_the_expanded_set_does_not_expand_a_file() {
    let t = node("/f", NodeType::File, 1, vec![node("/f/odd", NodeType::File, 1, Vec::new())]);
    let expanded = vec![String::from("/f")];
    let mut rows: Vec<TreeRow> = Vec::new();
    collect_visible_rows(&t, 0, &expanded, &mut rows);
    assert_eq!(rows.len(), 1);
    assert!(rows[0].is_expanded);
}

#[test]
fn file_and_directory_counts_add_up_to_the_nodes() {
    let t = tree();
    let (files, dirs) = count_nodes(&t);
    assert_eq!(Some(files + dirs), checked_node_count(&t));
}

#[test]
fn sorting_keeps_the_statistics() {
    let mut t = tree();
    t.children[0].extension = Some(String::from("rs"));
    let before = StatService::group_by_categories(&t);
    sort_node_recursive(&mut t, SortMode::Size);
    let after = StatService::group_by_categories(&t);
    assert_eq!(before, after);
    assert_eq!(checked_tree_size(&t), Some(12));
}
