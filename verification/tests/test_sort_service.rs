use disk_analyzer::models::{FileCategory, FileNode, NodeType};
use disk_analyzer::sort_service::SortService;

fn create_test_nodes() -> Vec<FileNode> {
    vec![
        FileNode {
            id: None,
            parent_id: None,
            path: String::from("/test/video.mp4"),
            name: String::from("video.mp4"),
            extension: Some(String::from("mp4")),
            size: 300,
            node_type: NodeType::File,
            children: Vec::new(),
            category: Some(FileCategory::Video),
        },
        FileNode {
            id: None,
            parent_id: None,
            path: String::from("/test/docs"),
            name: String::from("docs"),
            extension: None,
            size: 500,
            node_type: NodeType::Directory,
            children: Vec::new(),
            category: None,
        },
        FileNode {
            id: None,
            parent_id: None,
            path: String::from("/test/main.rs"),
            name: String::from("main.rs"),
            extension: Some(String::from("rs")),
            size: 100,
            node_type: NodeType::File,
            children: Vec::new(),
            category: Some(FileCategory::Code),
        },
        FileNode {
            id: None,
            parent_id: None,
            path: String::from("/test/link"),
            name: String::from("link"),
            extension: None,
            size: 0,
            node_type: NodeType::Symlink,
            children: Vec::new(),
            category: None,
        },
    ]
}

#[test]
fn test_sort_by_name() {
    let nodes = create_test_nodes();

    let sorted = SortService::by_name(nodes);

    let names: Vec<&str> = sorted
        .iter()
        .map(|node| node.name.as_str())
        .collect();

    assert_eq!(
        names,
        vec!["docs", "link", "main.rs", "video.mp4"]
    );
}

#[test]
fn test_sort_by_size_descending() {
    let nodes = create_test_nodes();

    let sorted = SortService::by_size(nodes);

    let sizes: Vec<u64> = sorted
        .iter()
        .map(|node| node.size)
        .collect();

    assert_eq!(sizes, vec![500, 300, 100, 0]);
}

#[test]
fn test_sort_by_type() {
    let nodes = create_test_nodes();

    let sorted = SortService::by_type(nodes);

    assert_eq!(sorted[0].node_type, NodeType::Directory);
    assert_eq!(sorted[1].node_type, NodeType::File);
    assert_eq!(sorted[2].node_type, NodeType::File);
    assert_eq!(sorted[3].node_type, NodeType::Symlink);
}

#[test]
fn test_sort_by_type_keeps_files_sorted_by_name_inside_type() {
    let nodes = create_test_nodes();

    let sorted = SortService::by_type(nodes);

    let names: Vec<&str> = sorted
        .iter()
        .map(|node| node.name.as_str())
        .collect();

    assert_eq!(
        names,
        vec!["docs", "main.rs", "video.mp4", "link"]
    );
}
fn names_of(nodes: &[FileNode]) -> Vec<&str> {
    nodes.iter().map(|node| node.name.as_str()).collect()
}

#[test]
fn sort_by_name_ignores_letter_case() {
    let mut nodes = create_test_nodes();
    nodes[1].name = String::from("Docs");
    nodes[2].name = String::from("MAIN.rs");

    let sorted = SortService::by_name(nodes);

    assert_eq!(names_of(&sorted), vec!["Docs", "link", "MAIN.rs", "video.mp4"]);
}

#[test]
fn sort_by_name_keeps_order_of_equal_names() {
    let mut nodes = create_test_nodes();
    nodes[0].name = String::from("same");
    nodes[2].name = String::from("SAME");

    let sorted = SortService::by_name(nodes);

    assert_eq!(names_of(&sorted), vec!["docs", "link", "same", "SAME"]);
}

#[test]
fn sort_by_size_keeps_order_of_equal_sizes() {
    let mut nodes = create_test_nodes();
    nodes[0].size = 100;

    let sorted = SortService::by_size(nodes);

    assert_eq!(names_of(&sorted), vec!["docs", "video.mp4", "main.rs", "link"]);
}

#[test]
fn sorting_twice_is_sorting_once() {
    let once = SortService::by_type(create_test_nodes());
    let twice = SortService::by_type(SortService::by_type(create_test_nodes()));

    assert_eq!(names_of(&once), names_of(&twice));
}

#[test]
fn sorting_nothing_gives_nothing() {
    assert!(SortService::by_name(Vec::new()).is_empty());
    assert!(SortService::by_size(Vec::new()).is_empty());
    assert!(SortService::by_type(Vec::new()).is_empty());
}
