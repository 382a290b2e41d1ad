use disk_analyzer::models::{FileCategory, FileNode, NodeType};
use disk_analyzer::stat_services::save_plan::save_plan;
use disk_analyzer::stat_services::saved_records::{build_tree_from_db_nodes, rows_readable, DbFileNode};

fn node(path: &str, node_type: NodeType, size: u64, children: Vec<FileNode>) -> FileNode {
    FileNode {
        id: None,
        parent_id: None,
        path: String::from(path),
        name: String::from(path.rsplit('/').next().unwrap()),
        extension: path.rsplit_once('.').map(|(_, e)| String::from(e)),
        size,
        node_type,
        children,
        category: Some(FileCategory::Other),
    }
}

fn tree() -> FileNode {
    node(
        "/t",
        NodeType::Directory,
        7,
        vec![
            node("/t/a", NodeType::Directory, 5, vec![node("/t/a/x.rs", NodeType::File, 2, Vec::new()), node("/t/a/y.md", NodeType::File, 3, Vec::new())]),
            node("/t/b.txt", NodeType::File, 2, Vec::new()),
            node("/t/l", NodeType::Symlink, 0, Vec::new()),
        ],
    )
}

fn assert_same_content(saved: &FileNode, read: &FileNode) {
    assert_eq!(saved.path, read.path);
    assert_eq!(saved.name, read.name);
    assert_eq!(saved.extension, read.extension);
    assert_eq!(saved.size, read.size);
    assert_eq!(saved.node_type, read.node_type);
    assert_eq!(saved.children.len(), read.children.len());
    for (a, b) in saved.children.iter().zip(read.children.iter()) {
        assert_same_content(a, b);
    }
}

#[test]
fn the_plan_writes_nodes_in_preorder_under_their_parents() {
    let plan = save_plan(&tree());

    let paths: Vec<&str> = plan.iter().map(|s| s.path.as_str()).collect();
    assert_eq!(paths, vec!["/t", "/t/a", "/t/a/x.rs", "/t/a/y.md", "/t/b.txt", "/t/l"]);
    let parents: Vec<Option<usize>> = plan.iter().map(|s| s.parent).collect();
    assert_eq!(parents, vec![None, Some(0), Some(1), Some(1), Some(0), Some(0)]);
}

#[test]
fn saved_rows_read_back_as_the_saved_tree() {
    let saved = tree();
    let plan = save_plan(&saved);
    let ids: Vec<i64> = (0..plan.len()).map(|i| 100 + 3 * i as i64).collect();
    let rows: Vec<DbFileNode> = plan
        .iter()
        .enumerate()
        .map(|(i, step)| DbFileNode {
            id: ids[i],
            parent_id: step.parent.map(|p| ids[p]),
            path: step.path.clone(),
            name: step.name.clone(),
            extension: step.extension.clone(),
            size: step.size,
            node_type: step.node_type,
        })
        .collect();

    assert!(rows_readable(&rows, ids[0]));
    let read = build_tree_from_db_nodes(ids[0], &rows);

    assert_same_content(&saved, &read);
    assert_eq!(read.id, Some(100));
    assert!(read.category.is_none());
    assert_eq!(read.children[0].parent_id, Some(100));
}
