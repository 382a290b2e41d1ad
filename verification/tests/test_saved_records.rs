use disk_analyzer::models::NodeType;
use disk_analyzer::stat_services::saved_records::{
    build_tree_from_db_nodes, descendant_pattern, normalize_path, parse_node_type, rows_readable, DbFileNode,
};

fn row(id: i64, parent_id: Option<i64>, path: &str, node_type: NodeType, size: u64) -> DbFileNode {
    DbFileNode {
        id,
        parent_id,
        path: String::from(path),
        name: String::from(path.rsplit('/').next().unwrap()),
        extension: None,
        size,
        node_type,
    }
}

#[test]
fn normalize_path_drops_trailing_slashes_but_keeps_the_root() {
    assert_eq!(normalize_path("/"), "/");
    assert_eq!(normalize_path("/home/user/"), "/home/user");
    assert_eq!(normalize_path("/home//"), "/home");
    assert_eq!(normalize_path("//"), "");
    assert_eq!(normalize_path("a"), "a");
    assert_eq!(normalize_path(""), "");
}

#[test]
fn descendant_pattern_matches_below_a_path() {
    assert_eq!(descendant_pattern("/home/user/"), "/home/user/%");
    assert_eq!(descendant_pattern("/"), "/%");
    assert_eq!(descendant_pattern("/a"), "/a/%");
}

#[test]
fn parse_node_type_reads_stored_names() {
    assert_eq!(parse_node_type("file"), NodeType::File);
    assert_eq!(parse_node_type("directory"), NodeType::Directory);
    assert_eq!(parse_node_type("symlink"), NodeType::Symlink);
    assert_eq!(parse_node_type("Directory"), NodeType::File);
    for t in [NodeType::File, NodeType::Directory, NodeType::Symlink] {
        assert_eq!(parse_node_type(t.as_str()), t);
    }
}

#[test]
fn rows_are_read_back_as_a_tree() {
    let rows = vec![
        row(1, None, "/t", NodeType::Directory, 30),
        row(2, Some(1), "/t/a", NodeType::Directory, 20),
        row(3, Some(2), "/t/a/x", NodeType::File, 20),
        row(4, Some(1), "/t/b", NodeType::File, 10),
        row(5, None, "/other", NodeType::File, 1),
    ];
    assert!(rows_readable(&rows, 2));

    let whole = build_tree_from_db_nodes(1, &rows);
    assert_eq!(whole.id, Some(1));
    assert_eq!(whole.size, 30);
    let names: Vec<&str> = whole.children.iter().map(|c| c.name.as_str()).collect();
    assert_eq!(names, vec!["a", "b"]);
    assert_eq!(whole.children[0].children[0].path, "/t/a/x");
    assert_eq!(whole.children[0].parent_id, Some(1));
    assert!(whole.category.is_none());

    let part = build_tree_from_db_nodes(2, &rows);
    assert_eq!(part.path, "/t/a");
    assert_eq!(part.children.len(), 1);
}

#[test]
fn rows_that_cannot_be_read_back_are_noticed() {
    let rows = vec![row(1, None, "/t", NodeType::Directory, 0), row(2, Some(3), "/t/a", NodeType::File, 0)];
    assert!(!rows_readable(&rows, 1));

    let rows = vec![row(2, None, "/t", NodeType::Directory, 0), row(1, Some(2), "/t/a", NodeType::File, 0)];
    assert!(!rows_readable(&rows, 2));

    let rows = vec![row(1, None, "/t", NodeType::Directory, 0)];
    assert!(!rows_readable(&rows, 7));
    assert!(rows_readable(&rows, 1));
}

#[test]
fn normalizing_twice_is_normalizing_once() {
    for p in ["/", "/a/b//", "x/", "", "///"] {
        let once = normalize_path(p);
        assert_eq!(normalize_path(&once), once);
    }
}
