use disk_analyzer::models::{FileCategory, FileNode, NodeType, Percentage};
use disk_analyzer::stat_services::statistics_service::StatService;
use disk_analyzer::stat_services::system_info_service::{DiskInfo, SystemInfoService};
#[test]
fn test_category_by_extension() {
    assert_eq!(
        StatService::category_by_extension(Some("rs")),
        FileCategory::Code
    );

    assert_eq!(
        StatService::category_by_extension(Some("mp4")),
        FileCategory::Video
    );

    assert_eq!(
        StatService::category_by_extension(Some("pdf")),
        FileCategory::Documents
    );

    assert_eq!(
        StatService::category_by_extension(None),
        FileCategory::NoExtension
    );

    assert_eq!(
        StatService::category_by_extension(Some("unknown_ext")),
        FileCategory::Other
    );
}

#[test]
fn test_calculate_percentage() {
    let result = StatService::calculate_percentage(25, 100);

    assert_eq!(result.numerator as f64 / result.denominator as f64, 25.0);
}

#[test]
fn test_calculate_percentage_with_zero_total() {
    let result = StatService::calculate_percentage(25, 0);

    assert_eq!(result.numerator as f64 / result.denominator as f64, 0.0);
}

#[test]
fn test_group_by_categories() {
    let root = FileNode {
        id: None,
        parent_id: None,
        path: String::from("/test"),
        name: String::from("test"),
        extension: None,
        size: 300,
        node_type: NodeType::Directory,
        children: vec![
            FileNode {
                id: None,
                parent_id: None,
                path: String::from("/test/main.rs"),
                name: String::from("main.rs"),
                extension: Some(String::from("rs")),
                size: 100,
                node_type: NodeType::File,
                children: Vec::new(),
                category: None,
            },
            FileNode {
                id: None,
                parent_id: None,
                path: String::from("/test/video.mp4"),
                name: String::from("video.mp4"),
                extension: Some(String::from("mp4")),
                size: 200,
                node_type: NodeType::File,
                children: Vec::new(),
                category: None,
            },
        ],
        category: None,
    };

    let stats = StatService::group_by_categories(&root);

    assert_eq!(stats.len(), 2);

    let code_stat = stats
        .iter()
        .find(|stat| stat.category == FileCategory::Code)
        .unwrap();

    assert_eq!(code_stat.file_count, 1);
    assert_eq!(code_stat.total_size, 100);

    let video_stat = stats
        .iter()
        .find(|stat| stat.category == FileCategory::Video)
        .unwrap();

    assert_eq!(video_stat.file_count, 1);
    assert_eq!(video_stat.total_size, 200);
}
fn file(path: &str, name: &str, extension: Option<&str>, size: u64, category: Option<FileCategory>) -> FileNode {
    FileNode {
        id: None,
        parent_id: None,
        path: String::from(path),
        name: String::from(name),
        extension: extension.map(String::from),
        size,
        node_type: NodeType::File,
        children: Vec::new(),
        category,
    }
}

fn dir(path: &str, name: &str, children: Vec<FileNode>) -> FileNode {
    FileNode {
        id: None,
        parent_id: None,
        path: String::from(path),
        name: String::from(name),
        extension: None,
        size: 0,
        node_type: NodeType::Directory,
        children,
        category: None,
    }
}

#[test]
fn category_by_extension_ignores_leading_dots_and_case() {
    assert_eq!(StatService::category_by_extension(Some(".MP4")), FileCategory::Video);
    assert_eq!(StatService::category_by_extension(Some("..Jpeg")), FileCategory::Images);
    assert_eq!(StatService::category_by_extension(Some("")), FileCategory::Other);
    assert_eq!(StatService::category_by_extension(Some("7z")), FileCategory::Archives);
    assert_eq!(StatService::category_by_extension(Some("flac")), FileCategory::Audio);
}

#[test]
fn calculate_percentage_is_an_exact_fraction() {
    assert_eq!(StatService::calculate_percentage(1, 3), Percentage { numerator: 100, denominator: 3 });
    assert_eq!(StatService::calculate_percentage(7, 0), Percentage { numerator: 0, denominator: 1 });
    assert_eq!(
        StatService::calculate_percentage(u64::MAX, u64::MAX),
        Percentage { numerator: u64::MAX as u128 * 100, denominator: u64::MAX }
    );
}

#[test]
fn group_by_categories_orders_by_size_and_adds_up() {
    let root = dir(
        "/r",
        "r",
        vec![
            file("/r/a.rs", "a.rs", Some("rs"), 10, None),
            dir("/r/sub", "sub", vec![
                file("/r/sub/b.mp4", "b.mp4", Some("mp4"), 70, None),
                file("/r/sub/c", "c", None, 20, None),
            ]),
            file("/r/d.rs", "d.rs", Some("rs"), 0, Some(FileCategory::Code)),
        ],
    );

    let stats = StatService::group_by_categories(&root);

    let categories: Vec<FileCategory> = stats.iter().map(|s| s.category).collect();
    assert_eq!(categories, vec![FileCategory::Video, FileCategory::NoExtension, FileCategory::Code]);
    assert_eq!(stats[2].file_count, 2);
    assert_eq!(stats[2].total_size, 10);
    let total: u64 = stats.iter().map(|s| s.total_size).sum();
    assert_eq!(total, 100);
    let numerators: u128 = stats.iter().map(|s| s.percentage.numerator).sum();
    assert_eq!(numerators, 100 * 100);
    assert!(stats.iter().all(|s| s.percentage.denominator == 100));
}

#[test]
fn group_by_categories_breaks_ties_in_declaration_order() {
    let root = dir(
        "/r",
        "r",
        vec![
            file("/r/a.zip", "a.zip", Some("zip"), 5, None),
            file("/r/b.mp3", "b.mp3", Some("mp3"), 5, None),
        ],
    );

    let stats = StatService::group_by_categories(&root);

    let categories: Vec<FileCategory> = stats.iter().map(|s| s.category).collect();
    assert_eq!(categories, vec![FileCategory::Audio, FileCategory::Archives]);
}

#[test]
fn group_by_categories_counts_only_files() {
    let mut root = dir("/r", "r", vec![file("/r/a.txt", "a.txt", Some("txt"), 3, None)]);
    root.children.push(FileNode {
        id: None,
        parent_id: None,
        path: String::from("/r/l.txt"),
        name: String::from("l.txt"),
        extension: Some(String::from("txt")),
        size: 9,
        node_type: NodeType::Symlink,
        children: Vec::new(),
        category: None,
    });

    let stats = StatService::group_by_categories(&root);

    assert_eq!(stats.len(), 1);
    assert_eq!(stats[0].category, FileCategory::Documents);
    assert_eq!(stats[0].file_count, 1);
    assert_eq!(stats[0].total_size, 3);
}

#[test]
fn group_by_categories_of_a_tree_without_files_is_empty() {
    let root = dir("/r", "r", vec![dir("/r/e", "e", Vec::new())]);

    assert!(StatService::group_by_categories(&root).is_empty());
}

#[test]
fn build_system_statistic_takes_the_loaded_disk_figures() {
    let root = dir("/r", "r", vec![file("/r/a.rs", "a.rs", Some("rs"), 4, None)]);
    let mut info = SystemInfoService::new(vec![DiskInfo {
        name: String::from("sda"),
        mount_point: String::from("/"),
        total_space: 1000,
        available_space: 400,
    }]);
    assert!(info.load_disk_stats(0));

    let statistic = StatService::build_system_statistic(&root, &info);

    assert_eq!(statistic.total_disk_space, 1000);
    assert_eq!(statistic.free_disk_space, 400);
    assert_eq!(statistic.used_disk_space, 600);
    assert_eq!(statistic.file_stats.len(), 1);
    assert_eq!(statistic.file_stats[0].category, FileCategory::Code);
}

#[test]
fn category_of_ascii_extensions_ignores_case() {
    assert_eq!(StatService::category_by_extension(Some("RS")), FileCategory::Code);
    assert_eq!(StatService::category_by_extension(Some(".PnG")), FileCategory::Images);
    assert_eq!(StatService::category_by_extension(Some("Zip")), FileCategory::Archives);
}
