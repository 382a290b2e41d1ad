//! The state of the terminal interface and the transitions that keys and
//! finished outside work cause.

use vstd::prelude::*;
use crate::models::{FileNode, NodeType, FileCategory, FileStatistic, ScanSession};
use crate::text::{text, joined, push_char, pop_char};
use crate::tui::tree_ops::{
    path_set, visible_rows, within_limits, tree_sorted, sort_node_recursive, collect_visible_rows,
    contains_path, insert_path, remove_path, lemma_sorted_row_count, lemma_sorted_within_limits,
    remove_node_by_path, path_removed, lemma_removed_within_limits, lemma_calculated_within_limits,
    count_nodes, is_directory, is_not_directory, occurrences_below, found_below,
    lemma_removal_takes_path_out, lemma_found_count, lemma_calculated_count, lemma_sorted_count,
    agree_except, no_path_before, lemma_rows_prefix, lemma_rows_flag,
};
use crate::size_calculator::{SizeCalculator, sizes_calculated};
use crate::stat_services::statistics_service::{StatService, statistics_of};
use crate::models::preorder_where;
use crate::models::node_count;
use crate::stat_services::system_info_service::DiskInfo;

verus! {

/// The screens of the interface.
#[derive(Debug, Clone, Copy, PartialEq, Eq, Structural)]
pub enum AppScreen {
    MainMenu,
    DirectoryScanMenu,
    PathInput,
    SavedDirectoryChoice,
    DiskSelection,
    FileTree,
    DeleteConfirm,
}

/// The order of the children in the tree view.
#[derive(Debug, Clone, Copy, PartialEq, Eq, Structural)]
pub enum SortMode {
    Name,
    Size,
    Type,
}

/// A disk offered for scanning.
#[derive(Debug, Clone)]
pub struct DiskRow {
    pub index: usize,
    pub name: String,
    pub mount_point: String,
    pub total_space: u64,
    pub free_space: u64,
}

/// One visible line of the tree view.
#[derive(Debug, Clone)]
pub struct TreeRow {
    pub depth: usize,
    pub name: String,
    pub path: String,
    pub extension: Option<String>,
    pub size: u64,
    pub node_type: NodeType,
    pub category: Option<FileCategory>,
    pub children_count: usize,
    pub is_expanded: bool,
}

/// The row that shows `node` at `depth`.
pub open spec fn row_of(node: FileNode, depth: int, is_expanded: bool) -> TreeRow {
    TreeRow {
        depth: depth as usize,
        name: node.name,
        path: node.path,
        extension: node.extension,
        size: node.size,
        node_type: node.node_type,
        category: node.category,
        children_count: node.children@.len() as usize,
        is_expanded,
    }
}

impl TreeRow {
    /// A row with the same fields.
    pub fn duplicate(&self) -> (r: Self)
        ensures
            r == *self,
    {
        TreeRow {
            depth: self.depth,
            name: self.name.clone(),
            path: self.path.clone(),
            extension: match &self.extension {
                Some(e) => Some(e.clone()),
                None => None,
            },
            size: self.size,
            node_type: self.node_type,
            category: self.category,
            children_count: self.children_count,
            is_expanded: self.is_expanded,
        }
    }

    pub(crate) fn from_node(node: &FileNode, depth: usize, is_expanded: bool) -> (r: Self)
        ensures
            r == row_of(*node, depth as int, is_expanded),
            r.depth == depth,
            r.name == node.name,
            r.path == node.path,
            r.extension == node.extension,
            r.size == node.size,
            r.node_type == node.node_type,
            r.category == node.category,
            r.children_count == node.children.len(),
            r.is_expanded == is_expanded,
    {
        TreeRow {
            depth,
            name: node.name.clone(),
            path: node.path.clone(),
            extension: match &node.extension {
                Some(e) => Some(e.clone()),
                None => None,
            },
            size: node.size,
            node_type: node.node_type,
            category: node.category,
            children_count: node.children.len(),
            is_expanded,
        }
    }
}


/// The marker of a row in the tree view: an empty directory, an expanded
/// one, a collapsed one, a file, a symlink.
pub open spec fn icon_of(row: TreeRow) -> Seq<char> {
    match row.node_type {
        NodeType::Directory => if row.children_count == 0 {
            "[D]"@
        } else if row.is_expanded {
            "[-]"@
        } else {
            "[+]"@
        },
        NodeType::File => "[F]"@,
        NodeType::Symlink => "[L]"@,
    }
}

/// The name under which a node type is shown.
pub open spec fn type_label_of(node_type: NodeType) -> Seq<char> {
    match node_type {
        NodeType::Directory => "Directory"@,
        NodeType::File => "File"@,
        NodeType::Symlink => "Symlink"@,
    }
}

/// Whether a row is shown expanded: `yes` or `no` for a directory, `-` otherwise.
pub open spec fn expanded_label_of(row: TreeRow) -> Seq<char> {
    if row.node_type == NodeType::Directory {
        if row.is_expanded {
            "yes"@
        } else {
            "no"@
        }
    } else {
        "-"@
    }
}

impl TreeRow {
    /// The marker of the row in the tree view.
    pub fn icon(&self) -> (r: &'static str)
        ensures
            r@ == icon_of(*self),
    {
        match self.node_type {
            NodeType::Directory => if self.children_count == 0 {
                "[D]"
            } else if self.is_expanded {
                "[-]"
            } else {
                "[+]"
            },
            NodeType::File => "[F]",
            NodeType::Symlink => "[L]",
        }
    }

    /// The name under which the row's node type is shown.
    pub fn type_label(&self) -> (r: &'static str)
        ensures
            r@ == type_label_of(self.node_type),
    {
        match self.node_type {
            NodeType::Directory => "Directory",
            NodeType::File => "File",
            NodeType::Symlink => "Symlink",
        }
    }

    /// Whether the row is shown expanded, as the info panel says it.
    pub fn expanded_label(&self) -> (r: &'static str)
        ensures
            r@ == expanded_label_of(*self),
    {
        if self.node_type == NodeType::Directory {
            if self.is_expanded {
                "yes"
            } else {
                "no"
            }
        } else {
            "-"
        }
    }
}

impl PersistPlan {
    /// The record of the scan as it is first saved, started at `started_at`:
    /// no id yet, not finished, status `running`.
    pub fn session(&self, started_at: String) -> (s: ScanSession)
        ensures
            s.id is None,
            s.root_path@ == self.root_path@,
            s.started_at == started_at,
            s.finished_at is None,
            s.total_size == self.total_size,
            s.files_count == self.files_count,
            s.dirs_count == self.dirs_count,
            s.status@ == "running"@,
    {
        ScanSession {
            id: None,
            root_path: self.root_path.clone(),
            started_at,
            finished_at: None,
            total_size: self.total_size,
            files_count: self.files_count,
            dirs_count: self.dirs_count,
            status: text("running"),
        }
    }
}

impl DiskRow {
    /// The rows of the disk list: each disk with its position, its name, its
    /// mount point, its total space and its available space.
    pub fn from_disks(disks: &[DiskInfo]) -> (rows: Vec<DiskRow>)
        ensures
            rows@.len() == disks@.len(),
            forall|i: int|
                0 <= i < rows@.len() ==> {
                    &&& (#[trigger] rows@[i]).index == i
                    &&& rows@[i].name == disks@[i].name
                    &&& rows@[i].mount_point == disks@[i].mount_point
                    &&& rows@[i].total_space == disks@[i].total_space
                    &&& rows@[i].free_space == disks@[i].available_space
                },
    {
        let mut rows: Vec<DiskRow> = Vec::new();
        let mut i: usize = 0;
        while i < disks.len()
            invariant
                0 <= i <= disks@.len(),
                rows@.len() == i,
                forall|k: int|
                    0 <= k < i ==> {
                        &&& (#[trigger] rows@[k]).index == k
                        &&& rows@[k].name == disks@[k].name
                        &&& rows@[k].mount_point == disks@[k].mount_point
                        &&& rows@[k].total_space == disks@[k].total_space
                        &&& rows@[k].free_space == disks@[k].available_space
                    },
            decreases disks@.len() - i,
        {
            let disk = &disks[i];
            rows.push(DiskRow {
                index: i,
                name: disk.name.clone(),
                mount_point: disk.mount_point.clone(),
                total_space: disk.total_space,
                free_space: disk.available_space,
            });
            i = i + 1;
        }
        rows
    }
}

} // verus!

verus! {

/// The state of the interface as the specifications see it.
pub struct TuiAppView {
    pub screen: AppScreen,
    pub menu_items: Seq<Seq<char>>,
    pub menu_index: usize,
    pub directory_menu_items: Seq<Seq<char>>,
    pub directory_menu_index: usize,
    pub saved_choice_items: Seq<Seq<char>>,
    pub saved_choice_index: usize,
    pub disk_rows: Seq<DiskRow>,
    pub disk_index: usize,
    pub root_node: Option<FileNode>,
    pub rows: Seq<TreeRow>,
    pub expanded: Set<Seq<char>>,
    pub selected_index: usize,
    pub sort_mode: SortMode,
    pub show_hidden: bool,
    pub scan_system_dirs: bool,
    pub should_quit: bool,
    pub status_message: Seq<char>,
    pub input_path: Seq<char>,
    pub pending_directory_path: Option<Seq<char>>,
    pub pending_scan: Option<ScanSession>,
    pub pending_is_disk_scan: bool,
    pub current_scan_id: Option<i64>,
    pub current_is_full_persistent_scan: bool,
    pub delete_target: Option<TreeRow>,
    pub db_path: Seq<char>,
}

/// The rows that show the tree, none when there is no tree.
pub open spec fn rows_of(root: Option<FileNode>, expanded: Set<Seq<char>>) -> Seq<TreeRow> {
    match root {
        Some(r) => visible_rows(r, 0, expanded),
        None => Seq::empty(),
    }
}

/// The invariant of the interface state: every cursor points into its list
/// (or is zero), the menu says whether system directories are scanned, the
/// rows are those of the tree, and the tree is within the machine's limits.
pub open spec fn view_wf(v: TuiAppView) -> bool {
    &&& v.menu_items.len() == 4
    &&& v.menu_items[2] == system_dirs_item(v.scan_system_dirs)
    &&& v.menu_index < 4
    &&& v.directory_menu_items.len() == 3
    &&& v.directory_menu_index < 3
    &&& v.saved_choice_items.len() == 3
    &&& v.saved_choice_index < 3
    &&& (v.disk_index == 0 || v.disk_index < v.disk_rows.len())
    &&& (v.selected_index == 0 || v.selected_index < v.rows.len())
    &&& v.disk_rows.len() <= usize::MAX
    &&& v.rows.len() <= usize::MAX
    &&& v.rows == rows_of(v.root_node, v.expanded)
    &&& match v.root_node {
        Some(r) => within_limits(r),
        None => true,
    }
}

pub open spec fn strings_view(v: Seq<String>) -> Seq<Seq<char>> {
    v.map_values(|s: String| s@)
}

/// The third item of the main menu, which shows whether system directories are scanned.
pub open spec fn system_dirs_item(on: bool) -> Seq<char> {
    if on {
        "Toggle system directories: on"@
    } else {
        "Toggle system directories: off"@
    }
}

/// The items offered when a saved scan of the chosen path exists.
pub open spec fn saved_choice_items_for(disk: bool) -> Seq<Seq<char>> {
    if disk {
        seq!["Open saved disk scan"@, "Scan again and save"@, "Back"@]
    } else {
        seq!["Open saved directory version"@, "Scan again without saving"@, "Back"@]
    }
}

/// What the outside world answered when asked for a saved scan of a path.
pub enum SavedScanLookup {
    /// The database could not be opened.
    DatabaseUnavailable,
    /// The database was opened but the search failed.
    LookupFailed,
    /// No completed scan holds the path.
    NotFound,
    /// The latest completed scan that holds the path.
    Found(ScanSession),
}

/// What the file system says of a path that was given as a directory.
pub enum DirectoryCheck {
    /// The path does not exist.
    Missing,
    /// The path exists but is not a directory.
    NotDirectory,
    /// The path is a directory; its canonical form.
    Directory(String),
}

/// What the outside world answered when asked for a saved tree.
pub enum SubtreeLoad {
    /// The database could not be opened.
    DatabaseUnavailable,
    /// The tree could not be loaded.
    LoadFailed,
    /// The saved tree.
    Loaded(FileNode),
}

/// A scan that the outside world is to perform and hand back to `scan_path`.
pub struct ScanRequest {
    pub path: String,
    pub persist_to_database: bool,
}

/// What a completed scan that is to be saved amounts to.
pub struct PersistPlan {
    pub root_path: String,
    pub total_size: u64,
    pub files_count: u64,
    pub dirs_count: u64,
    pub statistics: Vec<FileStatistic>,
}

/// How the saved scan has to follow a deletion.
pub enum DatabaseUpdate {
    /// Replace the saved tree, statistics and summary of a full scan by the current ones.
    ReplaceScanData { scan_id: i64, statistics: Vec<FileStatistic>, files_count: u64, dirs_count: u64 },
    /// Delete the path, and everything below it, from a partial saved tree.
    DeletePath { scan_id: i64, path: String },
}

pub struct TuiApp {
    screen: AppScreen,
    menu_items: Vec<String>,
    menu_index: usize,
    directory_menu_items: Vec<String>,
    directory_menu_index: usize,
    saved_choice_items: Vec<String>,
    saved_choice_index: usize,
    disk_rows: Vec<DiskRow>,
    disk_index: usize,
    root_node: Option<FileNode>,
    rows: Vec<TreeRow>,
    expanded_paths: Vec<String>,
    selected_index: usize,
    sort_mode: SortMode,
    show_hidden: bool,
    scan_system_dirs: bool,
    should_quit: bool,
    status_message: String,
    input_path: String,
    pending_directory_path: Option<String>,
    pending_scan: Option<ScanSession>,
    pending_is_disk_scan: bool,
    current_scan_id: Option<i64>,
    current_is_full_persistent_scan: bool,
    delete_target: Option<TreeRow>,
    db_path: String,
}

impl View for TuiApp {
    type V = TuiAppView;

    closed spec fn view(&self) -> TuiAppView {
        TuiAppView {
            screen: self.screen,
            menu_items: strings_view(self.menu_items@),
            menu_index: self.menu_index,
            directory_menu_items: strings_view(self.directory_menu_items@),
            directory_menu_index: self.directory_menu_index,
            saved_choice_items: strings_view(self.saved_choice_items@),
            saved_choice_index: self.saved_choice_index,
            disk_rows: self.disk_rows@,
            disk_index: self.disk_index,
            root_node: self.root_node,
            rows: self.rows@,
            expanded: path_set(self.expanded_paths@),
            selected_index: self.selected_index,
            sort_mode: self.sort_mode,
            show_hidden: self.show_hidden,
            scan_system_dirs: self.scan_system_dirs,
            should_quit: self.should_quit,
            status_message: self.status_message@,
            input_path: self.input_path@,
            pending_directory_path: match self.pending_directory_path {
                Some(p) => Some(p@),
                None => None,
            },
            pending_scan: self.pending_scan,
            pending_is_disk_scan: self.pending_is_disk_scan,
            current_scan_id: self.current_scan_id,
            current_is_full_persistent_scan: self.current_is_full_persistent_scan,
            delete_target: self.delete_target,
            db_path: self.db_path@,
        }
    }
}

impl TuiApp {
    /// The state at start: the main menu, no tree, nothing pending.
    /// `current_dir` is shown in the directory menu.
    pub fn new(disk_rows: Vec<DiskRow>, current_dir: String) -> (app: Self)
        ensures
            view_wf(app@),
            app@.screen == AppScreen::MainMenu,
            app@.menu_items == seq![
                "Scan directory"@,
                "Select disk and scan"@,
                "Toggle system directories: off"@,
                "Exit"@,
            ],
            app@.menu_index == 0,
            app@.directory_menu_items == seq![
                "Scan current directory: "@ + current_dir@,
                "Enter directory path"@,
                "Back"@,
            ],
            app@.directory_menu_index == 0,
            app@.saved_choice_items == seq!["Open saved version"@, "Scan again without saving"@, "Back"@],
            app@.saved_choice_index == 0,
            app@.disk_rows == disk_rows@,
            app@.disk_index == 0,
            app@.root_node.is_none(),
            app@.rows.len() == 0,
            app@.expanded.is_empty(),
            app@.selected_index == 0,
            app@.sort_mode == SortMode::Name,
            !app@.show_hidden,
            !app@.scan_system_dirs,
            !app@.should_quit,
            app@.status_message == "Ready"@,
            app@.input_path.len() == 0,
            app@.pending_directory_path.is_none(),
            app@.pending_scan.is_none(),
            !app@.pending_is_disk_scan,
            app@.current_scan_id.is_none(),
            !app@.current_is_full_persistent_scan,
            app@.delete_target.is_none(),
            app@.db_path == "data/disk_analyzer.db"@,
    {
        let mut menu_items: Vec<String> = Vec::new();
        menu_items.push(text("Scan directory"));
        menu_items.push(text("Select disk and scan"));
        menu_items.push(text("Toggle system directories: off"));
        menu_items.push(text("Exit"));
        let mut directory_menu_items: Vec<String> = Vec::new();
        directory_menu_items.push(joined("Scan current directory: ", current_dir.as_str()));
        directory_menu_items.push(text("Enter directory path"));
        directory_menu_items.push(text("Back"));
        let mut saved_choice_items: Vec<String> = Vec::new();
        saved_choice_items.push(text("Open saved version"));
        saved_choice_items.push(text("Scan again without saving"));
        saved_choice_items.push(text("Back"));
        proof {
            assert(disk_rows.len() == disk_rows@.len());
        }
        let app = TuiApp {
            screen: AppScreen::MainMenu,
            menu_items,
            menu_index: 0,
            directory_menu_items,
            directory_menu_index: 0,
            saved_choice_items,
            saved_choice_index: 0,
            disk_rows,
            disk_index: 0,
            root_node: None,
            rows: Vec::new(),
            expanded_paths: Vec::new(),
            selected_index: 0,
            sort_mode: SortMode::Name,
            show_hidden: false,
            scan_system_dirs: false,
            should_quit: false,
            status_message: text("Ready"),
            input_path: String::new(),
            pending_directory_path: None,
            pending_scan: None,
            pending_is_disk_scan: false,
            current_scan_id: None,
            current_is_full_persistent_scan: false,
            delete_target: None,
            db_path: text("data/disk_analyzer.db"),
        };
        proof {
            assert(strings_view(app.menu_items@) =~= seq![
                "Scan directory"@,
                "Select disk and scan"@,
                "Toggle system directories: off"@,
                "Exit"@,
            ]);
            assert(strings_view(app.directory_menu_items@) =~= seq![
                "Scan current directory: "@ + current_dir@,
                "Enter directory path"@,
                "Back"@,
            ]);
            assert(strings_view(app.saved_choice_items@) =~= seq![
                "Open saved version"@,
                "Scan again without saving"@,
                "Back"@,
            ]);
            assert(path_set(Seq::<String>::empty()) =~= Set::<Seq<char>>::empty());
        }
        app
    }

    fn saved_choice_items_vec(disk: bool) -> (v: Vec<String>)
        ensures
            strings_view(v@) == saved_choice_items_for(disk),
    {
        let mut v: Vec<String> = Vec::new();
        if disk {
            v.push(text("Open saved disk scan"));
            v.push(text("Scan again and save"));
            v.push(text("Back"));
        } else {
            v.push(text("Open saved directory version"));
            v.push(text("Scan again without saving"));
            v.push(text("Back"));
        }
        proof {
            assert(strings_view(v@) =~= saved_choice_items_for(disk));
        }
        v
    }
}


impl TuiApp {
    pub fn scan_system_dirs(&self) -> (r: bool)
        ensures
            r == self@.scan_system_dirs,
    {
        self.scan_system_dirs
    }

    pub fn pending_is_disk_scan(&self) -> (r: bool)
        ensures
            r == self@.pending_is_disk_scan,
    {
        self.pending_is_disk_scan
    }

    pub fn screen(&self) -> (r: AppScreen)
        ensures
            r == self@.screen,
    {
        self.screen
    }

    pub fn set_screen(&mut self, screen: AppScreen)
        ensures
            final(self)@ == (TuiAppView { screen, ..old(self)@ }),
    {
        self.screen = screen;
    }

    pub fn should_quit(&self) -> (r: bool)
        ensures
            r == self@.should_quit,
    {
        self.should_quit
    }

    pub fn quit(&mut self)
        ensures
            final(self)@ == (TuiAppView { should_quit: true, ..old(self)@ }),
    {
        self.should_quit = true;
    }

    pub fn menu_items(&self) -> (r: &[String])
        ensures
            strings_view(r@) == self@.menu_items,
    {
        self.menu_items.as_slice()
    }

    pub fn menu_index(&self) -> (r: usize)
        ensures
            r == self@.menu_index,
    {
        self.menu_index
    }

    pub fn directory_menu_items(&self) -> (r: &[String])
        ensures
            strings_view(r@) == self@.directory_menu_items,
    {
        self.directory_menu_items.as_slice()
    }

    pub fn directory_menu_index(&self) -> (r: usize)
        ensures
            r == self@.directory_menu_index,
    {
        self.directory_menu_index
    }

    pub fn saved_choice_items(&self) -> (r: &[String])
        ensures
            strings_view(r@) == self@.saved_choice_items,
    {
        self.saved_choice_items.as_slice()
    }

    pub fn saved_choice_index(&self) -> (r: usize)
        ensures
            r == self@.saved_choice_index,
    {
        self.saved_choice_index
    }

    pub fn disk_rows(&self) -> (r: &[DiskRow])
        ensures
            r@ == self@.disk_rows,
    {
        self.disk_rows.as_slice()
    }

    pub fn disk_index(&self) -> (r: usize)
        ensures
            r == self@.disk_index,
    {
        self.disk_index
    }

    pub fn rows(&self) -> (r: &[TreeRow])
        ensures
            r@ == self@.rows,
    {
        self.rows.as_slice()
    }

    pub fn selected_index(&self) -> (r: usize)
        ensures
            r == self@.selected_index,
    {
        self.selected_index
    }

    /// The row under the cursor, if the cursor is on a row.
    pub fn selected_row(&self) -> (r: Option<&TreeRow>)
        ensures
            self@.selected_index < self@.rows.len() ==> r == Some(&self@.rows[self@.selected_index as int]),
            self@.selected_index >= self@.rows.len() ==> r.is_none(),
    {
        if self.selected_index < self.rows.len() {
            Some(&self.rows[self.selected_index])
        } else {
            None
        }
    }

    pub fn status_message(&self) -> (r: &str)
        ensures
            r@ == self@.status_message,
    {
        self.status_message.as_str()
    }

    pub fn sort_mode(&self) -> (r: SortMode)
        ensures
            r == self@.sort_mode,
    {
        self.sort_mode
    }

    pub fn show_hidden(&self) -> (r: bool)
        ensures
            r == self@.show_hidden,
    {
        self.show_hidden
    }

    pub fn input_path(&self) -> (r: &str)
        ensures
            r@ == self@.input_path,
    {
        self.input_path.as_str()
    }

    pub fn pending_directory_path(&self) -> (r: Option<&str>)
        ensures
            match self@.pending_directory_path {
                Some(p) => r.is_some() && r.unwrap()@ == p,
                None => r.is_none(),
            },
    {
        match &self.pending_directory_path {
            Some(p) => Some(p.as_str()),
            None => None,
        }
    }

    pub fn pending_scan(&self) -> (r: Option<&ScanSession>)
        ensures
            match self@.pending_scan {
                Some(s) => r == Some(&s),
                None => r.is_none(),
            },
    {
        self.pending_scan.as_ref()
    }

    /// The tree on display, if there is one.
    pub fn root_node(&self) -> (r: Option<&FileNode>)
        ensures
            match self@.root_node {
                Some(n) => r == Some(&n),
                None => r.is_none(),
            },
    {
        self.root_node.as_ref()
    }

    /// The mount point of the disk under the cursor, if there is a disk there.
    pub fn selected_disk_mount_point(&self) -> (r: Option<String>)
        ensures
            self@.disk_index < self@.disk_rows.len() ==> r.is_some() && r.unwrap()@
                == self@.disk_rows[self@.disk_index as int].mount_point@,
            self@.disk_index >= self@.disk_rows.len() ==> r.is_none(),
    {
        if self.disk_index < self.disk_rows.len() {
            Some(self.disk_rows[self.disk_index].mount_point.clone())
        } else {
            None
        }
    }

    /// Where the database of saved scans is kept.
    pub fn db_path(&self) -> (r: &str)
        ensures
            r@ == self@.db_path,
    {
        self.db_path.as_str()
    }

    pub fn delete_target(&self) -> (r: Option<&TreeRow>)
        ensures
            match self@.delete_target {
                Some(t) => r == Some(&t),
                None => r.is_none(),
            },
    {
        self.delete_target.as_ref()
    }
}


/// The state after the scanning of system directories was turned on or off:
/// the menu and the status line say which.
pub open spec fn after_toggle_system_dirs(v: TuiAppView) -> TuiAppView {
    TuiAppView {
        scan_system_dirs: !v.scan_system_dirs,
        menu_items: v.menu_items.update(2, system_dirs_item(!v.scan_system_dirs)),
        status_message: if !v.scan_system_dirs {
            "System directories scanning: enabled"@
        } else {
            "System directories scanning: disabled"@
        },
        ..v
    }
}

/// The state after the showing of hidden files was turned on or off.
pub open spec fn after_toggle_hidden(v: TuiAppView) -> TuiAppView {
    TuiAppView {
        show_hidden: !v.show_hidden,
        status_message: if !v.show_hidden {
            "Hidden files: enabled. Rescan to apply."@
        } else {
            "Hidden files: disabled. Rescan to apply."@
        },
        ..v
    }
}

/// The state after deleting the row under the cursor was asked for: the
/// confirmation about that row, or nothing when the cursor is on no row.
pub open spec fn after_request_delete(v: TuiAppView) -> TuiAppView {
    if v.selected_index < v.rows.len() {
        TuiAppView {
            delete_target: Some(v.rows[v.selected_index as int]),
            screen: AppScreen::DeleteConfirm,
            ..v
        }
    } else {
        v
    }
}

/// The state after moving the cursor of the current screen one step down, if
/// it is not on the last item already.
pub open spec fn after_next(v: TuiAppView) -> TuiAppView {
    match v.screen {
        AppScreen::MainMenu => if v.menu_index + 1 < v.menu_items.len() {
            TuiAppView { menu_index: (v.menu_index + 1) as usize, ..v }
        } else {
            v
        },
        AppScreen::DirectoryScanMenu => if v.directory_menu_index + 1 < v.directory_menu_items.len() {
            TuiAppView { directory_menu_index: (v.directory_menu_index + 1) as usize, ..v }
        } else {
            v
        },
        AppScreen::SavedDirectoryChoice => if v.saved_choice_index + 1 < v.saved_choice_items.len() {
            TuiAppView { saved_choice_index: (v.saved_choice_index + 1) as usize, ..v }
        } else {
            v
        },
        AppScreen::DiskSelection => if v.disk_index + 1 < v.disk_rows.len() {
            TuiAppView { disk_index: (v.disk_index + 1) as usize, ..v }
        } else {
            v
        },
        AppScreen::FileTree => if v.selected_index + 1 < v.rows.len() {
            TuiAppView { selected_index: (v.selected_index + 1) as usize, ..v }
        } else {
            v
        },
        AppScreen::PathInput | AppScreen::DeleteConfirm => v,
    }
}

/// The state after moving the cursor of the current screen one step up, if it
/// is not on the first item already.
pub open spec fn after_previous(v: TuiAppView) -> TuiAppView {
    match v.screen {
        AppScreen::MainMenu => if v.menu_index > 0 {
            TuiAppView { menu_index: (v.menu_index - 1) as usize, ..v }
        } else {
            v
        },
        AppScreen::DirectoryScanMenu => if v.directory_menu_index > 0 {
            TuiAppView { directory_menu_index: (v.directory_menu_index - 1) as usize, ..v }
        } else {
            v
        },
        AppScreen::SavedDirectoryChoice => if v.saved_choice_index > 0 {
            TuiAppView { saved_choice_index: (v.saved_choice_index - 1) as usize, ..v }
        } else {
            v
        },
        AppScreen::DiskSelection => if v.disk_index > 0 {
            TuiAppView { disk_index: (v.disk_index - 1) as usize, ..v }
        } else {
            v
        },
        AppScreen::FileTree => if v.selected_index > 0 {
            TuiAppView { selected_index: (v.selected_index - 1) as usize, ..v }
        } else {
            v
        },
        AppScreen::PathInput | AppScreen::DeleteConfirm => v,
    }
}

impl TuiApp {
    fn refresh_saved_choice_items(&mut self)
        ensures
            final(self)@ == (TuiAppView {
                saved_choice_items: saved_choice_items_for(old(self)@.pending_is_disk_scan),
                ..old(self)@
            }),
    {
        self.saved_choice_items = Self::saved_choice_items_vec(self.pending_is_disk_scan);
    }

    fn refresh_menu_items(&mut self)
        requires
            old(self)@.menu_items.len() == 4,
        ensures
            final(self)@ == (TuiAppView {
                menu_items: old(self)@.menu_items.update(2, system_dirs_item(old(self)@.scan_system_dirs)),
                ..old(self)@
            }),
    {
        let item = if self.scan_system_dirs {
            text("Toggle system directories: on")
        } else {
            text("Toggle system directories: off")
        };
        let ghost before = self.menu_items@;
        self.menu_items.set(2, item);
        proof {
            assert(strings_view(self.menu_items@) =~= strings_view(before).update(
                2,
                system_dirs_item(self.scan_system_dirs),
            ));
        }
    }

    /// Turns the scanning of system directories on or off, and says so in the
    /// menu and in the status line.
    pub fn toggle_system_dirs_mode(&mut self)
        requires
            view_wf(old(self)@),
        ensures
            view_wf(final(self)@),
            final(self)@ == after_toggle_system_dirs(old(self)@),
    {
        self.scan_system_dirs = !self.scan_system_dirs;
        self.refresh_menu_items();
        self.status_message = if self.scan_system_dirs {
            text("System directories scanning: enabled")
        } else {
            text("System directories scanning: disabled")
        };
    }

    /// Turns the showing of hidden files on or off for the next scan.
    pub fn toggle_hidden_mode(&mut self)
        requires
            view_wf(old(self)@),
        ensures
            view_wf(final(self)@),
            final(self)@ == after_toggle_hidden(old(self)@),
    {
        self.show_hidden = !self.show_hidden;
        self.status_message = if self.show_hidden {
            text("Hidden files: enabled. Rescan to apply.")
        } else {
            text("Hidden files: disabled. Rescan to apply.")
        };
    }

    /// Moves the cursor of the current screen one step down.
    pub fn next(&mut self)
        requires
            view_wf(old(self)@),
        ensures
            view_wf(final(self)@),
            final(self)@ == after_next(old(self)@),
    {
        match self.screen {
            AppScreen::MainMenu => {
                if self.menu_items.len() > 0 && self.menu_index < self.menu_items.len() - 1 {
                    self.menu_index = self.menu_index + 1;
                }
            },
            AppScreen::DirectoryScanMenu => {
                if self.directory_menu_items.len() > 0 && self.directory_menu_index < self.directory_menu_items.len() - 1 {
                    self.directory_menu_index = self.directory_menu_index + 1;
                }
            },
            AppScreen::SavedDirectoryChoice => {
                if self.saved_choice_items.len() > 0 && self.saved_choice_index < self.saved_choice_items.len() - 1 {
                    self.saved_choice_index = self.saved_choice_index + 1;
                }
            },
            AppScreen::DiskSelection => {
                if self.disk_rows.len() > 0 && self.disk_index < self.disk_rows.len() - 1 {
                    self.disk_index = self.disk_index + 1;
                }
            },
            AppScreen::FileTree => {
                if self.rows.len() > 0 && self.selected_index < self.rows.len() - 1 {
                    self.selected_index = self.selected_index + 1;
                }
            },
            AppScreen::PathInput | AppScreen::DeleteConfirm => {},
        }
    }

    /// Moves the cursor of the current screen one step up.
    pub fn previous(&mut self)
        requires
            view_wf(old(self)@),
        ensures
            view_wf(final(self)@),
            final(self)@ == after_previous(old(self)@),
    {
        match self.screen {
            AppScreen::MainMenu => {
                if self.menu_index > 0 {
                    self.menu_index = self.menu_index - 1;
                }
            },
            AppScreen::DirectoryScanMenu => {
                if self.directory_menu_index > 0 {
                    self.directory_menu_index = self.directory_menu_index - 1;
                }
            },
            AppScreen::SavedDirectoryChoice => {
                if self.saved_choice_index > 0 {
                    self.saved_choice_index = self.saved_choice_index - 1;
                }
            },
            AppScreen::DiskSelection => {
                if self.disk_index > 0 {
                    self.disk_index = self.disk_index - 1;
                }
            },
            AppScreen::FileTree => {
                if self.selected_index > 0 {
                    self.selected_index = self.selected_index - 1;
                }
            },
            AppScreen::PathInput | AppScreen::DeleteConfirm => {},
        }
    }

    pub fn push_input_char(&mut self, ch: char)
        ensures
            final(self)@ == (TuiAppView { input_path: old(self)@.input_path.push(ch), ..old(self)@ }),
    {
        push_char(&mut self.input_path, ch);
    }

    pub fn pop_input_char(&mut self)
        ensures
            final(self)@ == (TuiAppView {
                input_path: if old(self)@.input_path.len() > 0 {
                    old(self)@.input_path.drop_last()
                } else {
                    old(self)@.input_path
                },
                ..old(self)@
            }),
    {
        pop_char(&mut self.input_path);
    }

    pub fn clear_input(&mut self)
        ensures
            final(self)@ == (TuiAppView { input_path: Seq::empty(), ..old(self)@ }),
    {
        self.input_path = String::new();
    }

    /// Leaves the delete confirmation without deleting.
    pub fn cancel_delete(&mut self)
        ensures
            final(self)@ == (TuiAppView {
                delete_target: None,
                screen: AppScreen::FileTree,
                ..old(self)@
            }),
    {
        self.delete_target = None;
        self.screen = AppScreen::FileTree;
    }

    /// Records that the scan just shown was saved under `scan_id` as a full scan.
    pub fn mark_scan_saved(&mut self, scan_id: i64)
        ensures
            final(self)@ == (TuiAppView {
                current_scan_id: Some(scan_id),
                current_is_full_persistent_scan: true,
                ..old(self)@
            }),
    {
        self.current_scan_id = Some(scan_id);
        self.current_is_full_persistent_scan = true;
    }

    /// Reports that the current directory could not be determined.
    pub fn current_directory_unavailable(&mut self)
        ensures
            final(self)@ == (TuiAppView {
                status_message: "Cannot get current directory"@,
                ..old(self)@
            }),
    {
        self.status_message = text("Cannot get current directory");
    }
}


/// `new` is the tree `old` with the children of every node sorted by `mode`;
/// no tree if there was none.
pub open spec fn root_sorted(old: Option<FileNode>, new: Option<FileNode>, mode: SortMode) -> bool {
    match old {
        Some(a) => new matches Some(b) && tree_sorted(a, b, mode),
        None => new is None,
    }
}

/// The cursor `i` over `n` rows, moved back onto the last row if it was past it.
pub open spec fn clamped(i: usize, n: nat) -> usize {
    if i < n {
        i
    } else if n == 0 {
        0
    } else {
        (n - 1) as usize
    }
}

/// The state after the directory under the cursor was expanded or collapsed;
/// unchanged when the cursor is not on a directory.
pub open spec fn after_toggle(v: TuiAppView) -> TuiAppView {
    if v.selected_index < v.rows.len() && v.rows[v.selected_index as int].node_type
        == NodeType::Directory {
        let p = v.rows[v.selected_index as int].path@;
        let e = if v.expanded.contains(p) {
            v.expanded.remove(p)
        } else {
            v.expanded.insert(p)
        };
        let rows = rows_of(v.root_node, e);
        TuiAppView { expanded: e, rows, selected_index: clamped(v.selected_index, rows.len()), ..v }
    } else {
        v
    }
}

impl TuiApp {
    fn rebuild_rows(&mut self)
        requires
            match old(self)@.root_node {
                Some(r) => node_count(r) <= usize::MAX,
                None => true,
            },
        ensures
            final(self)@ == (TuiAppView {
                rows: rows_of(old(self)@.root_node, old(self)@.expanded),
                ..old(self)@
            }),
    {
        let mut rows: Vec<TreeRow> = Vec::new();
        match &self.root_node {
            Some(root) => {
                collect_visible_rows(root, 0, &self.expanded_paths, &mut rows);
                assert(rows@ =~= visible_rows(*root, 0, path_set(self.expanded_paths@)));
            },
            None => {
                assert(rows@ =~= Seq::<TreeRow>::empty());
            },
        }
        self.rows = rows;
    }

    fn sort_current_tree(&mut self)
        ensures
            root_sorted(old(self)@.root_node, final(self)@.root_node, old(self)@.sort_mode),
            final(self)@ == (TuiAppView { root_node: final(self)@.root_node, ..old(self)@ }),
    {
        let mut root: Option<FileNode> = None;
        std::mem::swap(&mut root, &mut self.root_node);
        match root {
            Some(mut r) => {
                sort_node_recursive(&mut r, self.sort_mode);
                self.root_node = Some(r);
            },
            None => {},
        }
    }

    /// Sorts the tree on display by `sort_mode` and shows it again.
    pub fn set_sort_mode(&mut self, sort_mode: SortMode)
        requires
            view_wf(old(self)@),
        ensures
            view_wf(final(self)@),
            root_sorted(old(self)@.root_node, final(self)@.root_node, sort_mode),
            final(self)@ == (TuiAppView {
                sort_mode,
                root_node: final(self)@.root_node,
                rows: rows_of(final(self)@.root_node, old(self)@.expanded),
                ..old(self)@
            }),
    {
        self.sort_mode = sort_mode;
        self.sort_current_tree();
        proof {
            let v = old(self)@;
            match v.root_node {
                Some(a) => {
                    let b = self@.root_node.unwrap();
                    lemma_sorted_within_limits(a, b, sort_mode);
                    lemma_sorted_row_count(a, b, sort_mode, 0, v.expanded);
                },
                None => {},
            }
        }
        self.rebuild_rows();
    }

    /// Expands the directory under the cursor, or collapses it if it is expanded.
    pub fn toggle_selected_directory(&mut self)
        requires
            view_wf(old(self)@),
        ensures
            view_wf(final(self)@),
            final(self)@ == after_toggle(old(self)@),
    {
        if self.selected_index >= self.rows.len() {
            return;
        }
        if self.rows[self.selected_index].node_type != NodeType::Directory {
            return;
        }
        let path = self.rows[self.selected_index].path.clone();
        if contains_path(&self.expanded_paths, &path) {
            remove_path(&mut self.expanded_paths, &path);
        } else {
            insert_path(&mut self.expanded_paths, path);
        }
        self.rebuild_rows();
        if self.selected_index >= self.rows.len() {
            self.selected_index = if self.rows.len() > 0 {
                self.rows.len() - 1
            } else {
                0
            };
        }
    }

    /// Asks for confirmation to delete the entry under the cursor.
    pub fn request_delete_selected(&mut self)
        ensures
            final(self)@ == after_request_delete(old(self)@),
    {
        if self.selected_index < self.rows.len() {
            let row = self.rows[self.selected_index].duplicate();
            self.delete_target = Some(row);
            self.screen = AppScreen::DeleteConfirm;
        }
    }
}


/// The tree after the entry at `t` was deleted from `old`: the path removed,
/// the sizes calculated again and the children sorted by `mode`.
pub open spec fn root_after_delete(
    old: Option<FileNode>,
    new: Option<FileNode>,
    t: Seq<char>,
    mode: SortMode,
) -> bool {
    match old {
        Some(a) => new matches Some(b) && exists|r: FileNode, c: FileNode|
            #![trigger path_removed(a, r, t), sizes_calculated(r, c)]
            path_removed(a, r, t) && sizes_calculated(r, c) && tree_sorted(c, b, mode),
        None => new is None,
    }
}

/// What a saved full scan records of a tree: its statistics and its counts.
pub open spec fn replaces_scan_data(update: DatabaseUpdate, scan_id: i64, root: FileNode) -> bool {
    update matches DatabaseUpdate::ReplaceScanData { scan_id: id, statistics, files_count, dirs_count }
        && id == scan_id && statistics_of(root, statistics@)
        && files_count == preorder_where(root, is_not_directory()).len()
        && dirs_count == preorder_where(root, is_directory()).len()
}

/// How the saved scan follows the deletion of `t`: nothing when the tree is
/// not saved; its data replaced when it is a full scan; the path deleted from
/// it when it is a saved part of a scan.
pub open spec fn update_after_delete(
    scan_id: Option<i64>,
    full: bool,
    root: Option<FileNode>,
    t: Seq<char>,
    update: Option<DatabaseUpdate>,
) -> bool {
    match scan_id {
        None => update is None,
        Some(id) => if full {
            match root {
                Some(r) => update matches Some(u) && replaces_scan_data(u, id, r),
                None => update is None,
            }
        } else {
            update matches Some(DatabaseUpdate::DeletePath { scan_id: i, path }) && i == id && path@ == t
        },
    }
}

/// The state after the deletion of `t` from disk: the tree without it, shown
/// again, the confirmation closed.
pub open spec fn after_delete(v: TuiAppView, new_root: Option<FileNode>, t: Seq<char>) -> TuiAppView {
    let e = v.expanded.remove(t);
    let rows = rows_of(new_root, e);
    TuiAppView {
        root_node: new_root,
        expanded: e,
        rows,
        selected_index: clamped(v.selected_index, rows.len()),
        status_message: "Deleted: "@ + t,
        delete_target: None,
        screen: AppScreen::FileTree,
        ..v
    }
}


/// `new` is `old` with the path `t` removed and the sizes calculated again.
pub open spec fn root_pruned(old: Option<FileNode>, new: Option<FileNode>, t: Seq<char>) -> bool {
    match old {
        Some(a) => new matches Some(c) && exists|r: FileNode|
            path_removed(a, r, t) && #[trigger] sizes_calculated(r, c),
        None => new is None,
    }
}

impl TuiApp {
    fn prune_root(&mut self, path: &String)
        requires
            match old(self)@.root_node {
                Some(r) => within_limits(r),
                None => true,
            },
        ensures
            root_pruned(old(self)@.root_node, final(self)@.root_node, path@),
            match final(self)@.root_node {
                Some(r) => within_limits(r),
                None => true,
            },
            final(self)@ == (TuiAppView { root_node: final(self)@.root_node, ..old(self)@ }),
    {
        let mut root: Option<FileNode> = None;
        std::mem::swap(&mut root, &mut self.root_node);
        match root {
            Some(mut r) => {
                let ghost r0 = r;
                remove_node_by_path(&mut r, path);
                let ghost r1 = r;
                proof {
                    lemma_removed_within_limits(r0, r1, path@);
                }
                SizeCalculator::calculate(&mut r);
                proof {
                    lemma_calculated_within_limits(r1, r);
                    assert(path_removed(r0, r1, path@) && sizes_calculated(r1, r));
                }
                self.root_node = Some(r);
            },
            None => {},
        }
    }

    fn delete_from_tree(&mut self, path: &String)
        requires
            view_wf(old(self)@),
        ensures
            view_wf(final(self)@),
            root_after_delete(old(self)@.root_node, final(self)@.root_node, path@, old(self)@.sort_mode),
            ({
                let e = old(self)@.expanded.remove(path@);
                let rows = rows_of(final(self)@.root_node, e);
                final(self)@ == (TuiAppView {
                    root_node: final(self)@.root_node,
                    expanded: e,
                    rows,
                    selected_index: clamped(old(self)@.selected_index, rows.len()),
                    ..old(self)@
                })
            }),
    {
        self.prune_root(path);
        remove_path(&mut self.expanded_paths, path);
        let ghost pruned = self@.root_node;
        self.sort_current_tree();
        proof {
            match pruned {
                Some(c) => {
                    let b = self@.root_node.unwrap();
                    lemma_sorted_within_limits(c, b, self.sort_mode);
                    let a = old(self)@.root_node.unwrap();
                    let r = choose|r: FileNode| path_removed(a, r, path@) && #[trigger] sizes_calculated(r, c);
                    assert(path_removed(a, r, path@) && sizes_calculated(r, c) && tree_sorted(c, b, self.sort_mode));
                },
                None => {},
            }
        }
        self.rebuild_rows();
        if self.selected_index >= self.rows.len() {
            self.selected_index = if self.rows.len() > 0 {
                self.rows.len() - 1
            } else {
                0
            };
        }
    }
}

impl TuiApp {
    /// The entry that the confirmation is about, when it may be deleted: its
    /// path and its type. The root of the view may not.
    pub fn pending_deletion(&self) -> (r: Option<(String, NodeType)>)
        ensures
            match self@.delete_target {
                Some(t) => if t.depth != 0 {
                    r matches Some(x) && x.0@ == t.path@ && x.1 == t.node_type
                } else {
                    r is None
                },
                None => r is None,
            },
    {
        match &self.delete_target {
            Some(t) => if t.depth != 0 {
                Some((t.path.clone(), t.node_type))
            } else {
                None
            },
            None => None,
        }
    }

    fn database_update_after_delete(&self, deleted_path: &String) -> (update: Option<DatabaseUpdate>)
        requires
            match self@.root_node {
                Some(r) => within_limits(r),
                None => true,
            },
        ensures
            update_after_delete(
                self@.current_scan_id,
                self@.current_is_full_persistent_scan,
                self@.root_node,
                deleted_path@,
                update,
            ),
    {
        match self.current_scan_id {
            None => None,
            Some(scan_id) => if self.current_is_full_persistent_scan {
                match &self.root_node {
                    Some(root) => {
                        let statistics = StatService::group_by_categories(root);
                        let (files_count, dirs_count) = count_nodes(root);
                        Some(DatabaseUpdate::ReplaceScanData { scan_id, statistics, files_count, dirs_count })
                    },
                    None => None,
                }
            } else {
                Some(DatabaseUpdate::DeletePath { scan_id, path: deleted_path.clone() })
            },
        }
    }

    /// Ends the delete confirmation. `deleted_from_disk` says whether the
    /// entry was deleted from disk; if it was, it leaves the tree too, and
    /// the result says how the saved scan has to follow.
    pub fn confirm_delete(&mut self, deleted_from_disk: bool) -> (update: Option<DatabaseUpdate>)
        requires
            view_wf(old(self)@),
        ensures
            view_wf(final(self)@),
            match old(self)@.delete_target {
                None => update is None && final(self)@ == (TuiAppView {
                    screen: AppScreen::FileTree,
                    ..old(self)@
                }),
                Some(t) => if t.depth == 0 {
                    update is None && final(self)@ == (TuiAppView {
                        status_message: "Cannot delete root item from this view"@,
                        delete_target: None,
                        screen: AppScreen::FileTree,
                        ..old(self)@
                    })
                } else if !deleted_from_disk {
                    update is None && final(self)@ == (TuiAppView {
                        status_message: "Delete from disk failed"@,
                        delete_target: None,
                        screen: AppScreen::FileTree,
                        ..old(self)@
                    })
                } else {
                    &&& root_after_delete(
                        old(self)@.root_node,
                        final(self)@.root_node,
                        t.path@,
                        old(self)@.sort_mode,
                    )
                    &&& final(self)@ == after_delete(old(self)@, final(self)@.root_node, t.path@)
                    &&& update_after_delete(
                        old(self)@.current_scan_id,
                        old(self)@.current_is_full_persistent_scan,
                        final(self)@.root_node,
                        t.path@,
                        update,
                    )
                },
            },
    {
        let target = match &self.delete_target {
            Some(t) => t.duplicate(),
            None => {
                self.screen = AppScreen::FileTree;
                return None;
            },
        };
        if target.depth == 0 {
            self.status_message = text("Cannot delete root item from this view");
            self.delete_target = None;
            self.screen = AppScreen::FileTree;
            return None;
        }
        if !deleted_from_disk {
            self.status_message = text("Delete from disk failed");
            self.delete_target = None;
            self.screen = AppScreen::FileTree;
            return None;
        }
        self.delete_from_tree(&target.path);
        let update = self.database_update_after_delete(&target.path);
        self.status_message = joined("Deleted: ", target.path.as_str());
        self.delete_target = None;
        self.screen = AppScreen::FileTree;
        update
    }
}


/// `new` is the scanned tree `t` with its sizes calculated and the children
/// of every node sorted by `mode`.
pub open spec fn scan_shown(t: FileNode, new: Option<FileNode>, mode: SortMode) -> bool {
    new matches Some(b) && exists|c: FileNode| #[trigger] sizes_calculated(t, c) && tree_sorted(c, b, mode)
}

/// What saving the scan of `path` whose tree is `root` records: the path,
/// the size, the counts of files and of directories, and the statistics.
pub open spec fn persist_plan_for(path: Seq<char>, root: FileNode, plan: PersistPlan) -> bool {
    &&& plan.root_path@ == path
    &&& plan.total_size == root.size
    &&& plan.files_count == preorder_where(root, is_not_directory()).len()
    &&& plan.dirs_count == preorder_where(root, is_directory()).len()
    &&& statistics_of(root, plan.statistics@)
}

/// The state after a new tree was put on display: nothing expanded, the
/// cursor on the first row.
pub open spec fn showing(v: TuiAppView, new_root: Option<FileNode>) -> TuiAppView {
    TuiAppView {
        root_node: new_root,
        expanded: Set::empty(),
        rows: rows_of(new_root, Set::empty()),
        selected_index: 0,
        ..v
    }
}

/// A request to scan `path`.
pub open spec fn requests_scan(r: Option<ScanRequest>, path: Seq<char>, persist: bool) -> bool {
    r matches Some(q) && q.path@ == path && q.persist_to_database == persist
}

impl TuiApp {
    fn show_tree(&mut self, tree: FileNode)
        requires
            view_wf(old(self)@),
            within_limits(tree),
        ensures
            view_wf(final(self)@),
            root_sorted(Some(tree), final(self)@.root_node, old(self)@.sort_mode),
            final(self)@ == showing(old(self)@, final(self)@.root_node),
    {
        self.root_node = Some(tree);
        self.expanded_paths = Vec::new();
        self.selected_index = 0;
        proof {
            assert(path_set(self.expanded_paths@) =~= Set::<Seq<char>>::empty());
        }
        self.sort_current_tree();
        proof {
            lemma_sorted_within_limits(tree, self@.root_node.unwrap(), self.sort_mode);
        }
        self.rebuild_rows();
    }

    /// Decides what to do with a disk chosen for scanning. `canonical` is its
    /// mount point in canonical form, if it exists; `lookup` is what the
    /// database holds for that path. Returns the scan to perform, if any;
    /// when a saved scan exists, the user is asked first.
    pub fn request_disk_scan(&mut self, canonical: Option<String>, lookup: SavedScanLookup) -> (r: Option<ScanRequest>)
        ensures
            match canonical {
                None => r is None && final(self)@ == (TuiAppView {
                    status_message: "Disk path does not exist"@,
                    ..old(self)@
                }),
                Some(p) => match lookup {
                    SavedScanLookup::Found(scan) => r is None && final(self)@ == (TuiAppView {
                        pending_directory_path: Some(p@),
                        pending_scan: Some(scan),
                        pending_is_disk_scan: true,
                        saved_choice_index: 0,
                        saved_choice_items: saved_choice_items_for(true),
                        screen: AppScreen::SavedDirectoryChoice,
                        ..old(self)@
                    }),
                    SavedScanLookup::NotFound => requests_scan(r, p@, true) && final(self)@ == old(self)@,
                    SavedScanLookup::DatabaseUnavailable => requests_scan(r, p@, true) && final(self)@ == (TuiAppView {
                        status_message: "Cannot open database. Scanning disk without saved check."@,
                        ..old(self)@
                    }),
                    SavedScanLookup::LookupFailed => requests_scan(r, p@, true) && final(self)@ == (TuiAppView {
                        status_message: "Database search failed. Scanning disk again."@,
                        ..old(self)@
                    }),
                },
            },
    {
        let path = match canonical {
            Some(p) => p,
            None => {
                self.status_message = text("Disk path does not exist");
                return None;
            },
        };
        match lookup {
            SavedScanLookup::Found(scan) => {
                self.pending_directory_path = Some(path);
                self.pending_scan = Some(scan);
                self.pending_is_disk_scan = true;
                self.saved_choice_index = 0;
                self.refresh_saved_choice_items();
                self.screen = AppScreen::SavedDirectoryChoice;
                None
            },
            SavedScanLookup::NotFound => Some(ScanRequest { path, persist_to_database: true }),
            SavedScanLookup::DatabaseUnavailable => {
                self.status_message = text("Cannot open database. Scanning disk without saved check.");
                Some(ScanRequest { path, persist_to_database: true })
            },
            SavedScanLookup::LookupFailed => {
                self.status_message = text("Database search failed. Scanning disk again.");
                Some(ScanRequest { path, persist_to_database: true })
            },
        }
    }

    /// Decides what to do with a directory chosen for scanning. `check` is
    /// what the file system says of the path; `lookup` is what the database
    /// holds for its canonical form. Returns the scan to perform, if any;
    /// when a saved scan holds the directory, the user is asked first.
    pub fn request_directory_scan(&mut self, check: DirectoryCheck, lookup: SavedScanLookup) -> (r: Option<ScanRequest>)
        ensures
            match check {
                DirectoryCheck::Missing => r is None && final(self)@ == (TuiAppView {
                    status_message: "Directory does not exist"@,
                    ..old(self)@
                }),
                DirectoryCheck::NotDirectory => r is None && final(self)@ == (TuiAppView {
                    status_message: "Path is not a directory"@,
                    ..old(self)@
                }),
                DirectoryCheck::Directory(p) => match lookup {
                    SavedScanLookup::Found(scan) => r is None && final(self)@ == (TuiAppView {
                        pending_directory_path: Some(p@),
                        pending_scan: Some(scan),
                        saved_choice_index: 0,
                        screen: AppScreen::SavedDirectoryChoice,
                        ..old(self)@
                    }),
                    SavedScanLookup::NotFound => requests_scan(r, p@, false) && final(self)@ == old(self)@,
                    SavedScanLookup::DatabaseUnavailable => requests_scan(r, p@, false) && final(self)@ == (TuiAppView {
                        status_message: "Cannot open database"@,
                        ..old(self)@
                    }),
                    SavedScanLookup::LookupFailed => requests_scan(r, p@, false) && final(self)@ == (TuiAppView {
                        status_message: "Database search failed. Scanning without saving."@,
                        ..old(self)@
                    }),
                },
            },
    {
        let path = match check {
            DirectoryCheck::Missing => {
                self.status_message = text("Directory does not exist");
                return None;
            },
            DirectoryCheck::NotDirectory => {
                self.status_message = text("Path is not a directory");
                return None;
            },
            DirectoryCheck::Directory(p) => p,
        };
        match lookup {
            SavedScanLookup::Found(scan) => {
                self.pending_directory_path = Some(path);
                self.pending_scan = Some(scan);
                self.saved_choice_index = 0;
                self.screen = AppScreen::SavedDirectoryChoice;
                None
            },
            SavedScanLookup::NotFound => Some(ScanRequest { path, persist_to_database: false }),
            SavedScanLookup::DatabaseUnavailable => {
                self.status_message = text("Cannot open database");
                Some(ScanRequest { path, persist_to_database: false })
            },
            SavedScanLookup::LookupFailed => {
                self.status_message = text("Database search failed. Scanning without saving.");
                Some(ScanRequest { path, persist_to_database: false })
            },
        }
    }

    /// The pending path to scan again, saved if it is a disk, unsaved if it
    /// is a directory.
    pub fn scan_pending_path_again(&mut self) -> (r: Option<ScanRequest>)
        ensures
            match old(self)@.pending_directory_path {
                None => r is None && final(self)@ == (TuiAppView {
                    status_message: "No pending path"@,
                    ..old(self)@
                }),
                Some(p) => requests_scan(r, p, old(self)@.pending_is_disk_scan) && final(self)@ == old(self)@,
            },
    {
        match &self.pending_directory_path {
            Some(p) => Some(ScanRequest { path: p.clone(), persist_to_database: self.pending_is_disk_scan }),
            None => {
                self.status_message = text("No pending path");
                None
            },
        }
    }

    /// The saved version to load: the pending path and the id of the saved
    /// scan, when both are known.
    pub fn saved_version_to_load(&self) -> (r: Option<(String, i64)>)
        ensures
            match (self@.pending_directory_path, self@.pending_scan) {
                (Some(p), Some(scan)) => match scan.id {
                    Some(id) => r matches Some(x) && x.0@ == p && x.1 == id,
                    None => r is None,
                },
                _ => r is None,
            },
    {
        match (&self.pending_directory_path, &self.pending_scan) {
            (Some(p), Some(scan)) => match scan.id {
                Some(id) => Some((p.clone(), id)),
                None => None,
            },
            _ => None,
        }
    }

    /// Shows the saved version of the pending directory. `outcome` is what
    /// loading it from the database gave; it counts only when the pending
    /// path and the saved scan with its id are known.
    pub fn open_saved_directory_version(&mut self, outcome: SubtreeLoad)
        requires
            view_wf(old(self)@),
            outcome matches SubtreeLoad::Loaded(t) ==> within_limits(t),
        ensures
            view_wf(final(self)@),
            match (old(self)@.pending_directory_path, old(self)@.pending_scan) {
                (None, _) => final(self)@ == (TuiAppView {
                    status_message: "No pending directory"@,
                    ..old(self)@
                }),
                (Some(_), None) => final(self)@ == (TuiAppView {
                    status_message: "No saved scan"@,
                    ..old(self)@
                }),
                (Some(_), Some(scan)) => match scan.id {
                    None => final(self)@ == (TuiAppView {
                        status_message: "Saved scan has no id"@,
                        ..old(self)@
                    }),
                    Some(id) => match outcome {
                        SubtreeLoad::DatabaseUnavailable => final(self)@ == (TuiAppView {
                            status_message: "Scan completed, but database open failed"@,
                            ..old(self)@
                        }),
                        SubtreeLoad::LoadFailed => final(self)@ == (TuiAppView {
                            status_message: "Cannot load saved directory"@,
                            ..old(self)@
                        }),
                        SubtreeLoad::Loaded(t) => {
                            &&& root_sorted(Some(t), final(self)@.root_node, old(self)@.sort_mode)
                            &&& final(self)@ == (TuiAppView {
                                current_scan_id: Some(id),
                                current_is_full_persistent_scan: false,
                                screen: AppScreen::FileTree,
                                status_message: "Opened saved version from "@ + scan.started_at@,
                                ..showing(old(self)@, final(self)@.root_node)
                            })
                        },
                    },
                },
            },
    {
        if self.pending_directory_path.is_none() {
            self.status_message = text("No pending directory");
            return;
        }
        let (scan_id, started_at) = match &self.pending_scan {
            None => {
                self.status_message = text("No saved scan");
                return;
            },
            Some(scan) => match scan.id {
                None => {
                    self.status_message = text("Saved scan has no id");
                    return;
                },
                Some(id) => (id, scan.started_at.clone()),
            },
        };
        match outcome {
            SubtreeLoad::DatabaseUnavailable => {
                self.status_message = text("Scan completed, but database open failed");
            },
            SubtreeLoad::LoadFailed => {
                self.status_message = text("Cannot load saved directory");
            },
            SubtreeLoad::Loaded(tree) => {
                self.show_tree(tree);
                self.current_scan_id = Some(scan_id);
                self.current_is_full_persistent_scan = false;
                self.screen = AppScreen::FileTree;
                self.status_message = joined("Opened saved version from ", started_at.as_str());
            },
        }
    }

    fn show_scanned(&mut self, tree: FileNode)
        requires
            view_wf(old(self)@),
            within_limits(tree),
        ensures
            view_wf(final(self)@),
            scan_shown(tree, final(self)@.root_node, old(self)@.sort_mode),
            final(self)@ == showing(old(self)@, final(self)@.root_node),
    {
        let mut tree = tree;
        let ghost t0 = tree;
        SizeCalculator::calculate(&mut tree);
        let ghost c = tree;
        proof {
            lemma_calculated_within_limits(t0, tree);
        }
        self.show_tree(tree);
        proof {
            assert(sizes_calculated(t0, c) && tree_sorted(c, self@.root_node.unwrap(), self.sort_mode));
        }
    }

    fn persist_plan(&self, path: &str) -> (plan: Option<PersistPlan>)
        requires
            self@.root_node matches Some(r) && within_limits(r),
        ensures
            plan matches Some(pl) && persist_plan_for(path@, self@.root_node.unwrap(), pl),
    {
        match &self.root_node {
            Some(root) => {
                let statistics = StatService::group_by_categories(root);
                let (files_count, dirs_count) = count_nodes(root);
                Some(PersistPlan { root_path: text(path), total_size: root.size, files_count, dirs_count, statistics })
            },
            None => None,
        }
    }

    /// Shows the tree that the scan of `path` produced, or says that the scan
    /// failed. When the scan is to be saved, returns what to save.
    #[verifier::rlimit(30)]
    pub fn scan_path(&mut self, path: &str, persist_to_database: bool, scanned: Option<FileNode>) -> (plan: Option<PersistPlan>)
        requires
            view_wf(old(self)@),
            scanned matches Some(t) ==> within_limits(t),
        ensures
            view_wf(final(self)@),
            match scanned {
                None => plan is None && final(self)@ == (TuiAppView {
                    status_message: "Scan failed"@,
                    ..old(self)@
                }),
                Some(t) => {
                    &&& scan_shown(t, final(self)@.root_node, old(self)@.sort_mode)
                    &&& final(self)@ == (TuiAppView {
                        current_scan_id: None,
                        current_is_full_persistent_scan: false,
                        screen: AppScreen::FileTree,
                        status_message: "Scan completed"@,
                        ..showing(old(self)@, final(self)@.root_node)
                    })
                    &&& if persist_to_database {
                        plan matches Some(pl) && persist_plan_for(path@, final(self)@.root_node.unwrap(), pl)
                    } else {
                        plan is None
                    }
                },
            },
    {
        let tree = match scanned {
            Some(t) => t,
            None => {
                self.status_message = text("Scan failed");
                return None;
            },
        };
        self.show_scanned(tree);
        self.current_scan_id = None;
        self.current_is_full_persistent_scan = false;
        let plan = if persist_to_database {
            self.persist_plan(path)
        } else {
            None
        };
        self.screen = AppScreen::FileTree;
        self.status_message = text("Scan completed");
        plan
    }
}


/// After a confirmed deletion, an entry whose path occurred once below the
/// root of the view no longer occurs anywhere below it.
pub proof fn lemma_deleted_entry_is_gone(
    old: Option<FileNode>,
    new: Option<FileNode>,
    t: Seq<char>,
    mode: SortMode,
)
    requires
        root_after_delete(old, new, t, mode),
        old matches Some(a) && occurrences_below(a, t) == 1,
    ensures
        new matches Some(b) && !found_below(b, t),
{
    let a = old.unwrap();
    let b = new.unwrap();
    let (r, c) = choose|r: FileNode, c: FileNode|
        #![trigger path_removed(a, r, t), sizes_calculated(r, c)]
        path_removed(a, r, t) && sizes_calculated(r, c) && tree_sorted(c, b, mode);
    lemma_found_count(a, t);
    lemma_removal_takes_path_out(a, r, t);
    lemma_calculated_count(r, c, t);
    lemma_sorted_count(c, b, mode, t);
    lemma_found_count(b, t);
}

/// Expanding or collapsing the directory under the cursor keeps the cursor
/// and the rows before it, and flips that row; doing it twice gives back the
/// rows, the cursor and the expanded paths. This holds when the directory's
/// path does not occur on an earlier row (no two entries of a scanned tree
/// share a path).
pub proof fn lemma_toggle_twice(v: TuiAppView)
    requires
        view_wf(v),
        v.selected_index < v.rows.len(),
        v.rows[v.selected_index as int].node_type == NodeType::Directory,
        no_path_before(v.rows, v.rows[v.selected_index as int].path@, v.selected_index as int),
    ensures
        after_toggle(v).selected_index == v.selected_index,
        after_toggle(v).rows.take(v.selected_index as int) == v.rows.take(v.selected_index as int),
        after_toggle(v).rows[v.selected_index as int] == (TreeRow {
            is_expanded: !v.rows[v.selected_index as int].is_expanded,
            ..v.rows[v.selected_index as int]
        }),
        after_toggle(after_toggle(v)) == v,
{
    let i = v.selected_index as int;
    let p = v.rows[i].path@;
    let e = v.expanded;
    let e1 = if e.contains(p) { e.remove(p) } else { e.insert(p) };
    let root = v.root_node.unwrap();
    assert(v.rows == visible_rows(root, 0, e));
    assert(agree_except(e, e1, p));
    lemma_rows_prefix(root, 0, e, e1, p, i);
    lemma_rows_flag(root, 0, e);
    let v1 = after_toggle(v);
    assert(v1.rows == visible_rows(root, 0, e1));
    assert(v1.selected_index == v.selected_index);
    assert(v1.rows[i].path@ == p);
    assert(v1.rows[i].node_type == NodeType::Directory);
    let e2 = if e1.contains(p) { e1.remove(p) } else { e1.insert(p) };
    assert(e2 =~= e);
    assert(after_toggle(v1).expanded == e);
    assert(after_toggle(v1).rows == v.rows);
}

/// The status line after the scanning of system directories was set to `on`.
pub open spec fn system_dirs_status(on: bool) -> Seq<char> {
    if on {
        "System directories scanning: enabled"@
    } else {
        "System directories scanning: disabled"@
    }
}

/// The status line after the showing of hidden files was set to `on`.
pub open spec fn hidden_status(on: bool) -> Seq<char> {
    if on {
        "Hidden files: enabled. Rescan to apply."@
    } else {
        "Hidden files: disabled. Rescan to apply."@
    }
}

/// Turning the scanning of system directories on or off twice leaves the
/// state as it was, the menu included; only the status line tells of it.
pub proof fn lemma_toggle_system_dirs_twice(v: TuiAppView)
    requires
        view_wf(v),
    ensures
        after_toggle_system_dirs(after_toggle_system_dirs(v)) == (TuiAppView {
            status_message: system_dirs_status(v.scan_system_dirs),
            ..v
        }),
{
    let w = after_toggle_system_dirs(after_toggle_system_dirs(v));
    assert(w.menu_items =~= v.menu_items);
}

/// Turning the showing of hidden files on or off twice leaves the state as
/// it was; only the status line tells of it.
pub proof fn lemma_toggle_hidden_twice(v: TuiAppView)
    ensures
        after_toggle_hidden(after_toggle_hidden(v)) == (TuiAppView {
            status_message: hidden_status(v.show_hidden),
            ..v
        }),
{
}

/// Moving the cursor down and then up, when it did move, brings it back.
pub proof fn lemma_next_then_previous(v: TuiAppView)
    requires
        view_wf(v),
        after_next(v) != v,
    ensures
        after_previous(after_next(v)) == v,
{
}

/// Moving the cursor up and then down, when it did move, brings it back.
pub proof fn lemma_previous_then_next(v: TuiAppView)
    requires
        view_wf(v),
        after_previous(v) != v,
    ensures
        after_next(after_previous(v)) == v,
{
}

/// The cursor moves keep the invariant of the state.
pub proof fn lemma_cursor_moves_keep_wf(v: TuiAppView)
    requires
        view_wf(v),
    ensures
        view_wf(after_next(v)),
        view_wf(after_previous(v)),
{
}

} // verus!
