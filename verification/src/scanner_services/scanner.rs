//! The decisions of a scan. Reading the file system, and scanning the
//! children of a directory in parallel, happen around them.

use vstd::prelude::*;
use crate::models::{FileNode, NodeType};
use crate::text::chars_of;

verus! {

/// Whether `path`, read as a file system path, begins with the components of `prefix`.
pub uninterp spec fn path_has_prefix(path: Seq<char>, prefix: Seq<char>) -> bool;

/// Calls `std::path::Path::starts_with`, which compares whole path
/// components (so `/procfs` does not begin with `/proc`). The contract names
/// its result on the two strings and says nothing more of it.
#[verifier::external_body]
fn path_starts_with(path: &str, prefix: &str) -> (r: bool)
    ensures
        r == path_has_prefix(path@, prefix@),
{
    std::path::Path::new(path).starts_with(prefix)
}

/// What `Path::file_name` gives for this path: its final component, if it
/// has one that is a name.
pub uninterp spec fn file_name_of(path: Seq<char>) -> Option<Seq<char>>;

/// Calls `std::path::Path::file_name` and turns the name into a string (a
/// name taken from a string is valid UTF-8, so nothing is lost). The
/// contract names the result on the path and says nothing more of it.
#[verifier::external_body]
fn path_file_name(path: &str) -> (r: Option<String>)
    ensures
        file_name_of(path@) == match r {
            Some(n) => Some(n@),
            None => None,
        },
{
    match std::path::Path::new(path).file_name() {
        Some(name) => Some(name.to_string_lossy().into_owned()),
        None => None,
    }
}

/// What `Path::extension` gives for this path: the part of the file name
/// after its last dot, if there is one.
pub uninterp spec fn extension_of(path: Seq<char>) -> Option<Seq<char>>;

/// Calls `std::path::Path::extension` and turns the extension into a
/// string. The contract names the result on the path and says nothing more
/// of it.
#[verifier::external_body]
fn path_extension(path: &str) -> (r: Option<String>)
    ensures
        extension_of(path@) == match r {
            Some(e) => Some(e@),
            None => None,
        },
{
    match std::path::Path::new(path).extension() {
        Some(extension) => Some(extension.to_string_lossy().into_owned()),
        None => None,
    }
}

/// The name of the entry at `path`: its file name, or the whole path when
/// it has none (a root, for instance).
pub open spec fn entry_name_of(path: Seq<char>) -> Seq<char> {
    match file_name_of(path) {
        Some(n) => n,
        None => path,
    }
}

/// What the file system says an entry is.
#[derive(Debug, Clone, Copy, PartialEq, Eq, Structural)]
pub enum EntryKind {
    Symlink,
    File,
    Directory,
    /// Anything else (a socket, a device, ...); a scan leaves it out.
    Other,
}

/// The directories that are left out unless system directories are scanned.
pub open spec fn is_system_path(path: Seq<char>) -> bool {
    ||| path_has_prefix(path, "/proc"@)
    ||| path_has_prefix(path, "/sys"@)
    ||| path_has_prefix(path, "/dev"@)
    ||| path_has_prefix(path, "/run"@)
    ||| path_has_prefix(path, "/tmp"@)
}

/// A hidden name: one that begins with a dot.
pub open spec fn is_hidden_name(name: Seq<char>) -> bool {
    name.len() > 0 && name[0] == '.'
}

/// The node that stands for an entry: files and symlinks keep their size
/// and extension; a directory starts with size 0, no extension, and the
/// children that were found in it; anything else has no node.
pub open spec fn entry_node_spec(
    path: Seq<char>,
    name: Seq<char>,
    extension: Option<Seq<char>>,
    kind: EntryKind,
    size: u64,
    children: Seq<FileNode>,
    node: Option<FileNode>,
) -> bool {
    match kind {
        EntryKind::Other => node is None,
        _ => node matches Some(n) && {
            &&& n.id is None
            &&& n.parent_id is None
            &&& n.path@ == path
            &&& n.name@ == name
            &&& n.category is None
            &&& match kind {
                EntryKind::Directory => {
                    &&& n.node_type == NodeType::Directory
                    &&& n.size == 0
                    &&& n.extension is None
                    &&& n.children@ == children
                },
                _ => {
                    &&& n.node_type == (if kind == EntryKind::Symlink {
                        NodeType::Symlink
                    } else {
                        NodeType::File
                    })
                    &&& n.size == size
                    &&& match (n.extension, extension) {
                        (Some(e), Some(x)) => e@ == x,
                        (None, None) => true,
                        _ => false,
                    }
                    &&& n.children@.len() == 0
                },
            }
        },
    }
}

/// The options of a scan.
pub struct Scanner {
    pub show_hidden: bool,
    pub scan_system_dirs: bool,
}

impl Scanner {
    /// A scanner that leaves system directories out.
    pub fn new(show_hidden: bool) -> (s: Self)
        ensures
            s.show_hidden == show_hidden,
            !s.scan_system_dirs,
    {
        Scanner { show_hidden, scan_system_dirs: false }
    }

    pub fn new_with_options(show_hidden: bool, scan_system_dirs: bool) -> (s: Self)
        ensures
            s.show_hidden == show_hidden,
            s.scan_system_dirs == scan_system_dirs,
    {
        Scanner { show_hidden, scan_system_dirs }
    }

    /// Whether the scan leaves `path` out: a system directory, or a path
    /// below one, unless system directories are scanned.
    pub fn should_skip_path(&self, path: &str) -> (r: bool)
        ensures
            r == (!self.scan_system_dirs && is_system_path(path@)),
            self.scan_system_dirs ==> !r,
            !self.scan_system_dirs && path_has_prefix(path@, "/proc"@) ==> r,
            !self.scan_system_dirs && path_has_prefix(path@, "/sys"@) ==> r,
            !self.scan_system_dirs && path_has_prefix(path@, "/dev"@) ==> r,
            !self.scan_system_dirs && path_has_prefix(path@, "/run"@) ==> r,
            !self.scan_system_dirs && path_has_prefix(path@, "/tmp"@) ==> r,
            r ==> path_has_prefix(path@, "/proc"@) || path_has_prefix(path@, "/sys"@)
                || path_has_prefix(path@, "/dev"@) || path_has_prefix(path@, "/run"@)
                || path_has_prefix(path@, "/tmp"@),
    {
        if self.scan_system_dirs {
            return false;
        }
        path_starts_with(path, "/proc") || path_starts_with(path, "/sys") || path_starts_with(
            path,
            "/dev",
        ) || path_starts_with(path, "/run") || path_starts_with(path, "/tmp")
    }

    /// Whether the scan leaves out an entry of this name: a hidden one,
    /// unless hidden entries are shown.
    pub fn should_skip_name(&self, name: &str) -> (r: bool)
        ensures
            r == (!self.show_hidden && is_hidden_name(name@)),
    {
        if self.show_hidden {
            return false;
        }
        let chars = chars_of(name);
        chars.len() > 0 && chars[0] == '.'
    }

    /// The name of the entry at `path`: its file name, or the whole path
    /// when it has none.
    pub fn entry_name(path: &str) -> (r: String)
        ensures
            r@ == entry_name_of(path@),
    {
        match path_file_name(path) {
            Some(name) => name,
            None => path.to_owned(),
        }
    }

    /// The node for an entry of kind `kind` at `path`, named and given an
    /// extension after its path. `children` are the nodes found in a
    /// directory; other kinds ignore them.
    pub fn entry_node(path: String, kind: EntryKind, size: u64, children: Vec<FileNode>) -> (node: Option<
        FileNode,
    >)
        ensures
            entry_node_spec(path@, entry_name_of(path@), extension_of(path@), kind, size, children@, node),
    {
        let name = Self::entry_name(path.as_str());
        let extension = path_extension(path.as_str());
        match kind {
            EntryKind::Other => None,
            EntryKind::Directory => Some(
                FileNode {
                    id: None,
                    parent_id: None,
                    path,
                    name,
                    extension: None,
                    size: 0,
                    node_type: NodeType::Directory,
                    children,
                    category: None,
                },
            ),
            EntryKind::Symlink => Some(
                FileNode {
                    id: None,
                    parent_id: None,
                    path,
                    name,
                    extension,
                    size,
                    node_type: NodeType::Symlink,
                    children: Vec::new(),
                    category: None,
                },
            ),
            EntryKind::File => Some(
                FileNode {
                    id: None,
                    parent_id: None,
                    path,
                    name,
                    extension,
                    size,
                    node_type: NodeType::File,
                    children: Vec::new(),
                    category: None,
                },
            ),
        }
    }
}

} // verus!
