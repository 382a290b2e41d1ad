//! Grouping of the files of a tree into categories, with the share of the
//! space that each category takes.

use vstd::prelude::*;
use crate::models::{
    FileNode, NodeType, FileCategory, FileStatistic, Percentage, preorder_where,
    forest_preorder_where, sizes_sum, node_count, lemma_sizes_sum_concat, lemma_where_len,
    lemma_forest_where_prefix, lemma_where_children, lemma_forest_where_step,
};
use crate::text::{normalized_extension, normalize_extension, is_ascii_text, ascii_lowercase, trim_leading_dots};
use crate::sort_service::{
    SortKey, sorted_arrangement, keys_view, key_less, stable_sort, lemma_arrangement_onto,
};
use crate::text::lemma_lex_irreflexive;
use crate::stat_services::system_info_service::SystemInfoService;

verus! {

pub open spec fn is_video_extension(e: Seq<char>) -> bool {
    e == "mp4"@ || e == "mkv"@ || e == "avi"@ || e == "mov"@ || e == "webm"@
}

pub open spec fn is_audio_extension(e: Seq<char>) -> bool {
    e == "mp3"@ || e == "wav"@ || e == "flac"@ || e == "ogg"@
}

pub open spec fn is_document_extension(e: Seq<char>) -> bool {
    e == "pdf"@ || e == "doc"@ || e == "docx"@ || e == "txt"@ || e == "odt"@ || e == "rtf"@
}

pub open spec fn is_code_extension(e: Seq<char>) -> bool {
    e == "rs"@ || e == "py"@ || e == "js"@ || e == "ts"@ || e == "html"@ || e == "css"@ || e == "c"@
        || e == "cpp"@ || e == "java"@
}

pub open spec fn is_archive_extension(e: Seq<char>) -> bool {
    e == "zip"@ || e == "rar"@ || e == "7z"@ || e == "tar"@ || e == "gz"@
}

pub open spec fn is_image_extension(e: Seq<char>) -> bool {
    e == "png"@ || e == "jpg"@ || e == "jpeg"@ || e == "gif"@ || e == "svg"@ || e == "webp"@
}

/// The category of a normalized extension; the lists are tried in this order.
pub open spec fn category_of_normalized(e: Seq<char>) -> FileCategory {
    if is_video_extension(e) {
        FileCategory::Video
    } else if is_audio_extension(e) {
        FileCategory::Audio
    } else if is_document_extension(e) {
        FileCategory::Documents
    } else if is_code_extension(e) {
        FileCategory::Code
    } else if is_archive_extension(e) {
        FileCategory::Archives
    } else if is_image_extension(e) {
        FileCategory::Images
    } else {
        FileCategory::Other
    }
}

/// No extension but those of a category's own list is classified into that
/// category; every other extension is `Other`.
pub proof fn lemma_only_listed_extensions(e: Seq<char>)
    ensures
        category_of_normalized(e) == FileCategory::Video ==> e == "mp4"@ || e == "mkv"@ || e == "avi"@ || e == "mov"@ || e == "webm"@,
        category_of_normalized(e) == FileCategory::Audio ==> e == "mp3"@ || e == "wav"@ || e == "flac"@ || e == "ogg"@,
        category_of_normalized(e) == FileCategory::Documents ==> e == "pdf"@ || e == "doc"@ || e == "docx"@ || e == "txt"@ || e == "odt"@ || e == "rtf"@,
        category_of_normalized(e) == FileCategory::Code ==> e == "rs"@ || e == "py"@ || e == "js"@ || e == "ts"@ || e == "html"@ || e == "css"@ || e == "c"@ || e == "cpp"@ || e == "java"@,
        category_of_normalized(e) == FileCategory::Archives ==> e == "zip"@ || e == "rar"@ || e == "7z"@ || e == "tar"@ || e == "gz"@,
        category_of_normalized(e) == FileCategory::Images ==> e == "png"@ || e == "jpg"@ || e == "jpeg"@ || e == "gif"@ || e == "svg"@ || e == "webp"@,
        category_of_normalized(e) != FileCategory::NoExtension,
{
}

/// The category of an (optional) extension.
pub open spec fn category_of(extension: Option<Seq<char>>) -> FileCategory {
    match extension {
        None => FileCategory::NoExtension,
        Some(e) => category_of_normalized(normalized_extension(e)),
    }
}

/// Every extension of the six fixed lists is classified into its own list's
/// category: mp4, mkv, avi, mov and webm are video; mp3, wav, flac and ogg are
/// audio; pdf, doc, docx, txt, odt and rtf are documents; rs, py, js, ts, html,
/// css, c, cpp and java are code; zip, rar, 7z, tar and gz are archives; png,
/// jpg, jpeg, gif, svg and webp are images. An extension on no list, such as
/// exe, is `Other`.
pub proof fn lemma_listed_extension_categories()
    ensures
        category_of_normalized("mp4"@) == FileCategory::Video,
        category_of_normalized("mkv"@) == FileCategory::Video,
        category_of_normalized("avi"@) == FileCategory::Video,
        category_of_normalized("mov"@) == FileCategory::Video,
        category_of_normalized("webm"@) == FileCategory::Video,
        category_of_normalized("mp3"@) == FileCategory::Audio,
        category_of_normalized("wav"@) == FileCategory::Audio,
        category_of_normalized("flac"@) == FileCategory::Audio,
        category_of_normalized("ogg"@) == FileCategory::Audio,
        category_of_normalized("pdf"@) == FileCategory::Documents,
        category_of_normalized("doc"@) == FileCategory::Documents,
        category_of_normalized("docx"@) == FileCategory::Documents,
        category_of_normalized("txt"@) == FileCategory::Documents,
        category_of_normalized("odt"@) == FileCategory::Documents,
        category_of_normalized("rtf"@) == FileCategory::Documents,
        category_of_normalized("rs"@) == FileCategory::Code,
        category_of_normalized("py"@) == FileCategory::Code,
        category_of_normalized("js"@) == FileCategory::Code,
        category_of_normalized("ts"@) == FileCategory::Code,
        category_of_normalized("html"@) == FileCategory::Code,
        category_of_normalized("css"@) == FileCategory::Code,
        category_of_normalized("c"@) == FileCategory::Code,
        category_of_normalized("cpp"@) == FileCategory::Code,
        category_of_normalized("java"@) == FileCategory::Code,
        category_of_normalized("zip"@) == FileCategory::Archives,
        category_of_normalized("rar"@) == FileCategory::Archives,
        category_of_normalized("7z"@) == FileCategory::Archives,
        category_of_normalized("tar"@) == FileCategory::Archives,
        category_of_normalized("gz"@) == FileCategory::Archives,
        category_of_normalized("png"@) == FileCategory::Images,
        category_of_normalized("jpg"@) == FileCategory::Images,
        category_of_normalized("jpeg"@) == FileCategory::Images,
        category_of_normalized("gif"@) == FileCategory::Images,
        category_of_normalized("svg"@) == FileCategory::Images,
        category_of_normalized("webp"@) == FileCategory::Images,
        category_of_normalized("exe"@) == FileCategory::Other,
{
    reveal_strlit("mp4");
    reveal_strlit("mkv");
    reveal_strlit("avi");
    reveal_strlit("mov");
    reveal_strlit("webm");
    reveal_strlit("mp3");
    reveal_strlit("wav");
    reveal_strlit("flac");
    reveal_strlit("ogg");
    reveal_strlit("pdf");
    reveal_strlit("doc");
    reveal_strlit("docx");
    reveal_strlit("txt");
    reveal_strlit("odt");
    reveal_strlit("rtf");
    reveal_strlit("rs");
    reveal_strlit("py");
    reveal_strlit("js");
    reveal_strlit("ts");
    reveal_strlit("html");
    reveal_strlit("css");
    reveal_strlit("c");
    reveal_strlit("cpp");
    reveal_strlit("java");
    reveal_strlit("zip");
    reveal_strlit("rar");
    reveal_strlit("7z");
    reveal_strlit("tar");
    reveal_strlit("gz");
    reveal_strlit("png");
    reveal_strlit("jpg");
    reveal_strlit("jpeg");
    reveal_strlit("gif");
    reveal_strlit("svg");
    reveal_strlit("webp");
    reveal_strlit("exe");
    assert("mp4"@.len() == 3 && "mp4"@[0] == 'm' && "mp4"@[1] == 'p' && "mp4"@[2] == '4');
    assert("mkv"@.len() == 3 && "mkv"@[0] == 'm' && "mkv"@[1] == 'k' && "mkv"@[2] == 'v');
    assert("avi"@.len() == 3 && "avi"@[0] == 'a' && "avi"@[1] == 'v' && "avi"@[2] == 'i');
    assert("mov"@.len() == 3 && "mov"@[0] == 'm' && "mov"@[1] == 'o' && "mov"@[2] == 'v');
    assert("webm"@.len() == 4 && "webm"@[0] == 'w' && "webm"@[1] == 'e' && "webm"@[2] == 'b' && "webm"@[3] == 'm');
    assert("mp3"@.len() == 3 && "mp3"@[0] == 'm' && "mp3"@[1] == 'p' && "mp3"@[2] == '3');
    assert("wav"@.len() == 3 && "wav"@[0] == 'w' && "wav"@[1] == 'a' && "wav"@[2] == 'v');
    assert("flac"@.len() == 4 && "flac"@[0] == 'f' && "flac"@[1] == 'l' && "flac"@[2] == 'a' && "flac"@[3] == 'c');
    assert("ogg"@.len() == 3 && "ogg"@[0] == 'o' && "ogg"@[1] == 'g' && "ogg"@[2] == 'g');
    assert("pdf"@.len() == 3 && "pdf"@[0] == 'p' && "pdf"@[1] == 'd' && "pdf"@[2] == 'f');
    assert("doc"@.len() == 3 && "doc"@[0] == 'd' && "doc"@[1] == 'o' && "doc"@[2] == 'c');
    assert("docx"@.len() == 4 && "docx"@[0] == 'd' && "docx"@[1] == 'o' && "docx"@[2] == 'c' && "docx"@[3] == 'x');
    assert("txt"@.len() == 3 && "txt"@[0] == 't' && "txt"@[1] == 'x' && "txt"@[2] == 't');
    assert("odt"@.len() == 3 && "odt"@[0] == 'o' && "odt"@[1] == 'd' && "odt"@[2] == 't');
    assert("rtf"@.len() == 3 && "rtf"@[0] == 'r' && "rtf"@[1] == 't' && "rtf"@[2] == 'f');
    assert("rs"@.len() == 2 && "rs"@[0] == 'r' && "rs"@[1] == 's');
    assert("py"@.len() == 2 && "py"@[0] == 'p' && "py"@[1] == 'y');
    assert("js"@.len() == 2 && "js"@[0] == 'j' && "js"@[1] == 's');
    assert("ts"@.len() == 2 && "ts"@[0] == 't' && "ts"@[1] == 's');
    assert("html"@.len() == 4 && "html"@[0] == 'h' && "html"@[1] == 't' && "html"@[2] == 'm' && "html"@[3] == 'l');
    assert("css"@.len() == 3 && "css"@[0] == 'c' && "css"@[1] == 's' && "css"@[2] == 's');
    assert("c"@.len() == 1 && "c"@[0] == 'c');
    assert("cpp"@.len() == 3 && "cpp"@[0] == 'c' && "cpp"@[1] == 'p' && "cpp"@[2] == 'p');
    assert("java"@.len() == 4 && "java"@[0] == 'j' && "java"@[1] == 'a' && "java"@[2] == 'v' && "java"@[3] == 'a');
    assert("zip"@.len() == 3 && "zip"@[0] == 'z' && "zip"@[1] == 'i' && "zip"@[2] == 'p');
    assert("rar"@.len() == 3 && "rar"@[0] == 'r' && "rar"@[1] == 'a' && "rar"@[2] == 'r');
    assert("7z"@.len() == 2 && "7z"@[0] == '7' && "7z"@[1] == 'z');
    assert("tar"@.len() == 3 && "tar"@[0] == 't' && "tar"@[1] == 'a' && "tar"@[2] == 'r');
    assert("gz"@.len() == 2 && "gz"@[0] == 'g' && "gz"@[1] == 'z');
    assert("png"@.len() == 3 && "png"@[0] == 'p' && "png"@[1] == 'n' && "png"@[2] == 'g');
    assert("jpg"@.len() == 3 && "jpg"@[0] == 'j' && "jpg"@[1] == 'p' && "jpg"@[2] == 'g');
    assert("jpeg"@.len() == 4 && "jpeg"@[0] == 'j' && "jpeg"@[1] == 'p' && "jpeg"@[2] == 'e' && "jpeg"@[3] == 'g');
    assert("gif"@.len() == 3 && "gif"@[0] == 'g' && "gif"@[1] == 'i' && "gif"@[2] == 'f');
    assert("svg"@.len() == 3 && "svg"@[0] == 's' && "svg"@[1] == 'v' && "svg"@[2] == 'g');
    assert("webp"@.len() == 4 && "webp"@[0] == 'w' && "webp"@[1] == 'e' && "webp"@[2] == 'b' && "webp"@[3] == 'p');
    assert("exe"@.len() == 3 && "exe"@[0] == 'e' && "exe"@[1] == 'x' && "exe"@[2] == 'e');
}

pub open spec fn extension_view(extension: Option<String>) -> Option<Seq<char>> {
    match extension {
        Some(e) => Some(e@),
        None => None,
    }
}

/// The category a file is counted in: the one it carries, else the one of its extension.
pub open spec fn effective_category(node: FileNode) -> FileCategory {
    match node.category {
        Some(c) => c,
        None => category_of(extension_view(node.extension)),
    }
}

/// The place of a category in the declaration order.
pub open spec fn category_rank(c: FileCategory) -> int {
    match c {
        FileCategory::Video => 0,
        FileCategory::Audio => 1,
        FileCategory::Documents => 2,
        FileCategory::Code => 3,
        FileCategory::Archives => 4,
        FileCategory::Images => 5,
        FileCategory::NoExtension => 6,
        FileCategory::Other => 7,
    }
}

pub open spec fn category_by_rank(k: int) -> FileCategory {
    if k == 0 {
        FileCategory::Video
    } else if k == 1 {
        FileCategory::Audio
    } else if k == 2 {
        FileCategory::Documents
    } else if k == 3 {
        FileCategory::Code
    } else if k == 4 {
        FileCategory::Archives
    } else if k == 5 {
        FileCategory::Images
    } else if k == 6 {
        FileCategory::NoExtension
    } else {
        FileCategory::Other
    }
}

/// A file counted in category `c`.
pub open spec fn file_in(c: FileCategory) -> spec_fn(FileNode) -> bool {
    |n: FileNode| n.node_type == NodeType::File && effective_category(n) == c
}

/// The files of a tree counted in category `c`, in pre-order.
pub open spec fn category_files(root: FileNode, c: FileCategory) -> Seq<FileNode> {
    preorder_where(root, file_in(c))
}

/// The sum of the sizes of the files of the first `k` categories.
pub open spec fn categories_total(root: FileNode, k: int) -> nat
    decreases k,
{
    if k <= 0 {
        0
    } else {
        categories_total(root, k - 1) + sizes_sum(category_files(root, category_by_rank(k - 1)))
    }
}

/// The sum of the sizes of all the files of a tree, over all categories.
pub open spec fn files_total(root: FileNode) -> nat {
    categories_total(root, 8)
}

/// `part` as a percentage of `total`, as an exact fraction; zero when `total` is zero.
pub open spec fn percentage_of(part: u64, total: u64) -> Percentage {
    if total == 0 {
        Percentage { numerator: 0, denominator: 1 }
    } else {
        Percentage { numerator: (part * 100) as u128, denominator: total }
    }
}

/// The statistic of category `c` in a tree.
pub open spec fn category_statistic(root: FileNode, c: FileCategory) -> FileStatistic {
    FileStatistic {
        category: c,
        file_count: category_files(root, c).len() as usize,
        total_size: sizes_sum(category_files(root, c)) as u64,
        percentage: percentage_of(
            sizes_sum(category_files(root, c)) as u64,
            files_total(root) as u64,
        ),
    }
}

/// Each statistic is the one of its category, which holds at least one file.
pub open spec fn statistics_accurate(root: FileNode, stats: Seq<FileStatistic>) -> bool {
    forall|i: int|
        0 <= i < stats.len() ==> #[trigger] stats[i] == category_statistic(root, stats[i].category)
            && stats[i].file_count > 0
}

/// Every category that holds a file has a statistic.
pub open spec fn statistics_complete(root: FileNode, stats: Seq<FileStatistic>) -> bool {
    forall|c: FileCategory|
        category_files(root, c).len() > 0 ==> exists|i: int|
            0 <= i < stats.len() && #[trigger] stats[i].category == c
}

/// No category has two statistics.
pub open spec fn statistics_distinct(stats: Seq<FileStatistic>) -> bool {
    forall|i: int, j: int|
        0 <= i < j < stats.len() ==> #[trigger] stats[i].category != #[trigger] stats[j].category
}

/// Largest total first; equal totals in the declaration order of their categories.
pub open spec fn statistics_ordered(stats: Seq<FileStatistic>) -> bool {
    &&& forall|i: int, j: int|
        0 <= i < j < stats.len() ==> #[trigger] stats[i].total_size >= #[trigger] stats[j].total_size
    &&& forall|i: int, j: int|
        0 <= i < j < stats.len() && #[trigger] stats[i].total_size == #[trigger] stats[j].total_size
            ==> category_rank(stats[i].category) < category_rank(stats[j].category)
}

/// The statistics of a tree: one for each category that holds at least one
/// file, largest total first, categories of equal totals in declaration order.
pub open spec fn statistics_of(root: FileNode, stats: Seq<FileStatistic>) -> bool {
    &&& statistics_accurate(root, stats)
    &&& statistics_complete(root, stats)
    &&& statistics_distinct(stats)
    &&& statistics_ordered(stats)
}

/// What the system statistic holds.
#[derive(Debug, Clone)]
pub struct SystemStatistic {
    pub file_stats: Vec<FileStatistic>,
    pub total_disk_space: u64,
    pub free_disk_space: u64,
    pub used_disk_space: u64,
}

/// `s` and the literal `lit` have the same characters.
fn same_text(s: &String, lit: &str) -> (r: bool)
    ensures
        r == (s@ == lit@),
{
    *s == lit.to_owned()
}

fn is_video(e: &String) -> (r: bool)
    ensures
        r == is_video_extension(e@),
{
    same_text(e, "mp4") || same_text(e, "mkv") || same_text(e, "avi") || same_text(e, "mov")
        || same_text(e, "webm")
}

fn is_audio(e: &String) -> (r: bool)
    ensures
        r == is_audio_extension(e@),
{
    same_text(e, "mp3") || same_text(e, "wav") || same_text(e, "flac") || same_text(e, "ogg")
}

fn is_document(e: &String) -> (r: bool)
    ensures
        r == is_document_extension(e@),
{
    same_text(e, "pdf") || same_text(e, "doc") || same_text(e, "docx") || same_text(e, "txt")
        || same_text(e, "odt") || same_text(e, "rtf")
}

fn is_code(e: &String) -> (r: bool)
    ensures
        r == is_code_extension(e@),
{
    same_text(e, "rs") || same_text(e, "py") || same_text(e, "js") || same_text(e, "ts")
        || same_text(e, "html") || same_text(e, "css") || same_text(e, "c") || same_text(e, "cpp")
        || same_text(e, "java")
}

fn is_archive(e: &String) -> (r: bool)
    ensures
        r == is_archive_extension(e@),
{
    same_text(e, "zip") || same_text(e, "rar") || same_text(e, "7z") || same_text(e, "tar")
        || same_text(e, "gz")
}

fn is_image(e: &String) -> (r: bool)
    ensures
        r == is_image_extension(e@),
{
    same_text(e, "png") || same_text(e, "jpg") || same_text(e, "jpeg") || same_text(e, "gif")
        || same_text(e, "svg") || same_text(e, "webp")
}

fn category_rank_exec(c: FileCategory) -> (r: usize)
    ensures
        r as int == category_rank(c),
{
    match c {
        FileCategory::Video => 0,
        FileCategory::Audio => 1,
        FileCategory::Documents => 2,
        FileCategory::Code => 3,
        FileCategory::Archives => 4,
        FileCategory::Images => 5,
        FileCategory::NoExtension => 6,
        FileCategory::Other => 7,
    }
}

pub(crate) fn category_by_rank_exec(k: usize) -> (c: FileCategory)
    requires
        k < 8,
    ensures
        c == category_by_rank(k as int),
        category_rank(c) == k,
{
    if k == 0 {
        FileCategory::Video
    } else if k == 1 {
        FileCategory::Audio
    } else if k == 2 {
        FileCategory::Documents
    } else if k == 3 {
        FileCategory::Code
    } else if k == 4 {
        FileCategory::Archives
    } else if k == 5 {
        FileCategory::Images
    } else if k == 6 {
        FileCategory::NoExtension
    } else {
        FileCategory::Other
    }
}

/// The category a file is counted in.
pub(crate) fn effective_category_of(node: &FileNode) -> (c: FileCategory)
    ensures
        c == effective_category(*node),
{
    match node.category {
        Some(c) => c,
        None => match &node.extension {
            Some(e) => StatService::category_by_extension(Some(e.as_str())),
            None => StatService::category_by_extension(None),
        },
    }
}

/// The number of files of category `category_by_rank(k)` in a tree.
pub open spec fn cat_count(node: FileNode, k: int) -> nat {
    preorder_where(node, file_in(category_by_rank(k))).len()
}

/// The size of the files of category `category_by_rank(k)` in a tree.
pub open spec fn cat_size(node: FileNode, k: int) -> nat {
    sizes_sum(preorder_where(node, file_in(category_by_rank(k))))
}

pub open spec fn forest_cat_count(s: Seq<FileNode>, k: int) -> nat {
    forest_preorder_where(s, file_in(category_by_rank(k))).len()
}

pub open spec fn forest_cat_size(s: Seq<FileNode>, k: int) -> nat {
    sizes_sum(forest_preorder_where(s, file_in(category_by_rank(k))))
}

pub(crate) proof fn lemma_rank_roundtrip(c: FileCategory)
    ensures
        category_by_rank(category_rank(c)) == c,
        0 <= category_rank(c) < 8,
{
}

pub(crate) proof fn lemma_categories_total_monotone(root: FileNode, k: int)
    requires
        0 <= k < 8,
    ensures
        categories_total(root, k) + cat_size(root, k) <= files_total(root),
    decreases 8 - k,
{
    if k < 7 {
        lemma_categories_total_monotone(root, k + 1);
    }
}

proof fn lemma_rank_roundtrip_index(m: int)
    requires
        0 <= m < 8,
    ensures
        category_rank(category_by_rank(m)) == m,
{
}

/// What a node adds to the counts of category `category_by_rank(m)` on top of its children.
pub(crate) proof fn lemma_node_contribution(node: FileNode, m: int)
    ensures
        cat_count(node, m) == (if file_in(category_by_rank(m))(node) { 1int } else { 0int })
            + forest_cat_count(node.children@, m),
        cat_size(node, m) == (if file_in(category_by_rank(m))(node) { node.size as int } else { 0int })
            + forest_cat_size(node.children@, m),
{
    let p = file_in(category_by_rank(m));
    let h: Seq<FileNode> = if p(node) { seq![node] } else { seq![] };
    lemma_sizes_sum_concat(h, forest_preorder_where(node.children@, p));
    if p(node) {
        assert(h.drop_last() =~= Seq::<FileNode>::empty());
        assert(sizes_sum(Seq::<FileNode>::empty()) == 0);
        assert(sizes_sum(h) == node.size);
    } else {
        assert(sizes_sum(h) == 0);
    }
    assert(preorder_where(node, p) == h + forest_preorder_where(node.children@, p));
}

/// Eight zeroed counters, one for each category.
fn zeroed_counters() -> (acc: Vec<(usize, u64)>)
    ensures
        acc@.len() == 8,
        forall|m: int| 0 <= m < 8 ==> #[trigger] acc@[m] == (0usize, 0u64),
{
    let mut acc: Vec<(usize, u64)> = Vec::new();
    let mut k: usize = 0;
    while k < 8
        invariant
            0 <= k <= 8,
            acc@.len() == k,
            forall|m: int| 0 <= m < k ==> #[trigger] acc@[m] == (0usize, 0u64),
        decreases 8 - k,
    {
        acc.push((0, 0));
        k = k + 1;
    }
    acc
}

/// The sum of the sizes held by the counters.
fn counters_total(root: &FileNode, acc: &Vec<(usize, u64)>) -> (total: u64)
    requires
        acc@.len() == 8,
        files_total(*root) <= u64::MAX,
        forall|m: int| #![trigger acc@[m]] 0 <= m < 8 ==> acc@[m].1 == cat_size(*root, m),
    ensures
        total == files_total(*root),
{
    let mut total_size: u64 = 0;
    let mut k: usize = 0;
    while k < 8
        invariant
            0 <= k <= 8,
            acc@.len() == 8,
            files_total(*root) <= u64::MAX,
            total_size == categories_total(*root, k as int),
            forall|m: int| #![trigger acc@[m]] 0 <= m < 8 ==> acc@[m].1 == cat_size(*root, m),
        decreases 8 - k,
    {
        proof {
            lemma_categories_total_monotone(*root, k as int);
        }
        total_size = total_size + acc[k].1;
        k = k + 1;
    }
    total_size
}

/// The statistics of the categories that hold a file, in declaration order,
/// with the sort keys that put the largest total first.
fn statistics_in_rank_order(root: &FileNode, acc: &Vec<(usize, u64)>, total_size: u64) -> (r: (
    Vec<FileStatistic>,
    Vec<SortKey>,
))
    requires
        acc@.len() == 8,
        total_size == files_total(*root),
        forall|m: int|
            #![trigger acc@[m]]
            0 <= m < 8 ==> acc@[m].0 == cat_count(*root, m) && acc@[m].1 == cat_size(*root, m),
    ensures
        r.0@.len() == r.1@.len(),
        forall|i: int|
            0 <= i < r.0@.len() ==> #[trigger] r.0@[i] == category_statistic(*root, r.0@[i].category)
                && r.0@[i].file_count > 0 && r.1@[i]@ == (
                u64::MAX - r.0@[i].total_size,
                Seq::<char>::empty(),
            ),
        forall|i: int, j: int|
            0 <= i < j < r.0@.len() ==> category_rank(#[trigger] r.0@[i].category) < category_rank(
                #[trigger] r.0@[j].category,
            ),
        forall|m: int|
            0 <= m < 8 && cat_count(*root, m) > 0 ==> exists|i: int|
                0 <= i < r.0@.len() && #[trigger] r.0@[i].category == category_by_rank(m),
{
    let mut stats: Vec<FileStatistic> = Vec::new();
    let mut keys: Vec<SortKey> = Vec::new();
    let mut k: usize = 0;
    while k < 8
        invariant
            0 <= k <= 8,
            acc@.len() == 8,
            total_size == files_total(*root),
            forall|m: int|
                #![trigger acc@[m]]
                0 <= m < 8 ==> acc@[m].0 == cat_count(*root, m) && acc@[m].1 == cat_size(*root, m),
            stats@.len() == keys@.len(),
            forall|i: int|
                0 <= i < stats@.len() ==> #[trigger] stats@[i] == category_statistic(
                    *root,
                    stats@[i].category,
                ) && stats@[i].file_count > 0 && category_rank(stats@[i].category) < k
                    && keys@[i]@ == (u64::MAX - stats@[i].total_size, Seq::<char>::empty()),
            forall|i: int, j: int|
                0 <= i < j < stats@.len() ==> category_rank(#[trigger] stats@[i].category)
                    < category_rank(#[trigger] stats@[j].category),
            forall|m: int|
                0 <= m < k && cat_count(*root, m) > 0 ==> exists|i: int|
                    0 <= i < stats@.len() && #[trigger] stats@[i].category == category_by_rank(m),
        decreases 8 - k,
    {
        let ghost old_stats = stats@;
        let (file_count, size) = acc[k];
        if file_count > 0 {
            let category = category_by_rank_exec(k);
            let stat = FileStatistic {
                category,
                file_count,
                total_size: size,
                percentage: StatService::calculate_percentage(size, total_size),
            };
            stats.push(stat);
            keys.push(SortKey { rank: u64::MAX - size, text: Vec::new() });
            proof {
                let last = stats@.len() - 1;
                assert(stats@[last] == category_statistic(*root, category));
                assert forall|m: int| 0 <= m < k + 1 && cat_count(*root, m) > 0 implies exists|i: int|
                    0 <= i < stats@.len() && #[trigger] stats@[i].category == category_by_rank(m) by {
                    if m == k {
                        assert(stats@[last].category == category_by_rank(m));
                    } else {
                        let i = choose|i: int| 0 <= i < old_stats.len() && #[trigger] old_stats[i].category == category_by_rank(m);
                        assert(stats@[i] == old_stats[i]);
                    }
                }
            }
        } else {
            proof {
                assert forall|m: int| 0 <= m < k + 1 && cat_count(*root, m) > 0 implies exists|i: int|
                    0 <= i < stats@.len() && #[trigger] stats@[i].category == category_by_rank(m) by {
                    assert(m != k);
                }
            }
        }
        k = k + 1;
    }
    (stats, keys)
}

proof fn lemma_sorted_statistics_values(
    root: FileNode,
    before: Seq<FileStatistic>,
    kv: Seq<(int, Seq<char>)>,
    r: Seq<FileStatistic>,
    pos: Seq<int>,
)
    requires
        sorted_arrangement(before, kv, r, pos),
        forall|i: int|
            0 <= i < before.len() ==> #[trigger] before[i] == category_statistic(root, before[i].category)
                && before[i].file_count > 0,
    ensures
        statistics_accurate(root, r),
{
    assert forall|i: int| 0 <= i < r.len() implies #[trigger] r[i] == category_statistic(root, r[i].category)
        && r[i].file_count > 0 by {
        assert(r[i] == before[pos[i]]);
    }
}

proof fn lemma_sorted_statistics_complete(
    root: FileNode,
    before: Seq<FileStatistic>,
    kv: Seq<(int, Seq<char>)>,
    r: Seq<FileStatistic>,
    pos: Seq<int>,
)
    requires
        sorted_arrangement(before, kv, r, pos),
        forall|m: int|
            0 <= m < 8 && cat_count(root, m) > 0 ==> exists|i: int|
                0 <= i < before.len() && #[trigger] before[i].category == category_by_rank(m),
    ensures
        statistics_complete(root, r),
{
    assert forall|c: FileCategory| category_files(root, c).len() > 0 implies exists|i: int|
        0 <= i < r.len() && #[trigger] r[i].category == c by {
        lemma_rank_roundtrip(c);
        assert(cat_count(root, category_rank(c)) > 0);
        let m = choose|m: int| 0 <= m < before.len() && #[trigger] before[m].category == category_by_rank(category_rank(c));
        lemma_arrangement_onto(before, kv, r, pos, m);
        let k = choose|k: int| 0 <= k < pos.len() && pos[k] == m;
        assert(r[k] == before[m]);
    }
}

proof fn lemma_sorted_statistics_distinct(
    before: Seq<FileStatistic>,
    kv: Seq<(int, Seq<char>)>,
    r: Seq<FileStatistic>,
    pos: Seq<int>,
)
    requires
        sorted_arrangement(before, kv, r, pos),
        forall|i: int, j: int|
            0 <= i < j < before.len() ==> category_rank(#[trigger] before[i].category)
                < category_rank(#[trigger] before[j].category),
    ensures
        statistics_distinct(r),
{
    assert forall|i: int, j: int| 0 <= i < j < r.len() implies #[trigger] r[i].category != #[trigger] r[j].category by {
        assert(pos[i] != pos[j]);
        assert(r[i] == before[pos[i]]);
        assert(r[j] == before[pos[j]]);
        if pos[i] < pos[j] {
            assert(category_rank(before[pos[i]].category) < category_rank(before[pos[j]].category));
        } else {
            assert(category_rank(before[pos[j]].category) < category_rank(before[pos[i]].category));
        }
    }
}

proof fn lemma_sorted_statistics_order(
    before: Seq<FileStatistic>,
    kv: Seq<(int, Seq<char>)>,
    r: Seq<FileStatistic>,
    pos: Seq<int>,
)
    requires
        sorted_arrangement(before, kv, r, pos),
        forall|i: int|
            0 <= i < before.len() ==> #[trigger] kv[i] == (
                u64::MAX - before[i].total_size,
                Seq::<char>::empty(),
            ),
        forall|i: int, j: int|
            0 <= i < j < before.len() ==> category_rank(#[trigger] before[i].category)
                < category_rank(#[trigger] before[j].category),
    ensures
        statistics_ordered(r),
{
    lemma_lex_irreflexive(Seq::<char>::empty());
    assert forall|i: int, j: int| 0 <= i < j < r.len() implies #[trigger] r[i].total_size >= #[trigger] r[j].total_size by {
        assert(r[i] == before[pos[i]]);
        assert(r[j] == before[pos[j]]);
        assert(!key_less(kv[pos[j]], kv[pos[i]]));
    }
    assert forall|i: int, j: int| 0 <= i < j < r.len() && #[trigger] r[i].total_size == #[trigger] r[j].total_size
        implies category_rank(r[i].category) < category_rank(r[j].category) by {
        assert(r[i] == before[pos[i]]);
        assert(r[j] == before[pos[j]]);
        assert(kv[pos[i]] == kv[pos[j]]);
        assert(pos[i] < pos[j]);
    }
}

pub struct StatService;

impl StatService {
    /// Groups the files of the tree by category: for each category that holds
    /// a file, the number of its files, their total size and their share of
    /// the size of all files; largest total first.
    pub fn group_by_categories(root: &FileNode) -> (r: Vec<FileStatistic>)
        requires
            node_count(*root) <= usize::MAX,
            files_total(*root) <= u64::MAX,
        ensures
            statistics_of(*root, r@),
    {
        let mut acc = zeroed_counters();
        proof {
            assert forall|m: int| #![trigger acc@[m]] 0 <= m < 8 implies acc@[m].0 + cat_count(*root, m) <= usize::MAX
                && acc@[m].1 + cat_size(*root, m) <= u64::MAX by {
                lemma_where_len(*root, file_in(category_by_rank(m)));
                lemma_categories_total_monotone(*root, m);
            }
        }
        Self::collect_stats(root, &mut acc);
        let total_size = counters_total(root, &acc);
        let (stats, keys) = statistics_in_rank_order(root, &acc, total_size);
        let ghost before = stats@;
        let ghost kv = keys_view(keys@);
        proof {
            assert forall|i: int| 0 <= i < before.len() implies #[trigger] kv[i] == (u64::MAX - before[i].total_size, Seq::<char>::empty()) by {
                assert(kv[i] == keys@[i]@);
            }
        }
        let r = stable_sort(stats, keys, Ghost(|st: FileStatistic| (u64::MAX - st.total_size, Seq::<char>::empty())));
        proof {
            let pos = choose|pos: Seq<int>| sorted_arrangement(before, kv, r@, pos);
            Self::lemma_sorted_statistics(*root, before, kv, r@, pos);
        }
        r
    }

    proof fn lemma_sorted_statistics(
        root: FileNode,
        before: Seq<FileStatistic>,
        kv: Seq<(int, Seq<char>)>,
        r: Seq<FileStatistic>,
        pos: Seq<int>,
    )
        requires
            sorted_arrangement(before, kv, r, pos),
            kv.len() == before.len(),
            forall|i: int|
                0 <= i < before.len() ==> #[trigger] before[i] == category_statistic(root, before[i].category)
                    && before[i].file_count > 0 && kv[i] == (
                    u64::MAX - before[i].total_size,
                    Seq::<char>::empty(),
                ),
            forall|i: int, j: int|
                0 <= i < j < before.len() ==> category_rank(#[trigger] before[i].category)
                    < category_rank(#[trigger] before[j].category),
            forall|m: int|
                0 <= m < 8 && cat_count(root, m) > 0 ==> exists|i: int|
                    0 <= i < before.len() && #[trigger] before[i].category == category_by_rank(m),
        ensures
            statistics_of(root, r),
    {
        lemma_sorted_statistics_values(root, before, kv, r, pos);
        lemma_sorted_statistics_complete(root, before, kv, r, pos);
        lemma_sorted_statistics_distinct(before, kv, r, pos);
        lemma_sorted_statistics_order(before, kv, r, pos);
    }

    fn collect_stats(node: &FileNode, acc: &mut Vec<(usize, u64)>)
        requires
            old(acc)@.len() == 8,
            forall|m: int| #![trigger old(acc)@[m]] 0 <= m < 8 ==> old(acc)@[m].0 + cat_count(*node, m) <= usize::MAX,
            forall|m: int| #![trigger old(acc)@[m]] 0 <= m < 8 ==> old(acc)@[m].1 + cat_size(*node, m) <= u64::MAX,
        ensures
            final(acc)@.len() == 8,
            forall|m: int|
                #![trigger final(acc)@[m]]
                0 <= m < 8 ==> final(acc)@[m].0 == old(acc)@[m].0 + cat_count(*node, m)
                    && final(acc)@[m].1 == old(acc)@[m].1 + cat_size(*node, m),
        decreases *node,
    {
        let ghost start = acc@;
        if node.node_type == NodeType::File {
            let category = effective_category_of(node);
            let idx = category_rank_exec(category);
            proof {
                lemma_rank_roundtrip(category);
                lemma_node_contribution(*node, idx as int);
            }
            let (count, size) = acc[idx];
            acc.set(idx, (count + 1, size + node.size));
            proof {
                assert forall|m: int| #![trigger acc@[m]] 0 <= m < 8 implies acc@[m].0 + forest_cat_count(node.children@, m)
                    == start[m].0 + cat_count(*node, m) && acc@[m].1 + forest_cat_size(node.children@, m)
                    == start[m].1 + cat_size(*node, m) by {
                    lemma_node_contribution(*node, m);
                    lemma_rank_roundtrip_index(m);
                    if m != idx {
                        assert(acc@[m] == start[m]);
                    }
                }
            }
        } else {
            proof {
                assert forall|m: int| #![trigger acc@[m]] 0 <= m < 8 implies acc@[m].0 + forest_cat_count(node.children@, m)
                    == start[m].0 + cat_count(*node, m) && acc@[m].1 + forest_cat_size(node.children@, m)
                    == start[m].1 + cat_size(*node, m) by {
                    lemma_node_contribution(*node, m);
                }
            }
        }
        let ghost head = acc@;
        let n = node.children.len();
        let mut i: usize = 0;
        while i < n
            invariant
                n == node.children@.len(),
                0 <= i <= n,
                acc@.len() == 8,
                head.len() == 8,
                forall|m: int| #![trigger head[m]] 0 <= m < 8 ==> head[m].0 + forest_cat_count(node.children@, m) <= usize::MAX,
                forall|m: int| #![trigger head[m]] 0 <= m < 8 ==> head[m].1 + forest_cat_size(node.children@, m) <= u64::MAX,
                forall|m: int|
                    #![trigger acc@[m]]
                    0 <= m < 8 ==> acc@[m].0 == head[m].0 + forest_cat_count(
                        node.children@.subrange(0, i as int),
                        m,
                    ) && acc@[m].1 == head[m].1 + forest_cat_size(node.children@.subrange(0, i as int), m),
            decreases n - i,
        {
            proof {
                assert(decreases_to!(*node => node.children@[i as int]));
                assert forall|m: int| #![trigger acc@[m]] 0 <= m < 8 implies acc@[m].0 + cat_count(node.children@[i as int], m) <= usize::MAX
                    && acc@[m].1 + cat_size(node.children@[i as int], m) <= u64::MAX by {
                    lemma_forest_where_prefix(node.children@, file_in(category_by_rank(m)), i as int);
                    assert(head[m].0 + forest_cat_count(node.children@, m) <= usize::MAX);
                    assert(head[m].1 + forest_cat_size(node.children@, m) <= u64::MAX);
                }
            }
            let ghost before = acc@;
            Self::collect_stats(&node.children[i], acc);
            proof {
                assert forall|m: int| #![trigger acc@[m]] 0 <= m < 8 implies acc@[m].0 == head[m].0 + forest_cat_count(
                    node.children@.subrange(0, i + 1),
                    m,
                ) && acc@[m].1 == head[m].1 + forest_cat_size(node.children@.subrange(0, i + 1), m) by {
                    let p = file_in(category_by_rank(m));
                    lemma_forest_where_step(node.children@, i as int, p);
                    lemma_sizes_sum_concat(
                        forest_preorder_where(node.children@.subrange(0, i as int), p),
                        preorder_where(node.children@[i as int], p),
                    );
                    assert(before[m].0 == head[m].0 + forest_cat_count(node.children@.subrange(0, i as int), m));
                }
            }
            i = i + 1;
        }
        proof {
            assert(node.children@.subrange(0, n as int) =~= node.children@);
        }
    }

    /// The category of a file by its extension, compared without leading dots
    /// and in lower case; `NoExtension` when there is none.
    pub fn category_by_extension(extension: Option<&str>) -> (c: FileCategory)
        ensures
            c == category_of(
                match extension {
                    Some(e) => Some(e@),
                    None => None,
                },
            ),
            extension is Some && is_ascii_text(extension.unwrap()@) ==> c == category_of_normalized(
                ascii_lowercase(trim_leading_dots(extension.unwrap()@)),
            ),
    {
        let extension = match extension {
            Some(e) => e,
            None => {
                return FileCategory::NoExtension;
            },
        };
        let e = normalize_extension(extension);
        if is_video(&e) {
            FileCategory::Video
        } else if is_audio(&e) {
            FileCategory::Audio
        } else if is_document(&e) {
            FileCategory::Documents
        } else if is_code(&e) {
            FileCategory::Code
        } else if is_archive(&e) {
            FileCategory::Archives
        } else if is_image(&e) {
            FileCategory::Images
        } else {
            FileCategory::Other
        }
    }

    /// `part` as a percentage of `total`, as an exact fraction; zero when
    /// `total` is zero.
    pub fn calculate_percentage(part: u64, total: u64) -> (p: Percentage)
        ensures
            p == percentage_of(part, total),
    {
        if total == 0 {
            Percentage { numerator: 0, denominator: 1 }
        } else {
            Percentage { numerator: part as u128 * 100, denominator: total }
        }
    }

    /// The statistics of the tree together with the space figures of the disk
    /// last loaded into `system_info`.
    pub fn build_system_statistic(root: &FileNode, system_info: &SystemInfoService) -> (s: SystemStatistic)
        requires
            node_count(*root) <= usize::MAX,
            files_total(*root) <= u64::MAX,
        ensures
            statistics_of(*root, s.file_stats@),
            s.total_disk_space == system_info.total(),
            s.free_disk_space == system_info.free(),
            s.used_disk_space == system_info.used(),
    {
        SystemStatistic {
            file_stats: Self::group_by_categories(root),
            total_disk_space: system_info.get_total_disk_space(),
            free_disk_space: system_info.get_free_disk_space(),
            used_disk_space: system_info.get_used_disk_space(),
        }
    }
}

} // verus!
