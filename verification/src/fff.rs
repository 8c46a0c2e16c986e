//! The file index of a workspace: how searches are split over threads, how long an index is kept,
//! and how what is remembered about files and queries is stored.

use vstd::prelude::*;

pub mod cache;
pub mod hash;
pub mod search;
pub mod store;

verus! {

/// How the files of a workspace are listed.
#[derive(Debug, Clone, Copy, PartialEq, Eq, Structural)]
pub struct FilePickerConfig {
    pub hidden: bool,
    pub follow_symlinks: bool,
    pub deduplicate_links: bool,
    pub parents: bool,
    pub ignore: bool,
    pub git_ignore: bool,
    pub git_global: bool,
    pub git_exclude: bool,
    pub max_depth: Option<usize>,
    pub hide_preview: bool,
}

/// How the file explorer lists files.
#[derive(Debug, Clone, Copy, PartialEq, Eq, Structural)]
pub struct FileExplorerConfig {
    pub hidden: bool,
    pub follow_symlinks: bool,
    pub parents: bool,
    pub ignore: bool,
    pub git_ignore: bool,
    pub git_global: bool,
    pub git_exclude: bool,
}

/// What an index is told about the files to scan.
#[derive(Debug)]
pub struct FilePickerScanOptions {
    pub hidden: bool,
    pub parents: bool,
    pub ignore: bool,
    pub git_ignore: bool,
    pub git_global: bool,
    pub git_exclude: bool,
    pub follow_links: bool,
    pub max_depth: Option<usize>,
    /// The ignore file of the user, and the name of those in a workspace.
    pub custom_ignore_files: Vec<String>,
    pub deduplicate_links: bool,
}

/// Two configurations list the same files: they differ in the preview at most.
pub open spec fn same_index(left: FilePickerConfig, right: FilePickerConfig) -> bool {
    left == FilePickerConfig { hide_preview: left.hide_preview, ..right }
}

pub fn same_file_index_config(left: &FilePickerConfig, right: &FilePickerConfig) -> (r: bool)
    ensures
        r == same_index(*left, *right),
{
    left.hidden == right.hidden && left.follow_symlinks == right.follow_symlinks
        && left.deduplicate_links == right.deduplicate_links && left.parents == right.parents
        && left.ignore == right.ignore && left.git_ignore == right.git_ignore && left.git_global
        == right.git_global && left.git_exclude == right.git_exclude && left.max_depth
        == right.max_depth
}

/// The scan that a configuration asks for.
pub fn scan_options(
    config: &FilePickerConfig,
    user_ignore_file: &str,
    workspace_ignore_name: &str,
) -> (r: FilePickerScanOptions)
    ensures
        r.hidden == config.hidden,
        r.parents == config.parents,
        r.ignore == config.ignore,
        r.git_ignore == config.git_ignore,
        r.git_global == config.git_global,
        r.git_exclude == config.git_exclude,
        r.follow_links == config.follow_symlinks,
        r.max_depth == config.max_depth,
        r.deduplicate_links == config.deduplicate_links,
        r.custom_ignore_files@.len() == 2,
        r.custom_ignore_files@[0]@ == user_ignore_file@,
        r.custom_ignore_files@[1]@ == workspace_ignore_name@,
{
    let mut custom_ignore_files: Vec<String> = Vec::new();
    custom_ignore_files.push(user_ignore_file.to_owned());
    custom_ignore_files.push(workspace_ignore_name.to_owned());
    FilePickerScanOptions {
        hidden: config.hidden,
        parents: config.parents,
        ignore: config.ignore,
        git_ignore: config.git_ignore,
        git_global: config.git_global,
        git_exclude: config.git_exclude,
        follow_links: config.follow_symlinks,
        max_depth: config.max_depth,
        custom_ignore_files,
        deduplicate_links: config.deduplicate_links,
    }
}

/// The listing that the file explorer asks for: to any depth, without links to the same file,
/// and without a preview.
pub fn file_explorer_picker_config(config: &FileExplorerConfig) -> (r: FilePickerConfig)
    ensures
        r == (FilePickerConfig {
            hidden: config.hidden,
            follow_symlinks: config.follow_symlinks,
            deduplicate_links: true,
            parents: config.parents,
            ignore: config.ignore,
            git_ignore: config.git_ignore,
            git_global: config.git_global,
            git_exclude: config.git_exclude,
            max_depth: None,
            hide_preview: true,
        }),
{
    FilePickerConfig {
        hidden: config.hidden,
        follow_symlinks: config.follow_symlinks,
        deduplicate_links: true,
        parents: config.parents,
        ignore: config.ignore,
        git_ignore: config.git_ignore,
        git_global: config.git_global,
        git_exclude: config.git_exclude,
        max_depth: None,
        hide_preview: true,
    }
}

/// Whether the preview shows makes no difference to the index; everything else does.
pub proof fn law_only_the_preview_makes_no_difference(
    config: FilePickerConfig,
    other: FilePickerConfig,
    hide_preview: bool,
)
    ensures
        same_index(config, FilePickerConfig { hide_preview, ..config }),
        same_index(config, other) == same_index(other, config),
        same_index(config, other) ==> config.hidden == other.hidden && config.follow_symlinks
            == other.follow_symlinks && config.deduplicate_links == other.deduplicate_links
            && config.parents == other.parents && config.ignore == other.ignore && config.git_ignore
            == other.git_ignore && config.git_global == other.git_global && config.git_exclude
            == other.git_exclude && config.max_depth == other.max_depth,
{
}

} // verus!
