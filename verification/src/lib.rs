//! The decision core of a modal terminal editor front end.
//!
//! Everything the front end decides (what a key does, where a panel goes, which request is
//! sent next, which record is dropped from a full log queue) is a function here from plain
//! values to plain values, with a contract that says what it decides. Terminals, files,
//! language servers and threads are driven by the program around this library.

use vstd::prelude::*;

use crate::effect::RuntimeTaskEvent;
use crate::paths::is_below;
use crate::text::same_text;

pub mod collections;
pub mod compositor;
pub mod config;
pub mod effect;
pub mod embed;
pub mod fff;
pub mod geometry;
pub mod handlers;
pub mod health;
pub mod host;
pub mod keymap;
pub mod layout;
pub mod lines;
pub mod logging;
pub mod paths;
pub mod sorting;
pub mod text;

verus! {

/// What the terminal's description says about colors.
#[derive(Debug, Clone, Copy, PartialEq, Eq, Structural)]
pub struct ColorCaps {
    pub rgb: bool,
    pub tc: bool,
    pub setrgbf: bool,
    pub setrgbb: bool,
}

pub open spec fn has_true_color(
    colorterm: Option<&str>,
    in_wsl: bool,
    caps: Option<ColorCaps>,
) -> bool {
    ||| match colorterm {
        Some(value) => value@ == "truecolor"@ || value@ == "24bit"@,
        None => false,
    }
    ||| in_wsl
    ||| match caps {
        Some(caps) => caps.rgb || caps.tc || (caps.setrgbf && caps.setrgbb),
        None => false,
    }
}

/// Whether the terminal shows all colors: the environment says so, or the terminal's description
/// does.
pub fn true_color(colorterm: Option<&str>, in_wsl: bool, caps: Option<ColorCaps>) -> (r: bool)
    ensures
        r == has_true_color(colorterm, in_wsl, caps),
{
    if let Some(value) = colorterm {
        if same_text(value, "truecolor") || same_text(value, "24bit") {
            return true;
        }
    }
    if in_wsl {
        return true;
    }
    match caps {
        Some(caps) => caps.rgb || caps.tc || (caps.setrgbf && caps.setrgbb),
        None => false,
    }
}

/// The name is that of a directory in which a version control system keeps its files.
pub open spec fn is_version_control(name: Seq<char>) -> bool {
    name == ".git"@ || name == ".pijul"@ || name == ".jj"@ || name == ".hg"@ || name == ".svn"@
}

/// The file is shown in a picker of the files below `root`. `target` is where a link leads to, if
/// it leads anywhere.
pub open spec fn picker_shows(
    file_name: Option<&str>,
    is_symlink: bool,
    target: Option<Vec<String>>,
    root: Vec<String>,
    dedup_symlinks: bool,
) -> bool {
    &&& match file_name {
        Some(name) => !is_version_control(name@),
        None => true,
    }
    &&& dedup_symlinks && is_symlink ==> match target {
        Some(path) => !paths::below(paths::parts(path@), paths::parts(root@)),
        None => false,
    }
}

/// Whether a file is shown in a picker. Version control is left out, and so are links to files
/// that are shown anyway, if links are not to show a file twice.
pub fn filter_picker_entry(
    file_name: Option<&str>,
    is_symlink: bool,
    target: &Option<Vec<String>>,
    root: &Vec<String>,
    dedup_symlinks: bool,
) -> (r: bool)
    ensures
        r == picker_shows(file_name, is_symlink, *target, *root, dedup_symlinks),
{
    if let Some(name) = file_name {
        if same_text(name, ".git") || same_text(name, ".pijul") || same_text(name, ".jj")
            || same_text(name, ".hg") || same_text(name, ".svn") {
            return false;
        }
    }
    if dedup_symlinks && is_symlink {
        return match target {
            Some(path) => !is_below(path, root),
            None => false,
        };
    }
    true
}

/// What is done next about opening an address outside of the editor.
#[derive(Debug)]
pub enum OpenUrlStep<P> {
    /// The command with this number is run.
    Run(usize),
    Done(RuntimeTaskEvent<P>),
}

/// Opens an address by one of several commands: they are run in turn until one of them can be.
/// `last` says whether the command that was run last could be, `tried` how many were run.
pub fn open_external_url_task_event<P>(commands: usize, tried: usize, last: bool) -> (r:
    OpenUrlStep<P>)
    ensures
        match r {
            OpenUrlStep::Run(next) => !(tried > 0 && last) && next == tried && next < commands,
            OpenUrlStep::Done(RuntimeTaskEvent::Stub) => tried > 0 && last,
            OpenUrlStep::Done(RuntimeTaskEvent::SetEditorError { message }) => {
                &&& !(tried > 0 && last)
                &&& tried >= commands
                &&& message@ == "Opening URL in external program failed"@
            },
            OpenUrlStep::Done(_) => false,
        },
{
    if tried > 0 && last {
        OpenUrlStep::Done(RuntimeTaskEvent::Stub)
    } else if tried < commands {
        OpenUrlStep::Run(tried)
    } else {
        OpenUrlStep::Done(
            RuntimeTaskEvent::SetEditorError {
                message: "Opening URL in external program failed".to_owned(),
            },
        )
    }
}

/// Directories of version control never show; a link shows, where links are told apart, only if
/// it leads out of the root.
pub proof fn law_links_within_the_root_do_not_show(
    file_name: &str,
    target: Vec<String>,
    root: Vec<String>,
    is_symlink: bool,
    dedup_symlinks: bool,
)
    ensures
        is_version_control(file_name@) ==> !picker_shows(
            Some(file_name),
            is_symlink,
            Some(target),
            root,
            dedup_symlinks,
        ),
        !is_version_control(file_name@) && !is_symlink ==> picker_shows(
            Some(file_name),
            is_symlink,
            Some(target),
            root,
            dedup_symlinks,
        ),
        !is_version_control(file_name@) && !dedup_symlinks ==> picker_shows(
            Some(file_name),
            is_symlink,
            Some(target),
            root,
            dedup_symlinks,
        ),
        !is_version_control(file_name@) ==> picker_shows(
            Some(file_name),
            true,
            Some(target),
            root,
            true,
        ) == !paths::below(paths::parts(target@), paths::parts(root@)),
        !picker_shows(Some(file_name), true, None, root, true),
{
}

/// Any one sign of true color is enough, but of the two that set colors both are needed.
pub proof fn law_one_sign_of_true_color_is_enough(colorterm: Option<&str>, caps: ColorCaps)
    ensures
        has_true_color(colorterm, true, Some(caps)),
        caps.rgb || caps.tc ==> has_true_color(colorterm, false, Some(caps)),
        caps.setrgbf && caps.setrgbb ==> has_true_color(colorterm, false, Some(caps)),
        !caps.rgb && !caps.tc && !(caps.setrgbf && caps.setrgbb) ==> !has_true_color(
            None,
            false,
            Some(caps),
        ),
        !has_true_color(None, false, None),
        colorterm matches Some(value) && (value@ == "truecolor"@ || value@ == "24bit"@)
            ==> has_true_color(colorterm, false, None),
{
}

} // verus!
