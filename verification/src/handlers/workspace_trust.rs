//! Asking whether a workspace is trusted, the first time that would change something.

use vstd::prelude::*;

use crate::paths;
use crate::paths::{copy_path, join_parts, same_path};
use crate::text::join;

verus! {

/// What is known about the trust in a workspace.
#[derive(Debug, Clone, Copy, PartialEq, Eq, Structural)]
pub enum TrustStatus {
    /// It was trusted, and its configuration has changed since.
    Stale,
    Other,
}

/// What is done when a document of a workspace is opened.
#[derive(Debug, Clone, Copy, PartialEq, Eq, Structural)]
pub enum TrustStep {
    Nothing,
    /// Somebody is told that the trust has to be renewed.
    WarnStale,
    /// The workspace counts as untrusted until somebody has decided, and is asked about.
    Prompt,
}

/// What is known about a document that was opened.
#[derive(Debug)]
pub struct OpenedDocument {
    /// The workspace it is in, if it is in one.
    pub workspace: Option<Vec<String>>,
    pub status: TrustStatus,
    /// Whether trust would change anything for it.
    pub restricted: bool,
    pub prompts_enabled: bool,
}

/// The workspace was asked about.
pub open spec fn was_prompted(prompted: Seq<Vec<String>>, workspace: Seq<Seq<char>>) -> bool {
    exists|i: int| 0 <= i < prompted.len() && paths::parts((#[trigger] prompted[i])@) == workspace
}

fn find_prompted(prompted: &Vec<Vec<String>>, workspace: &Vec<String>) -> (r: bool)
    ensures
        r == was_prompted(prompted@, paths::parts(workspace@)),
{
    let mut i: usize = 0;
    while i < prompted.len()
        invariant
            i <= prompted@.len(),
            forall|j: int|
                0 <= j < i ==> paths::parts((#[trigger] prompted@[j])@) != paths::parts(
                    workspace@,
                ),
        decreases prompted@.len() - i,
    {
        if same_path(&prompted[i], workspace) {
            assert(paths::parts(prompted@[i as int]@) == paths::parts(workspace@));
            return true;
        }
        i += 1;
    }
    false
}

/// What is done when a document is opened. A workspace is asked about at most once.
pub fn on_document_open(document: &OpenedDocument, prompted: &mut Vec<Vec<String>>) -> (r: TrustStep)
    ensures
        r == match document.workspace {
            None => TrustStep::Nothing,
            Some(workspace) => if document.status == TrustStatus::Stale {
                TrustStep::WarnStale
            } else if !document.restricted || !document.prompts_enabled || was_prompted(
                old(prompted)@,
                paths::parts(workspace@),
            ) {
                TrustStep::Nothing
            } else {
                TrustStep::Prompt
            },
        },
        r != TrustStep::Prompt ==> final(prompted)@ == old(prompted)@,
        forall|workspace: Seq<Seq<char>>| #[trigger]
            was_prompted(final(prompted)@, workspace) <==> was_prompted(old(prompted)@, workspace)
                || (r == TrustStep::Prompt && workspace == paths::parts(document.workspace->0@)),
{
    let workspace = match &document.workspace {
        Some(workspace) => workspace,
        None => {
            return TrustStep::Nothing;
        },
    };
    if document.status == TrustStatus::Stale {
        return TrustStep::WarnStale;
    }
    if !document.restricted || !document.prompts_enabled {
        return TrustStep::Nothing;
    }
    if find_prompted(prompted, workspace) {
        return TrustStep::Nothing;
    }
    let ghost before = prompted@;
    prompted.push(copy_path(workspace));
    proof {
        assert(paths::parts(prompted@[before.len() as int]@) == paths::parts(workspace@));
        assert forall|other: Seq<Seq<char>>| #[trigger]
            was_prompted(prompted@, other) <==> was_prompted(before, other) || other
                == paths::parts(workspace@) by {
            if was_prompted(before, other) {
                let i = choose|i: int|
                    0 <= i < before.len() && paths::parts((#[trigger] before[i])@) == other;
                assert(prompted@[i] == before[i]);
            }
            if was_prompted(prompted@, other) {
                let i = choose|i: int|
                    0 <= i < prompted@.len() && paths::parts((#[trigger] prompted@[i])@) == other;
                if i < before.len() {
                    assert(before[i] == prompted@[i]);
                }
            }
        }
    }
    TrustStep::Prompt
}

/// What somebody is told when trust has to be renewed.
pub fn stale_message() -> (r: String)
    ensures
        r@
            == "Workspace config changed since `:workspace-trust`: it is not loaded until you run `:workspace-trust` again."@,
{
    "Workspace config changed since `:workspace-trust`: it is not loaded until you run `:workspace-trust` again.".to_owned()
}

/// The question about a workspace.
pub open spec fn question(workspace: Seq<Seq<char>>) -> Seq<char> {
    "Trust this workspace?\n\nA trusted workspace loads its own config (`.double-helix/`), which can start language servers and run commands. Only trust workspaces whose contents you have checked."@
        + "\n\n"@ + paths::joined(workspace)
}

pub fn prompt_message(workspace: &Vec<String>) -> (r: String)
    ensures
        r@ == question(paths::parts(workspace@)),
{
    let mut text = join(
        "Trust this workspace?\n\nA trusted workspace loads its own config (`.double-helix/`), which can start language servers and run commands. Only trust workspaces whose contents you have checked.",
        "\n\n",
    );
    text.append(join_parts(workspace).as_str());
    text
}

/// What somebody can decide.
#[derive(Debug, Clone, Copy, PartialEq, Eq, Structural)]
pub enum TrustChoice {
    Trust,
    Never,
}

/// How a choice is worded.
pub fn choice_label(choice: TrustChoice) -> (r: &'static str)
    ensures
        r@ == match choice {
            TrustChoice::Trust => "Trust"@,
            TrustChoice::Never => "Never"@,
        },
{
    match choice {
        TrustChoice::Trust => "Trust",
        TrustChoice::Never => "Never",
    }
}

/// What somebody is told when a decision could not be saved.
pub fn saving_failed(error: &str) -> (r: String)
    ensures
        r@ == "Saving the workspace trust decision failed (it applies to this session): "@ + error@,
{
    join("Saving the workspace trust decision failed (it applies to this session): ", error)
}

/// The id of the layer that asks.
pub fn layer_id() -> (r: &'static str)
    ensures
        r@ == "workspace-trust"@,
{
    "workspace-trust"
}

/// What follows a choice.
#[derive(Debug)]
pub enum ChoiceStep {
    /// The workspace is trusted, and that is saved.
    Trust,
    /// The workspace is never asked about again, and that is saved.
    Exclude,
    SetError(String),
    /// The configuration is read anew, so that what is trusted applies and what was loaded before
    /// is dropped.
    RefreshConfig,
}

/// What a choice does at first: nothing, unless it was confirmed.
pub fn on_choice(choice: TrustChoice, confirmed: bool) -> (r: Option<ChoiceStep>)
    ensures
        r == if confirmed {
            Some(
                match choice {
                    TrustChoice::Trust => ChoiceStep::Trust,
                    TrustChoice::Never => ChoiceStep::Exclude,
                },
            )
        } else {
            None
        },
{
    if !confirmed {
        return None;
    }
    match choice {
        TrustChoice::Trust => Some(ChoiceStep::Trust),
        TrustChoice::Never => Some(ChoiceStep::Exclude),
    }
}

/// What follows once the choice was saved, or could not be.
pub fn choice_saved(result: Result<(), String>) -> (r: Vec<ChoiceStep>)
    ensures
        match result {
            Ok(_) => r@ == seq![ChoiceStep::RefreshConfig],
            Err(error) => {
                &&& r@.len() == 2
                &&& r@[0] matches ChoiceStep::SetError(message) && message@
                    == "Saving the workspace trust decision failed (it applies to this session): "@
                    + error@
                &&& r@[1] == ChoiceStep::RefreshConfig
            },
        },
{
    let mut steps: Vec<ChoiceStep> = Vec::new();
    if let Err(error) = result {
        steps.push(ChoiceStep::SetError(saving_failed(error.as_str())));
    }
    steps.push(ChoiceStep::RefreshConfig);
    assert(result is Ok ==> steps@ =~= seq![ChoiceStep::RefreshConfig]);
    steps
}

/// Who is asked is told which workspace it is about, and is asked about each but once.
pub proof fn law_the_workspace_is_named(
    workspace: Seq<Seq<char>>,
    prompted: Seq<Vec<String>>,
    other: Vec<String>,
)
    ensures
        crate::text::ends_with(question(workspace), paths::joined(workspace)),
        !was_prompted(Seq::<Vec<String>>::empty(), workspace),
        was_prompted(prompted.push(other), workspace) <==> was_prompted(prompted, workspace)
            || paths::parts(other@) == workspace,
{
    let asked = question(workspace);
    let path = paths::joined(workspace);
    assert(asked.skip(asked.len() - path.len()) =~= path);
    let more = prompted.push(other);
    assert(more[prompted.len() as int] == other);
    if was_prompted(prompted, workspace) {
        let i = choose|i: int|
            0 <= i < prompted.len() && paths::parts((#[trigger] prompted[i])@) == workspace;
        assert(more[i] == prompted[i]);
    }
    if was_prompted(more, workspace) {
        let i = choose|i: int|
            0 <= i < more.len() && paths::parts((#[trigger] more[i])@) == workspace;
        if i < prompted.len() {
            assert(prompted[i] == more[i]);
        }
    }
}

} // verus!
