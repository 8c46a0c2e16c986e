//! What typing and commands do to completions, signatures and saving.

use vstd::prelude::*;

use crate::handlers::completion::request::CompletionEvent;
use crate::keymap::key::Mode;
use crate::keymap::trie::{CommandKind, MappableCommand};
use crate::text::same_text;

verus! {

/// What follows a command or a character.
#[derive(Debug, Clone, Copy, PartialEq, Eq, Structural)]
pub enum LocalAction {
    /// The completion shown at the cursor goes away.
    ClearInlineCompletion,
    /// The list of completions is narrowed by a character, or widened.
    UpdateCompletionFilter(Option<char>),
    /// The list of completions goes away.
    ClearCompletion,
    SendCompletion(CompletionEvent),
    TriggerAutoCompletion,
    /// Whether signatures are of interest behind the typed character is looked into.
    CheckSignatureTrigger,
    TriggerSignatureHelp,
    CancelSignatureHelp,
    RemoveSignatureHelp,
    /// Saving that was put off is caught up on.
    LeftInsertModeForSave,
    /// Reading documents again that was put off is caught up on.
    LeftInsertModeForReload,
    /// Diagnostics are shown beside the text, or not while text is typed in.
    ShowDiagnostics(bool),
}

pub fn update_completion_filter(c: Option<char>) -> (r: LocalAction)
    ensures
        r == LocalAction::UpdateCompletionFilter(c),
{
    LocalAction::UpdateCompletionFilter(c)
}

pub fn clear_completions() -> (r: LocalAction)
    ensures
        r == LocalAction::ClearCompletion,
{
    LocalAction::ClearCompletion
}

/// What a command does to the list of completions while it is shown.
pub open spec fn effect_on_list(command: MappableCommand) -> Seq<LocalAction> {
    let name = command.name@;
    if command.kind is Engine && (name == "delete_word_forward"@ || name
        == "delete_char_forward"@) {
        seq![]
    } else if command.kind is Frontend && name == "completion"@ {
        seq![]
    } else if command.kind is Engine && name == "delete_char_backward"@ {
        seq![LocalAction::UpdateCompletionFilter(None)]
    } else {
        seq![LocalAction::ClearCompletion]
    }
}

/// What a command does to completions that were asked for.
pub open spec fn effect_on_request(command: MappableCommand, cursor: usize) -> Seq<LocalAction> {
    let name = command.name@;
    if command.kind is Engine && (name == "delete_char_backward"@ || name
        == "delete_word_forward"@ || name == "delete_char_forward"@) {
        seq![LocalAction::SendCompletion(CompletionEvent::DeleteText { cursor })]
    } else if command.kind is Frontend && (name == "completion"@ || name == "insert_mode"@ || name
        == "append_mode"@) {
        seq![]
    } else {
        seq![LocalAction::SendCompletion(CompletionEvent::Cancel)]
    }
}

/// What follows a command.
pub open spec fn actions_after_command(
    command: MappableCommand,
    inserting: bool,
    list_shown: bool,
    cursor: usize,
) -> Seq<LocalAction> {
    if !inserting {
        seq![]
    } else {
        (if command.name@ == "inline_completion"@ || command.name@ == "accept_inline_completion"@ {
            Seq::<LocalAction>::empty()
        } else {
            seq![LocalAction::ClearInlineCompletion]
        }) + (if list_shown {
            effect_on_list(command)
        } else {
            effect_on_request(command, cursor)
        })
    }
}

fn is_engine(command: &MappableCommand) -> (r: bool)
    ensures
        r == command.kind is Engine,
{
    match command.kind {
        CommandKind::Engine { .. } => true,
        _ => false,
    }
}

fn is_frontend(command: &MappableCommand) -> (r: bool)
    ensures
        r == command.kind is Frontend,
{
    match command.kind {
        CommandKind::Frontend => true,
        _ => false,
    }
}

/// What follows a command while text is typed in: deleting keeps completions as far as it can,
/// asking for them keeps them, and any other command calls them off.
pub fn post_command(
    command: &MappableCommand,
    inserting: bool,
    list_shown: bool,
    cursor: usize,
) -> (r: Vec<LocalAction>)
    ensures
        r@ == actions_after_command(*command, inserting, list_shown, cursor),
{
    let mut actions: Vec<LocalAction> = Vec::new();
    if !inserting {
        assert(actions@ =~= Seq::<LocalAction>::empty());
        return actions;
    }
    let name = command.name.as_str();
    if !same_text(name, "inline_completion") && !same_text(name, "accept_inline_completion") {
        actions.push(LocalAction::ClearInlineCompletion);
    }
    let deletes_forward = is_engine(command) && (same_text(name, "delete_word_forward")
        || same_text(name, "delete_char_forward"));
    let deletes_backward = is_engine(command) && same_text(name, "delete_char_backward");
    let completes = is_frontend(command) && same_text(name, "completion");
    if list_shown {
        if deletes_forward || completes {
        } else if deletes_backward {
            actions.push(update_completion_filter(None));
        } else {
            actions.push(clear_completions());
        }
    } else {
        let enters = is_frontend(command) && (same_text(name, "insert_mode") || same_text(
            name,
            "append_mode",
        ));
        if deletes_forward || deletes_backward {
            actions.push(LocalAction::SendCompletion(CompletionEvent::DeleteText { cursor }));
        } else if completes || enters {
        } else {
            actions.push(LocalAction::SendCompletion(CompletionEvent::Cancel));
        }
    }
    assert(actions@ =~= actions_after_command(*command, inserting, list_shown, cursor));
    actions
}

/// What follows a typed character.
pub fn post_insert_char(c: char, list_shown: bool) -> (r: Vec<LocalAction>)
    ensures
        r@ == seq![
            if list_shown {
                LocalAction::UpdateCompletionFilter(Some(c))
            } else {
                LocalAction::TriggerAutoCompletion
            },
            LocalAction::CheckSignatureTrigger,
        ],
{
    let mut actions: Vec<LocalAction> = Vec::new();
    if list_shown {
        actions.push(update_completion_filter(Some(c)));
    } else {
        actions.push(LocalAction::TriggerAutoCompletion);
    }
    actions.push(LocalAction::CheckSignatureTrigger);
    assert(actions@ =~= seq![
        if list_shown {
            LocalAction::UpdateCompletionFilter(Some(c))
        } else {
            LocalAction::TriggerAutoCompletion
        },
        LocalAction::CheckSignatureTrigger,
    ]);
    actions
}

/// What follows a change of mode.
pub open spec fn actions_after_switch(old_mode: Mode, new_mode: Mode, auto_signature_help: bool) -> Seq<
    LocalAction,
> {
    (if old_mode == Mode::Insert {
        seq![
            LocalAction::ClearInlineCompletion,
            LocalAction::SendCompletion(CompletionEvent::Cancel),
            LocalAction::ClearCompletion,
            LocalAction::LeftInsertModeForSave,
            LocalAction::LeftInsertModeForReload,
            LocalAction::CancelSignatureHelp,
            LocalAction::RemoveSignatureHelp,
        ]
    } else if new_mode == Mode::Insert {
        if auto_signature_help {
            seq![LocalAction::TriggerAutoCompletion, LocalAction::TriggerSignatureHelp]
        } else {
            seq![LocalAction::TriggerAutoCompletion]
        }
    } else {
        seq![]
    }).push(LocalAction::ShowDiagnostics(new_mode != Mode::Insert))
}

/// What follows a change of mode: when typing is over, everything that belongs to it goes away
/// and what was put off is caught up on; when it begins, completions are looked for.
pub fn mode_switch(old_mode: Mode, new_mode: Mode, auto_signature_help: bool) -> (r: Vec<LocalAction>)
    ensures
        r@ == actions_after_switch(old_mode, new_mode, auto_signature_help),
{
    let mut actions: Vec<LocalAction> = Vec::new();
    if old_mode == Mode::Insert {
        actions.push(LocalAction::ClearInlineCompletion);
        actions.push(LocalAction::SendCompletion(CompletionEvent::Cancel));
        actions.push(clear_completions());
        actions.push(LocalAction::LeftInsertModeForSave);
        actions.push(LocalAction::LeftInsertModeForReload);
        actions.push(LocalAction::CancelSignatureHelp);
        actions.push(LocalAction::RemoveSignatureHelp);
    } else if new_mode == Mode::Insert {
        actions.push(LocalAction::TriggerAutoCompletion);
        if auto_signature_help {
            actions.push(LocalAction::TriggerSignatureHelp);
        }
    }
    actions.push(LocalAction::ShowDiagnostics(new_mode != Mode::Insert));
    assert(actions@ =~= actions_after_switch(old_mode, new_mode, auto_signature_help));
    actions
}

/// Leaving insert mode ends everything that only makes sense while typing; entering it asks for
/// completions; other switches touch neither. Diagnostics show exactly outside insert mode.
pub proof fn law_switching_modes_tidies_up(old_mode: Mode, new_mode: Mode, auto_signature_help: bool)
    ensures
        ({
            let actions = actions_after_switch(old_mode, new_mode, auto_signature_help);
            &&& actions.last() == LocalAction::ShowDiagnostics(new_mode != Mode::Insert)
            &&& old_mode == Mode::Insert ==> actions.contains(LocalAction::ClearInlineCompletion)
                && actions.contains(LocalAction::ClearCompletion) && actions.contains(
                LocalAction::SendCompletion(CompletionEvent::Cancel),
            ) && actions.contains(LocalAction::LeftInsertModeForSave) && actions.contains(
                LocalAction::LeftInsertModeForReload,
            ) && actions.contains(LocalAction::CancelSignatureHelp) && actions.contains(
                LocalAction::RemoveSignatureHelp,
            ) && actions.len() == 8
            &&& old_mode != Mode::Insert && new_mode == Mode::Insert ==> actions[0]
                == LocalAction::TriggerAutoCompletion && actions.contains(
                LocalAction::TriggerSignatureHelp,
            ) == auto_signature_help
            &&& old_mode != Mode::Insert && new_mode != Mode::Insert ==> actions.len() == 1
        }),
{
    let actions = actions_after_switch(old_mode, new_mode, auto_signature_help);
    if old_mode == Mode::Insert {
        assert(actions[0] == LocalAction::ClearInlineCompletion);
        assert(actions[1] == LocalAction::SendCompletion(CompletionEvent::Cancel));
        assert(actions[2] == LocalAction::ClearCompletion);
        assert(actions[3] == LocalAction::LeftInsertModeForSave);
        assert(actions[4] == LocalAction::LeftInsertModeForReload);
        assert(actions[5] == LocalAction::CancelSignatureHelp);
        assert(actions[6] == LocalAction::RemoveSignatureHelp);
    } else if new_mode == Mode::Insert && auto_signature_help {
        assert(actions[1] == LocalAction::TriggerSignatureHelp);
    }
}

/// Outside insert mode a command does nothing to completions. Inside it every command takes a
/// suggestion away that is not about suggestions, and any but those that only delete or complete
/// closes the list.
pub proof fn law_commands_close_the_list(command: MappableCommand, cursor: usize)
    ensures
        actions_after_command(command, false, true, cursor).len() == 0,
        actions_after_command(command, false, false, cursor).len() == 0,
        command.name@ != "inline_completion"@ && command.name@ != "accept_inline_completion"@ ==> {
            &&& actions_after_command(command, true, true, cursor)[0]
                == LocalAction::ClearInlineCompletion
            &&& actions_after_command(command, true, false, cursor)[0]
                == LocalAction::ClearInlineCompletion
        },
        !(command.kind is Engine) && command.name@ != "completion"@ ==> effect_on_list(command)
            == seq![LocalAction::ClearCompletion],
        command.kind is Engine && command.name@ == "delete_char_backward"@ ==> effect_on_request(
            command,
            cursor,
        ) == seq![LocalAction::SendCompletion(CompletionEvent::DeleteText { cursor })],
{
}

/// Deleting tells what completions were asked for how far it went; asking for them and beginning to
/// type leaves them, and any other command calls them off.
pub proof fn law_other_commands_call_completions_off(command: MappableCommand, cursor: usize)
    ensures
        ({
            let name = command.name@;
            let deletes = name == "delete_char_backward"@ || name == "delete_word_forward"@ || name
                == "delete_char_forward"@;
            let leaves = name == "completion"@ || name == "insert_mode"@ || name == "append_mode"@;
            let effect = effect_on_request(command, cursor);
            &&& command.kind is Engine && deletes ==> effect == seq![
                LocalAction::SendCompletion(CompletionEvent::DeleteText { cursor }),
            ]
            &&& command.kind is Frontend && leaves ==> effect.len() == 0
            &&& command.kind is Engine && !deletes ==> effect == seq![
                LocalAction::SendCompletion(CompletionEvent::Cancel),
            ]
            &&& command.kind is Frontend && !leaves ==> effect == seq![
                LocalAction::SendCompletion(CompletionEvent::Cancel),
            ]
            &&& !(command.kind is Engine) && !(command.kind is Frontend) ==> effect == seq![
                LocalAction::SendCompletion(CompletionEvent::Cancel),
            ]
        }),
{
}

} // verus!
