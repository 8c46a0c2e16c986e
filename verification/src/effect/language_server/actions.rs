//! What single answers of a server make the editor do.

use vstd::prelude::*;

use crate::handlers::signature_help::{SignatureHelpInvoked, SignatureRequest, TriggerKind};
use crate::text;
use crate::text::{chars_end_with, chars_of, same_text};

verus! {

/// The first of the texts that the text before the cursor ends with.
pub open spec fn first_suffix(before: Seq<char>, triggers: Seq<String>) -> Option<Seq<char>>
    decreases triggers.len(),
{
    if triggers.len() == 0 {
        None
    } else if text::ends_with(before, triggers[0]@) {
        Some(triggers[0]@)
    } else {
        first_suffix(before, triggers.drop_first())
    }
}

fn find_suffix(before: &[char], triggers: &Vec<String>) -> (r: Option<String>)
    ensures
        match r {
            Some(found) => first_suffix(before@, triggers@) == Some(found@),
            None => first_suffix(before@, triggers@) is None,
        },
{
    let mut i: usize = 0;
    assert(triggers@.skip(0) =~= triggers@);
    while i < triggers.len()
        invariant
            i <= triggers@.len(),
            first_suffix(before@, triggers@) == first_suffix(before@, triggers@.skip(i as int)),
        decreases triggers@.len() - i,
    {
        assert(triggers@.skip(i as int).drop_first() =~= triggers@.skip(i + 1));
        let chars = chars_of(triggers[i].as_str());
        if chars_end_with(before, chars.as_slice()) {
            return Some(triggers[i].clone());
        }
        i += 1;
    }
    None
}

/// The characters on which a server offers signatures.
#[derive(Debug)]
pub struct SignatureHelpOptions {
    pub trigger_characters: Option<Vec<String>>,
    pub retrigger_characters: Option<Vec<String>>,
}

impl SignatureHelpOptions {
    pub open spec fn triggers(self) -> Seq<String> {
        match self.trigger_characters {
            Some(triggers) => triggers@,
            None => seq![],
        }
    }

    pub open spec fn retriggers(self) -> Seq<String> {
        match self.retrigger_characters {
            Some(triggers) => triggers@,
            None => seq![],
        }
    }
}

/// Which character made the editor ask for signatures, if a character did: the first that the
/// text before the cursor ends with, those that start a signature before those that keep it.
pub open spec fn trigger_character(
    trigger_kind: TriggerKind,
    options: Option<SignatureHelpOptions>,
    before_cursor: Seq<char>,
) -> Option<Seq<char>> {
    match options {
        Some(options) if trigger_kind == TriggerKind::TriggerCharacter => match first_suffix(
            before_cursor,
            options.triggers(),
        ) {
            Some(found) => Some(found),
            None => first_suffix(before_cursor, options.retriggers()),
        },
        _ => None,
    }
}

/// The character behind which signatures were asked for.
pub fn signature_help_trigger_character(
    trigger_kind: TriggerKind,
    options: &Option<SignatureHelpOptions>,
    before_cursor: &[char],
) -> (r: Option<String>)
    ensures
        match r {
            Some(found) => trigger_character(trigger_kind, *options, before_cursor@) == Some(found@),
            None => trigger_character(trigger_kind, *options, before_cursor@) is None,
        },
{
    if trigger_kind != TriggerKind::TriggerCharacter {
        return None;
    }
    match options {
        Some(options) => {
            if let Some(triggers) = &options.trigger_characters {
                if let Some(found) = find_suffix(before_cursor, triggers) {
                    return Some(found);
                }
            }
            match &options.retrigger_characters {
                Some(triggers) => find_suffix(before_cursor, triggers),
                None => None,
            }
        },
        None => None,
    }
}

/// A server that offers signatures.
#[derive(Debug)]
pub struct SignatureServer {
    /// A question can be put to it.
    pub takes_it: bool,
    pub options: Option<SignatureHelpOptions>,
}

/// What asking for signatures does.
#[derive(Debug)]
pub enum SignatureHelpStart {
    /// The server at this place is asked.
    Ask {
        server: usize,
        trigger_kind: TriggerKind,
        trigger_character: Option<String>,
        is_retrigger: bool,
    },
    /// Nobody can be asked, and somebody wants to know.
    Complain,
    Nothing,
}

/// The place of the first server that takes a question.
pub open spec fn first_taking(servers: Seq<SignatureServer>) -> Option<int>
    decreases servers.len(),
{
    if servers.len() == 0 {
        None
    } else if servers[0].takes_it {
        Some(0int)
    } else {
        match first_taking(servers.drop_first()) {
            Some(i) => Some(i + 1),
            None => None,
        }
    }
}

fn find_taking(servers: &Vec<SignatureServer>) -> (r: Option<usize>)
    ensures
        match r {
            Some(i) => first_taking(servers@) == Some(i as int) && i < servers@.len(),
            None => first_taking(servers@) is None,
        },
{
    let mut i: usize = 0;
    assert(servers@.skip(0) =~= servers@);
    while i < servers.len()
        invariant
            i <= servers@.len(),
            match first_taking(servers@.skip(i as int)) {
                Some(k) => first_taking(servers@) == Some(k + i),
                None => first_taking(servers@) is None,
            },
        decreases servers@.len() - i,
    {
        assert(servers@.skip(i as int).drop_first() =~= servers@.skip(i + 1));
        if servers[i].takes_it {
            return Some(i);
        }
        i += 1;
    }
    None
}

/// Who is asked for signatures, and why. Only somebody who asked by hand is told that nobody can
/// be asked.
pub open spec fn signature_help_started(
    servers: Seq<SignatureServer>,
    before_cursor: Seq<char>,
    asked: SignatureRequest,
    start: SignatureHelpStart,
) -> bool {
    match first_taking(servers) {
        Some(i) => match start {
            SignatureHelpStart::Ask {
                server,
                trigger_kind,
                trigger_character: found,
                is_retrigger,
            } => {
                let expected = trigger_character(
                    asked.trigger_kind,
                    servers[i].options,
                    before_cursor,
                );
                &&& server == i < servers.len()
                &&& trigger_kind == asked.trigger_kind
                &&& is_retrigger == asked.is_retrigger
                &&& match found {
                    Some(found) => expected == Some(found@),
                    None => expected is None,
                }
            },
            _ => false,
        },
        None => start == if asked.invoked == SignatureHelpInvoked::Manual {
            SignatureHelpStart::Complain
        } else {
            SignatureHelpStart::Nothing
        },
    }
}

/// Asks the first server that takes the question.
pub fn request_signature_help(
    servers: &Vec<SignatureServer>,
    before_cursor: &[char],
    asked: SignatureRequest,
) -> (r: SignatureHelpStart)
    ensures
        signature_help_started(servers@, before_cursor@, asked, r),
{
    match find_taking(servers) {
        Some(server) => SignatureHelpStart::Ask {
            server,
            trigger_kind: asked.trigger_kind,
            trigger_character: signature_help_trigger_character(
                asked.trigger_kind,
                &servers[server].options,
                before_cursor,
            ),
            is_retrigger: asked.is_retrigger,
        },
        None => if asked.invoked == SignatureHelpInvoked::Manual {
            SignatureHelpStart::Complain
        } else {
            SignatureHelpStart::Nothing
        },
    }
}

/// What somebody is told when nobody can be asked for signatures.
pub fn no_signature_help() -> (r: String)
    ensures
        r@ == "No configured language server supports signature-help"@,
{
    "No configured language server supports signature-help".to_owned()
}

/// What the editor does, or says.
#[derive(Debug)]
pub enum Outcome<A> {
    Do(A),
    Status(String),
    Error(String),
    Nothing,
}

/// A command goes to a server that carries out commands.
pub open spec fn command_outcome<A>(taken: bool, command: A, outcome: Outcome<A>) -> bool {
    if taken {
        outcome == Outcome::Do(command)
    } else {
        outcome matches Outcome::Error(message) && message@
            == "Language server does not support executing commands"@
    }
}

/// Has a server carry out a command, if it is there and carries out commands.
pub fn apply_execute_lsp_command<A>(server_takes_commands: bool, command: A) -> (r: Outcome<A>)
    ensures
        command_outcome(server_takes_commands, command, r),
{
    if server_takes_commands {
        Outcome::Do(command)
    } else {
        Outcome::Error("Language server does not support executing commands".to_owned())
    }
}

/// A lens of a document, as its server wrote it.
#[derive(Debug)]
pub struct StoredLens {
    pub server_id: u64,
    pub lens: String,
    pub resolved: bool,
}

/// The first lens of a server that reads like this.
pub open spec fn lens_index(lenses: Seq<StoredLens>, server_id: u64, lens: Seq<char>) -> Option<int>
    decreases lenses.len(),
{
    if lenses.len() == 0 {
        None
    } else if lenses[0].server_id == server_id && lenses[0].lens@ == lens {
        Some(0int)
    } else {
        match lens_index(lenses.drop_first(), server_id, lens) {
            Some(i) => Some(i + 1),
            None => None,
        }
    }
}

fn find_lens(lenses: &Vec<StoredLens>, server_id: u64, lens: &str) -> (r: Option<usize>)
    ensures
        match r {
            Some(i) => lens_index(lenses@, server_id, lens@) == Some(i as int) && i < lenses@.len(),
            None => lens_index(lenses@, server_id, lens@) is None,
        },
{
    let mut i: usize = 0;
    assert(lenses@.skip(0) =~= lenses@);
    while i < lenses.len()
        invariant
            i <= lenses@.len(),
            match lens_index(lenses@.skip(i as int), server_id, lens@) {
                Some(k) => lens_index(lenses@, server_id, lens@) == Some(k + i),
                None => lens_index(lenses@, server_id, lens@) is None,
            },
        decreases lenses@.len() - i,
    {
        assert(lenses@.skip(i as int).drop_first() =~= lenses@.skip(i + 1));
        if lenses[i].server_id == server_id && same_text(lenses[i].lens.as_str(), lens) {
            return Some(i);
        }
        i += 1;
    }
    None
}

/// A lens of a document that has not changed is known from now on; its command is carried out.
pub open spec fn lens_resolved<A>(
    unchanged: bool,
    before: Seq<StoredLens>,
    resolved: StoredLens,
    original: Seq<char>,
    command: Option<A>,
    after: Seq<StoredLens>,
    outcome: Outcome<A>,
) -> bool {
    match lens_index(before, resolved.server_id, original) {
        Some(i) if unchanged => {
            &&& 0 <= i < before.len()
            &&& after == before.update(i, resolved)
            &&& match command {
                Some(action) => outcome == Outcome::Do(action),
                None => outcome matches Outcome::Error(message) && message@
                    == "Code lens did not resolve to a command"@,
            }
        },
        _ => {
            &&& after == before
            &&& outcome matches Outcome::Status(message) && message@
                == "Code lens changed before it resolved"@
        },
    }
}

/// Takes in what a lens turned out to do. It goes into the place of the lens that was asked
/// about; if the document has changed or the lens is gone, only that is said.
pub fn apply_resolved_code_lens<A>(
    document_version: Option<i32>,
    expected_version: i32,
    lenses: &mut Vec<StoredLens>,
    server_id: u64,
    original: &str,
    resolved: String,
    command: Option<A>,
) -> (r: Outcome<A>)
    ensures
        lens_resolved(
            document_version == Some(expected_version),
            old(lenses)@,
            StoredLens { server_id, lens: resolved, resolved: true },
            original@,
            command,
            final(lenses)@,
            r,
        ),
{
    let current = match document_version {
        Some(version) => version == expected_version,
        None => false,
    };
    let found = find_lens(lenses, server_id, original);
    if !current || found.is_none() {
        return Outcome::Status("Code lens changed before it resolved".to_owned());
    }
    if let Some(i) = found {
        lenses[i] = StoredLens { server_id, lens: resolved, resolved: true };
    }
    match command {
        Some(action) => Outcome::Do(action),
        None => Outcome::Error("Code lens did not resolve to a command".to_owned()),
    }
}

/// Where a link leads, as far as it was looked into.
#[derive(Debug)]
pub struct LinkTarget {
    pub scheme: String,
    /// Whether it can be read as the address of a file.
    pub is_file_uri: bool,
    /// The path it leads to, if it leads to one.
    pub path: Option<String>,
}

/// What following a link does.
#[derive(Debug)]
pub enum FollowLink {
    OpenPath(String),
    OpenExternally,
}

/// Where a link of a document leads.
pub open spec fn link_followed(
    unchanged: bool,
    target: LinkTarget,
    outcome: Outcome<FollowLink>,
) -> bool {
    if !unchanged {
        outcome matches Outcome::Status(message) && message@
            == "Document link changed before it resolved"@
    } else if target.scheme@ != "file"@ {
        outcome == Outcome::<FollowLink>::Do(FollowLink::OpenExternally)
    } else if !target.is_file_uri {
        outcome matches Outcome::Error(message) && message@
            == "Document link target is not a valid file URI"@
    } else {
        match target.path {
            Some(path) => outcome == Outcome::<FollowLink>::Do(FollowLink::OpenPath(path)),
            None => outcome matches Outcome::Error(message) && message@
                == "Document link target is not a local path"@,
        }
    }
}

/// Follows a link of a document that has not changed meanwhile: into the editor if it leads to a
/// file, out of it otherwise.
pub fn apply_resolved_document_link(
    document_version: Option<i32>,
    expected_version: i32,
    target: LinkTarget,
) -> (r: Outcome<FollowLink>)
    ensures
        link_followed(document_version == Some(expected_version), target, r),
{
    let current = match document_version {
        Some(version) => version == expected_version,
        None => false,
    };
    if !current {
        return Outcome::Status("Document link changed before it resolved".to_owned());
    }
    if !same_text(target.scheme.as_str(), "file") {
        return Outcome::Do(FollowLink::OpenExternally);
    }
    if !target.is_file_uri {
        return Outcome::Error("Document link target is not a valid file URI".to_owned());
    }
    match target.path {
        Some(path) => Outcome::Do(FollowLink::OpenPath(path)),
        None => Outcome::Error("Document link target is not a local path".to_owned()),
    }
}

/// The edits of a renaming are made in a document that has not changed.
pub open spec fn rename_outcome<E>(unchanged: bool, edit: E, outcome: Outcome<E>) -> bool {
    if unchanged {
        outcome == Outcome::Do(edit)
    } else {
        outcome matches Outcome::Status(message) && message@
            == "Document changed before rename completed"@
    }
}

/// Makes the edits of a renaming if the document has not changed meanwhile.
pub fn apply_rename_edit<E>(
    document_version: Option<i32>,
    expected_version: i32,
    workspace_edit: E,
) -> (r: Outcome<E>)
    ensures
        rename_outcome(document_version == Some(expected_version), workspace_edit, r),
{
    let current = match document_version {
        Some(version) => version == expected_version,
        None => false,
    };
    if current {
        Outcome::Do(workspace_edit)
    } else {
        Outcome::Status("Document changed before rename completed".to_owned())
    }
}

/// What somebody is told when the edits of a renaming could not be made.
pub fn rename_failed(kind: &str) -> (r: String)
    ensures
        r@ == "Failed to apply rename edits: "@ + kind@,
{
    text::join("Failed to apply rename edits: ", kind)
}

/// A code action, or a bare command.
#[derive(Debug)]
#[allow(inconsistent_fields)]
pub enum CodeActionItem<E, C> {
    Command(C),
    CodeAction { edit: Option<E>, command: Option<C> },
}

/// What carrying out a code action does.
#[derive(Debug)]
#[allow(inconsistent_fields)]
pub enum CodeActionStep<E, C> {
    Execute(C),
    /// Its server is asked for the rest of it first.
    Resolve { edit: Option<E>, command: Option<C> },
    Apply { edit: Option<E>, command: Option<C> },
}

/// How a chosen code action is carried out. One that lacks its edit or its command is completed
/// by its server first, where the server does that.
pub fn request_apply_code_action<E, C>(
    server_exists: bool,
    server_resolves: bool,
    item: CodeActionItem<E, C>,
) -> (r: Outcome<CodeActionStep<E, C>>)
    ensures
        if !server_exists {
            r matches Outcome::Error(message) && message@ == "Language Server disappeared"@
        } else {
            r == match item {
                CodeActionItem::Command(command) => Outcome::Do(CodeActionStep::Execute(command)),
                CodeActionItem::CodeAction { edit, command } => if (edit is None || command is None)
                    && server_resolves {
                    Outcome::Do(CodeActionStep::Resolve { edit, command })
                } else {
                    Outcome::Do(CodeActionStep::Apply { edit, command })
                },
            }
        },
{
    if !server_exists {
        return Outcome::Error("Language Server disappeared".to_owned());
    }
    match item {
        CodeActionItem::Command(command) => Outcome::Do(CodeActionStep::Execute(command)),
        CodeActionItem::CodeAction { edit, command } => {
            if (edit.is_none() || command.is_none()) && server_resolves {
                Outcome::Do(CodeActionStep::Resolve { edit, command })
            } else {
                Outcome::Do(CodeActionStep::Apply { edit, command })
            }
        },
    }
}

/// What a server made of a code action, or the action as it was if that failed.
pub fn completed_code_action<A>(original: A, resolved: Option<A>) -> (r: A)
    ensures
        r == match resolved {
            Some(better) => better,
            None => original,
        },
{
    match resolved {
        Some(better) => better,
        None => original,
    }
}

/// What a complete code action does: its edit and then its command.
#[derive(Debug)]
#[allow(inconsistent_fields)]
pub enum CodeActionEffect<E, C> {
    Edit { edit: E, then_execute: Option<C> },
    Execute(C),
    Nothing,
}

pub open spec fn code_action_effect<E, C>(workspace_edit: Option<E>, command: Option<C>) -> CodeActionEffect<
    E,
    C,
> {
    match (workspace_edit, command) {
        (Some(edit), then_execute) => CodeActionEffect::Edit { edit, then_execute },
        (None, Some(command)) => CodeActionEffect::Execute(command),
        (None, None) => CodeActionEffect::Nothing,
    }
}

pub fn apply_code_action<E, C>(workspace_edit: Option<E>, command: Option<C>) -> (r: CodeActionEffect<
    E,
    C,
>)
    ensures
        r == code_action_effect(workspace_edit, command),
{
    match workspace_edit {
        Some(edit) => CodeActionEffect::Edit { edit, then_execute: command },
        None => match command {
            Some(command) => CodeActionEffect::Execute(command),
            None => CodeActionEffect::Nothing,
        },
    }
}

/// The ranges that are in the text.
pub open spec fn present(ranges: Seq<Option<(usize, usize)>>) -> Seq<(usize, usize)>
    decreases ranges.len(),
{
    if ranges.len() == 0 {
        seq![]
    } else {
        let rest = present(ranges.drop_last());
        match ranges.last() {
            Some(range) => rest.push(range),
            None => rest,
        }
    }
}

pub open spec fn around(range: (usize, usize), at: usize) -> bool {
    range.0 <= at < range.1
}

/// The last range around the cursor, or else the first.
pub open spec fn primary_range(ranges: Seq<(usize, usize)>, cursor: usize) -> nat
    decreases ranges.len(),
{
    if ranges.len() == 0 {
        0
    } else if around(ranges.last(), cursor) {
        (ranges.len() - 1) as nat
    } else {
        primary_range(ranges.drop_last(), cursor)
    }
}

/// A selection: ranges, and the one that counts most.
#[derive(Debug)]
pub struct Selected {
    pub ranges: Vec<(usize, usize)>,
    pub primary: usize,
}

/// The ranges that are in the text are selected; the one around the cursor counts most.
pub open spec fn selects(
    selected: Selected,
    ranges: Seq<Option<(usize, usize)>>,
    cursor: usize,
) -> bool {
    &&& selected.ranges@ == present(ranges)
    &&& selected.primary == primary_range(present(ranges), cursor)
    &&& selected.primary < selected.ranges@.len()
}

/// Selects the ranges of an answer (highlights, or ranges that are edited together). The range
/// around the cursor counts most. Nothing is selected if no range is in the text.
pub fn select_ranges(ranges: &Vec<Option<(usize, usize)>>, cursor: usize) -> (r: Option<Selected>)
    ensures
        match r {
            Some(selected) => selects(selected, ranges@, cursor),
            None => present(ranges@).len() == 0,
        },
{
    let mut out: Vec<(usize, usize)> = Vec::new();
    let mut primary: usize = 0;
    let mut i: usize = 0;
    assert(ranges@.take(0) =~= seq![]);
    while i < ranges.len()
        invariant
            i <= ranges@.len(),
            out@ == present(ranges@.take(i as int)),
            primary == primary_range(out@, cursor),
            primary < out@.len() || primary == 0,
        decreases ranges@.len() - i,
    {
        assert(ranges@.take(i + 1).drop_last() =~= ranges@.take(i as int));
        if let Some(range) = ranges[i] {
            let ghost before = out@;
            if range.0 <= cursor && cursor < range.1 {
                primary = out.len();
            }
            out.push(range);
            assert(out@.drop_last() =~= before);
        }
        i += 1;
    }
    assert(ranges@.take(i as int) =~= ranges@);
    if out.len() == 0 {
        None
    } else {
        Some(Selected { ranges: out, primary })
    }
}

/// The trigger that is found is the first that the text in front of the cursor ends with.
pub proof fn law_the_first_trigger_is_found(before: Seq<char>, triggers: Seq<String>)
    ensures
        match first_suffix(before, triggers) {
            Some(found) => exists|i: int|
                {
                    &&& 0 <= i < triggers.len()
                    &&& (#[trigger] triggers[i])@ == found
                    &&& found.len() <= before.len()
                    &&& before.skip(before.len() - found.len()) == found
                    &&& forall|j: int|
                        0 <= j < i ==> !text::ends_with(before, (#[trigger] triggers[j])@)
                },
            None => forall|i: int|
                0 <= i < triggers.len() ==> !text::ends_with(before, (#[trigger] triggers[i])@),
        },
    decreases triggers.len(),
{
    if triggers.len() > 0 {
        if text::ends_with(before, triggers[0]@) {
            assert(triggers[0]@ == first_suffix(before, triggers)->0);
        } else {
            let rest = triggers.drop_first();
            law_the_first_trigger_is_found(before, rest);
            assert forall|i: int| 0 < i < triggers.len() implies #[trigger] triggers[i] == rest[i
                - 1] by {}
            match first_suffix(before, rest) {
                Some(found) => {
                    let i = choose|i: int|
                        {
                            &&& 0 <= i < rest.len()
                            &&& (#[trigger] rest[i])@ == found
                            &&& found.len() <= before.len()
                            &&& before.skip(before.len() - found.len()) == found
                            &&& forall|j: int|
                                0 <= j < i ==> !text::ends_with(before, (#[trigger] rest[j])@)
                        };
                    assert(triggers[i + 1]@ == found);
                    assert forall|j: int| 0 <= j < i + 1 implies !text::ends_with(
                        before,
                        (#[trigger] triggers[j])@,
                    ) by {
                        if j > 0 {
                            assert(rest[j - 1] == triggers[j]);
                        }
                    }
                },
                None => {
                    assert forall|i: int| 0 <= i < triggers.len() implies !text::ends_with(
                        before,
                        (#[trigger] triggers[i])@,
                    ) by {
                        if i > 0 {
                            assert(rest[i - 1] == triggers[i]);
                        }
                    }
                },
            }
        }
    }
}

/// Characters that start help come before those that only continue it, and both count only when a
/// character was typed.
pub proof fn law_triggers_come_before_retriggers(
    options: SignatureHelpOptions,
    before_cursor: Seq<char>,
    kind: TriggerKind,
)
    ensures
        kind != TriggerKind::TriggerCharacter ==> trigger_character(
            kind,
            Some(options),
            before_cursor,
        ) is None,
        trigger_character(kind, None, before_cursor) is None,
        options.trigger_characters matches Some(triggers) ==> forall|i: int|
            0 <= i < triggers@.len() && text::ends_with(before_cursor, (#[trigger] triggers@[i])@)
                ==> trigger_character(
                TriggerKind::TriggerCharacter,
                Some(options),
                before_cursor,
            ) == first_suffix(before_cursor, triggers@),
{
    law_the_first_trigger_is_found(before_cursor, options.triggers());
}

/// The server that is asked is the first that gives help.
pub proof fn law_the_first_server_with_help_is_asked(servers: Seq<SignatureServer>)
    ensures
        match first_taking(servers) {
            Some(i) => 0 <= i < servers.len() && servers[i].takes_it && forall|j: int|
                0 <= j < i ==> !(#[trigger] servers[j]).takes_it,
            None => forall|i: int| 0 <= i < servers.len() ==> !(#[trigger] servers[i]).takes_it,
        },
    decreases servers.len(),
{
    if servers.len() > 0 {
        let rest = servers.drop_first();
        law_the_first_server_with_help_is_asked(rest);
        assert forall|i: int| 0 < i < servers.len() implies #[trigger] servers[i] == rest[i
            - 1] by {}
    }
}

/// The lens that an answer is for is the first of its server with that text.
pub proof fn law_the_first_lens_of_its_text_is_found(
    lenses: Seq<StoredLens>,
    server_id: u64,
    lens: Seq<char>,
)
    ensures
        match lens_index(lenses, server_id, lens) {
            Some(i) => 0 <= i < lenses.len() && lenses[i].server_id == server_id && lenses[i].lens@
                == lens && forall|j: int|
                0 <= j < i ==> !((#[trigger] lenses[j]).server_id == server_id && lenses[j].lens@
                    == lens),
            None => forall|i: int|
                0 <= i < lenses.len() ==> !((#[trigger] lenses[i]).server_id == server_id
                    && lenses[i].lens@ == lens),
        },
    decreases lenses.len(),
{
    if lenses.len() > 0 {
        let rest = lenses.drop_first();
        law_the_first_lens_of_its_text_is_found(rest, server_id, lens);
        assert forall|i: int| 0 < i < lenses.len() implies #[trigger] lenses[i] == rest[i - 1] by {}
    }
}

/// An answer to a lens changes that lens alone, and nothing if the document has changed.
pub proof fn law_answers_resolve_one_lens<A>(
    unchanged: bool,
    before: Seq<StoredLens>,
    resolved: StoredLens,
    original: Seq<char>,
    command: Option<A>,
    after: Seq<StoredLens>,
    outcome: Outcome<A>,
    i: int,
)
    requires
        lens_resolved(unchanged, before, resolved, original, command, after, outcome),
        0 <= i < before.len(),
    ensures
        after.len() == before.len(),
        after[i] == before[i] || (after[i] == resolved && unchanged && before[i].server_id
            == resolved.server_id && before[i].lens@ == original),
        outcome matches Outcome::Do(action) ==> unchanged && command == Some(action),
        unchanged && before[i].server_id == resolved.server_id && before[i].lens@ == original
            && command is Some ==> outcome == Outcome::Do(command->0),
        !unchanged ==> outcome is Status,
{
    law_the_first_lens_of_its_text_is_found(before, resolved.server_id, original);
}

/// Ranges that are in the text are selected, in order; the main one is the last of them around the
/// cursor, or the first if the cursor is in none.
pub proof fn law_the_range_around_the_cursor_is_the_main_one(
    ranges: Seq<(usize, usize)>,
    cursor: usize,
)
    ensures
        ({
            let main = primary_range(ranges, cursor) as int;
            &&& ranges.len() > 0 ==> main < ranges.len()
            &&& forall|i: int|
                0 <= i < ranges.len() && (#[trigger] ranges[i]).0 <= cursor < ranges[i].1 ==> i
                    <= main && ranges[main].0 <= cursor < ranges[main].1
            &&& (forall|i: int|
                0 <= i < ranges.len() ==> !((#[trigger] ranges[i]).0 <= cursor < ranges[i].1))
                ==> main == 0
        }),
    decreases ranges.len(),
{
    if ranges.len() > 0 {
        let front = ranges.drop_last();
        law_the_range_around_the_cursor_is_the_main_one(front, cursor);
        assert(ranges[ranges.len() - 1] == ranges.last());
        assert forall|i: int| 0 <= i < front.len() implies #[trigger] ranges[i] == front[i] by {}
        let main = primary_range(ranges, cursor) as int;
        if !around(ranges.last(), cursor) {
            assert forall|i: int|
                0 <= i < ranges.len() && (#[trigger] ranges[i]).0 <= cursor < ranges[i].1 implies i
                <= main && ranges[main].0 <= cursor < ranges[main].1 by {
                assert(front[i].0 <= cursor < front[i].1);
                assert(front[main] == ranges[main]);
            }
            if forall|i: int|
                0 <= i < ranges.len() ==> !((#[trigger] ranges[i]).0 <= cursor < ranges[i].1) {
                assert forall|i: int| 0 <= i < front.len() implies !((#[trigger] front[i]).0
                    <= cursor < front[i].1) by {
                    assert(ranges[i] == front[i]);
                }
            }
        }
    }
}

/// Each range that is in the text is there, in its turn.
pub proof fn law_ranges_in_the_text_are_selected(
    ranges: Seq<Option<(usize, usize)>>,
    range: (usize, usize),
)
    ensures
        present(Seq::<Option<(usize, usize)>>::empty()).len() == 0,
        present(ranges.push(None)) == present(ranges),
        present(ranges.push(Some(range))) == present(ranges).push(range),
{
    assert(ranges.push(None).drop_last() =~= ranges);
    assert(ranges.push(Some(range)).drop_last() =~= ranges);
}

/// An edit is made before its command runs; without an edit the command runs, without either
/// nothing happens.
pub proof fn law_edits_come_before_commands<E, C>(edit: E, command: C)
    ensures
        code_action_effect(Some(edit), Some(command)) == (CodeActionEffect::Edit {
            edit,
            then_execute: Some(command),
        }),
        code_action_effect::<E, C>(Some(edit), None) == (CodeActionEffect::<E, C>::Edit {
            edit,
            then_execute: None,
        }),
        code_action_effect::<E, C>(None, Some(command)) == CodeActionEffect::<E, C>::Execute(
            command,
        ),
        code_action_effect::<E, C>(None, None) is Nothing,
{
}

/// Help is asked of the first server that gives it, as it was asked for; without one somebody who
/// asked by hand is told, and nobody else.
pub proof fn law_help_is_asked_of_the_first_server(
    servers: Seq<SignatureServer>,
    before_cursor: Seq<char>,
    asked: SignatureRequest,
    start: SignatureHelpStart,
    i: int,
)
    requires
        signature_help_started(servers, before_cursor, asked, start),
    ensures
        0 <= i < servers.len() && servers[i].takes_it && (forall|j: int|
            0 <= j < i ==> !(#[trigger] servers[j]).takes_it) ==> (start matches SignatureHelpStart::Ask {
            server,
            trigger_kind,
            trigger_character: found,
            is_retrigger,
        } && server == i && trigger_kind == asked.trigger_kind && is_retrigger
            == asked.is_retrigger && (asked.trigger_kind != TriggerKind::TriggerCharacter ==> found
            is None)),
        (forall|j: int| 0 <= j < servers.len() ==> !(#[trigger] servers[j]).takes_it) ==> (if asked.invoked
            == SignatureHelpInvoked::Manual {
            start is Complain
        } else {
            start is Nothing
        }),
{
    law_the_first_server_with_help_is_asked(servers);
}

/// A link is followed only while its document is as it was: to a file if it leads to one, and else
/// outside; what leads nowhere is told.
pub proof fn law_links_are_followed_where_they_lead(
    target: LinkTarget,
    outcome: Outcome<FollowLink>,
    unchanged: bool,
)
    requires
        link_followed(unchanged, target, outcome),
    ensures
        outcome is Do ==> unchanged,
        !unchanged ==> outcome is Status,
        unchanged && target.scheme@ != "file"@ ==> outcome == Outcome::<FollowLink>::Do(
            FollowLink::OpenExternally,
        ),
        unchanged && target.scheme@ == "file"@ && target.is_file_uri && target.path is Some
            ==> outcome == Outcome::<FollowLink>::Do(FollowLink::OpenPath(target.path->0)),
        unchanged && target.scheme@ == "file"@ && (!target.is_file_uri || target.path is None)
            ==> outcome is Error,
{
}

/// A rename is applied only to the document it was asked for, and a command runs only on a server
/// that takes commands; otherwise that is said.
pub proof fn law_late_renames_are_dropped<E>(
    unchanged: bool,
    taken: bool,
    edit: E,
    renamed: Outcome<E>,
    executed: Outcome<E>,
)
    requires
        rename_outcome(unchanged, edit, renamed),
        command_outcome(taken, edit, executed),
    ensures
        unchanged ==> renamed == Outcome::Do(edit),
        !unchanged ==> renamed is Status,
        taken ==> executed == Outcome::Do(edit),
        !taken ==> executed is Error,
{
}

} // verus!
