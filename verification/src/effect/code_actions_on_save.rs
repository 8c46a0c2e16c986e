//! Code actions that a document goes through before it is saved.
//!
//! Each kind that is configured is asked for in turn. What the server answers is completed and
//! applied before the next kind is asked for; in the end the document is formatted and saved.

use std::collections::VecDeque;

use vstd::prelude::*;

use crate::paths;
use crate::paths::same_path;
use crate::text;
use crate::text::{chars_of, chars_start_with, same_text};

verus! {

/// The kind is the requested one, or a kind below it: what follows the requested kind begins
/// with a dot.
pub open spec fn is_kind(kind: Seq<char>, requested: Seq<char>) -> bool {
    ||| kind == requested
    ||| text::starts_with(kind, requested) && kind.len() > requested.len()
        && kind[requested.len() as int] == '.'
}

/// Whether an action is of a kind or of a kind below it; one without a kind is of none.
pub fn kind_matches(kind: Option<&str>, requested: &str) -> (r: bool)
    ensures
        r == (kind is Some && is_kind(kind->0@, requested@)),
{
    match kind {
        Some(kind) => {
            if same_text(kind, requested) {
                return true;
            }
            let chars = chars_of(kind);
            let prefix = chars_of(requested);
            chars_start_with(chars.as_slice(), prefix.as_slice()) && chars.len() > prefix.len()
                && chars[prefix.len()] == '.'
        },
        None => false,
    }
}

/// Sub-kinds of sub-kinds are sub-kinds.
pub proof fn law_kinds_nest(kind: Seq<char>, middle: Seq<char>, requested: Seq<char>)
    requires
        is_kind(kind, middle),
        is_kind(middle, requested),
    ensures
        is_kind(kind, requested),
{
    if kind != middle && middle != requested {
        let n = requested.len() as int;
        assert(kind.take(middle.len() as int) == middle);
        assert(kind.take(n) =~= middle.take(n));
        assert(kind[n] == kind.take(middle.len() as int)[n]);
    }
}

/// What can be asked about a document.
#[derive(Debug, Clone, Copy, PartialEq, Eq, Structural)]
pub struct Asked {
    pub document_exists: bool,
    /// Whether a server of the document offers code actions.
    pub server_exists: bool,
}

/// The next kind to ask for, and those behind it.
#[derive(Debug)]
pub enum SaveStep {
    Request { kind: String },
    /// No kind is left to ask for: the document is formatted and saved.
    Finish,
}

/// How many kinds are passed over: those that the server does not take.
pub open spec fn passed_over(takes: Seq<bool>) -> nat
    decreases takes.len(),
{
    if takes.len() == 0 || takes[0] {
        0
    } else {
        1 + passed_over(takes.drop_first())
    }
}

pub proof fn lemma_passed_over(takes: Seq<bool>)
    ensures
        passed_over(takes) <= takes.len(),
    decreases takes.len(),
{
    if takes.len() > 0 && !takes[0] {
        lemma_passed_over(takes.drop_first());
    }
}

/// The next kind to ask for: the first that the server takes. Without the document or a server
/// nothing is asked for any more.
pub fn next_step(asked: Asked, kinds: &mut VecDeque<String>, takes: &Vec<bool>) -> (r: SaveStep)
    requires
        takes@.len() == old(kinds)@.len(),
    ensures
        ({
            let skipped = passed_over(takes@) as int;
            if asked.document_exists && asked.server_exists && skipped < old(kinds)@.len() {
                &&& r matches SaveStep::Request { kind } && kind == old(kinds)@[skipped]
                &&& final(kinds)@ == old(kinds)@.skip(skipped + 1)
            } else {
                &&& r is Finish
                &&& final(kinds)@ == if asked.document_exists && asked.server_exists {
                    Seq::empty()
                } else {
                    old(kinds)@
                }
            }
        }),
{
    let ghost all = kinds@;
    let total: usize = takes.len();
    let mut i: usize = 0;
    if !asked.document_exists || !asked.server_exists {
        return SaveStep::Finish;
    }
    assert(all.skip(0) =~= all);
    assert(takes@.skip(0) =~= takes@);
    loop
        invariant
            i <= takes@.len(),
            total == takes@.len(),
            takes@.len() == all.len(),
            all == old(kinds)@,
            kinds@ == all.skip(i as int),
            asked.document_exists,
            asked.server_exists,
            passed_over(takes@) == i + passed_over(takes@.skip(i as int)),
        decreases takes@.len() - i,
    {
        match kinds.pop_front() {
            Some(kind) => {
                assert(i < total);
                assert(takes@.skip(i as int)[0] == takes@[i as int]);
                assert(takes@.skip(i as int).drop_first() =~= takes@.skip(i + 1));
                assert(kinds@ =~= all.skip(i + 1));
                assert(kind == all[i as int]);
                if takes[i] {
                    return SaveStep::Request { kind };
                }
                i += 1;
            },
            None => {
                assert(all.skip(i as int).len() == 0);
                assert(kinds@ =~= Seq::empty());
                return SaveStep::Finish;
            },
        }
    }
}

/// An action of an answer.
#[derive(Debug)]
pub struct SaveAction<E> {
    /// Whether it is an action, and no bare command.
    pub is_action: bool,
    pub disabled: bool,
    pub kind: Option<String>,
    pub edit: Option<E>,
}

/// What is done with an action.
#[derive(Debug)]
pub enum ResolveStep<E> {
    Ready(E),
    /// The server is asked for the edit of the action at this place.
    Resolve(usize),
}

/// The action is wanted: it is one, it is not disabled, and of the kind that was asked for.
pub open spec fn wanted<E>(action: SaveAction<E>, kind: Seq<char>) -> bool {
    action.is_action && !action.disabled && action.kind is Some && is_kind(action.kind->0@, kind)
}

/// What is done with the actions of an answer, in their order.
pub open spec fn resolve_steps<E>(
    actions: Seq<SaveAction<E>>,
    kind: Seq<char>,
    server_resolves: bool,
) -> Seq<ResolveStep<E>>
    decreases actions.len(),
{
    if actions.len() == 0 {
        seq![]
    } else {
        let rest = resolve_steps(actions.drop_last(), kind, server_resolves);
        let last = actions.last();
        if !wanted(last, kind) {
            rest
        } else {
            match last.edit {
                Some(edit) => rest.push(ResolveStep::Ready(edit)),
                None => if server_resolves {
                    rest.push(ResolveStep::Resolve((actions.len() - 1) as usize))
                } else {
                    rest
                },
            }
        }
    }
}

/// What is done with an answer: nothing if the document has changed or the server is gone.
pub fn on_response<E>(
    document_version: Option<i32>,
    version: i32,
    server_exists: bool,
    server_resolves: bool,
    kind: &str,
    actions: Vec<SaveAction<E>>,
) -> (r: Vec<ResolveStep<E>>)
    ensures
        r@ == if document_version == Some(version) && server_exists {
            resolve_steps(actions@, kind@, server_resolves)
        } else {
            Seq::<ResolveStep<E>>::empty()
        },
{
    let current = match document_version {
        Some(found) => found == version,
        None => false,
    };
    let mut steps: Vec<ResolveStep<E>> = Vec::new();
    if !current || !server_exists {
        assert(steps@ =~= Seq::<ResolveStep<E>>::empty());
        return steps;
    }
    let ghost all = actions@;
    let total: usize = actions.len();
    let mut i: usize = 0;
    assert(all.take(0) =~= seq![]);
    for action in it: actions
        invariant
            it.seq() == all,
            i == it.index(),
            total == all.len(),
            steps@ == resolve_steps(all.take(it.index()), kind@, server_resolves),
    {
        assert(all.take(it.index() + 1).drop_last() =~= all.take(it.index()));
        assert(all.take(it.index() + 1).last() == action);
        let of_kind = match &action.kind {
            Some(found) => kind_matches(Some(found.as_str()), kind),
            None => false,
        };
        if action.is_action && !action.disabled && of_kind {
            match action.edit {
                Some(edit) => {
                    steps.push(ResolveStep::Ready(edit));
                },
                None => {
                    if server_resolves {
                        steps.push(ResolveStep::Resolve(i));
                    }
                },
            }
        }
        i += 1;
    }
    assert(all.take(all.len() as int) =~= all);
    steps
}

/// Whether the edits of an answer are made: only to the version they were made for.
pub fn on_resolved(document_version: Option<i32>, version: i32) -> (r: bool)
    ensures
        r == (document_version == Some(version)),
{
    match document_version {
        Some(found) => found == version,
        None => false,
    }
}

/// A part of an edit: changes to the text of a file, or something else done to files.
#[derive(Debug)]
pub struct EditPart<T> {
    /// The file whose text changes; none for anything else.
    pub file: Option<Vec<String>>,
    pub edits: Vec<T>,
}

/// The part changes the text of this file.
pub open spec fn targets<T>(part: EditPart<T>, path: Seq<Seq<char>>) -> bool {
    part.file is Some && paths::parts(part.file->0@) == path
}

/// The changes to the text of a file, in the order of the parts.
pub open spec fn own_edits<T>(parts: Seq<EditPart<T>>, path: Seq<Seq<char>>) -> Seq<T>
    decreases parts.len(),
{
    if parts.len() == 0 {
        seq![]
    } else {
        let rest = own_edits(parts.drop_last(), path);
        if targets(parts.last(), path) {
            rest + parts.last().edits@
        } else {
            rest
        }
    }
}

/// The changes that an edit makes to the document being saved.
#[derive(Debug)]
pub struct OwnEdits<T> {
    pub edits: Vec<T>,
    /// Whether there was more, which is left out.
    pub other_files: bool,
}

/// Takes the changes to one file out of an edit. Changes to other files, and anything else done
/// to files, are left out.
pub fn edits_for_document<T>(parts: Vec<EditPart<T>>, path: &Vec<String>) -> (r: OwnEdits<T>)
    ensures
        r.edits@ == own_edits(parts@, paths::parts(path@)),
        r.other_files == exists|i: int|
            0 <= i < parts@.len() && !(#[trigger] targets(parts@[i], paths::parts(path@))),
{
    let ghost all = parts@;
    let ghost own = paths::parts(path@);
    let mut edits: Vec<T> = Vec::new();
    let mut other_files = false;
    assert(all.take(0) =~= seq![]);
    for part in it: parts
        invariant
            it.seq() == all,
            own == paths::parts(path@),
            edits@ == own_edits(all.take(it.index()), own),
            other_files == exists|i: int|
                0 <= i < it.index() && !(#[trigger] targets(all[i], own)),
    {
        assert(all.take(it.index() + 1).drop_last() =~= all.take(it.index()));
        assert(all.take(it.index() + 1).last() == part);
        assert(all[it.index()] == part);
        let mine = match &part.file {
            Some(file) => same_path(file, path),
            None => false,
        };
        assert(mine == targets(part, own));
        if mine {
            let mut more = part.edits;
            edits.append(&mut more);
        } else {
            assert(!targets(all[it.index()], own));
            other_files = true;
        }
    }
    assert(all.take(all.len() as int) =~= all);
    OwnEdits { edits, other_files }
}

/// The changes that are made to a document for an edit: those to its file, which are one step of
/// its history. Nothing is made where there are none, or the document is gone or no file.
pub fn apply_to_document<T>(path: Option<&Vec<String>>, parts: Vec<EditPart<T>>) -> (r: Option<
    OwnEdits<T>,
>)
    ensures
        match r {
            Some(own) => {
                &&& path is Some
                &&& own.edits@ == own_edits(parts@, paths::parts(path->0@))
                &&& own.edits@.len() > 0
                &&& own.other_files == exists|i: int|
                    0 <= i < parts@.len() && !(#[trigger] targets(
                        parts@[i],
                        paths::parts(path->0@),
                    ))
            },
            None => path is Some ==> own_edits(parts@, paths::parts(path->0@)).len() == 0,
        },
{
    match path {
        Some(path) => {
            let own = edits_for_document(parts, path);
            if own.edits.len() == 0 {
                None
            } else {
                Some(own)
            }
        },
        None => None,
    }
}

/// How a document is saved in the end.
#[derive(Debug, Clone, Copy, PartialEq, Eq, Structural)]
pub enum FinishStep {
    /// It is formatted first, in this version.
    Format { version: i32 },
    /// It is saved as it is; `document_saved` says what follows.
    Save,
}

/// A document is formatted if that was asked for, it is there and can be formatted.
pub fn on_done(auto_format: bool, document_version: Option<i32>, can_format: bool) -> (r: FinishStep)
    ensures
        r == match document_version {
            Some(version) if auto_format && can_format => FinishStep::Format { version },
            _ => FinishStep::Save,
        },
{
    match document_version {
        Some(version) => if auto_format && can_format {
            FinishStep::Format { version }
        } else {
            FinishStep::Save
        },
        None => FinishStep::Save,
    }
}

/// Kinds that the server does not take are passed over up to the first that it takes.
pub proof fn law_kinds_not_taken_are_passed_over(takes: Seq<bool>)
    ensures
        passed_over(takes) <= takes.len(),
        passed_over(takes) < takes.len() ==> takes[passed_over(takes) as int],
        forall|i: int| 0 <= i < passed_over(takes) ==> !(#[trigger] takes[i]),
    decreases takes.len(),
{
    if takes.len() > 0 && !takes[0] {
        let rest = takes.drop_first();
        law_kinds_not_taken_are_passed_over(rest);
        assert forall|i: int| 0 < i < takes.len() implies #[trigger] takes[i] == rest[i - 1] by {}
    }
}

/// Actions of the kind with an edit are ready, those without are completed where the server can do
/// that; others, and those that are disabled, are left out. The order stays.
pub proof fn law_wanted_actions_are_taken_in_order<E>(
    actions: Seq<SaveAction<E>>,
    action: SaveAction<E>,
    kind: Seq<char>,
    server_resolves: bool,
)
    requires
        actions.len() < usize::MAX,
    ensures
        resolve_steps(Seq::<SaveAction<E>>::empty(), kind, server_resolves).len() == 0,
        ({
            let before = resolve_steps(actions, kind, server_resolves);
            let after = resolve_steps(actions.push(action), kind, server_resolves);
            let of_kind = action.is_action && !action.disabled && (action.kind matches Some(own)
                && is_kind(own@, kind));
            &&& !of_kind ==> after == before
            &&& of_kind && action.edit is Some ==> after == before.push(
                ResolveStep::Ready(action.edit->0),
            )
            &&& of_kind && action.edit is None && server_resolves ==> after == before.push(
                ResolveStep::Resolve(actions.len() as usize),
            )
            &&& of_kind && action.edit is None && !server_resolves ==> after == before
        }),
{
    assert(actions.push(action).drop_last() =~= actions);
}

/// The edits of a file are those of its parts, in order.
pub proof fn law_edits_of_a_file_stay_in_order<T>(
    parts: Seq<EditPart<T>>,
    part: EditPart<T>,
    path: Seq<Seq<char>>,
)
    ensures
        own_edits(Seq::<EditPart<T>>::empty(), path).len() == 0,
        (part.file matches Some(file) && paths::parts(file@) == path) ==> own_edits(
            parts.push(part),
            path,
        ) == own_edits(parts, path) + part.edits@,
        !(part.file matches Some(file) && paths::parts(file@) == path) ==> own_edits(
            parts.push(part),
            path,
        ) == own_edits(parts, path),
{
    assert(parts.push(part).drop_last() =~= parts);
}

} // verus!
