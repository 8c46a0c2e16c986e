//! When completions are asked for, and which answers are shown.

pub mod request;
pub mod resolve;

use vstd::prelude::*;

verus! {

/// An answer that has nothing to show: it holds nothing and neither it nor the list that is
/// shown wants completing.
pub open spec fn has_nothing(is_incomplete: bool, response_is_incomplete: bool, empty: bool) -> bool {
    !is_incomplete && !response_is_incomplete && empty
}

/// An answer of a provider, as far as it is looked at.
#[derive(Debug, Clone, Copy, PartialEq, Eq, Structural)]
pub struct ProviderResponse {
    pub is_incomplete: bool,
    pub empty: bool,
}

/// The first answer that has something to show, as they come in.
pub open spec fn first_shown(responses: Seq<ProviderResponse>, is_incomplete: bool) -> Option<int>
    decreases responses.len(),
{
    if responses.len() == 0 {
        None
    } else if !has_nothing(is_incomplete, responses[0].is_incomplete, responses[0].empty) {
        Some(0int)
    } else {
        match first_shown(responses.drop_first(), is_incomplete) {
            Some(i) => Some(i + 1),
            None => None,
        }
    }
}

/// The first answer that has something to show; those before it are passed over.
pub fn handle_response(responses: &Vec<ProviderResponse>, is_incomplete: bool) -> (r: Option<usize>)
    ensures
        match r {
            Some(i) => i < responses@.len() && first_shown(responses@, is_incomplete) == Some(
                i as int,
            ),
            None => first_shown(responses@, is_incomplete) is None,
        },
{
    let mut i: usize = 0;
    assert(responses@.skip(0) =~= responses@);
    while i < responses.len()
        invariant
            i <= responses@.len(),
            match first_shown(responses@.skip(i as int), is_incomplete) {
                Some(k) => first_shown(responses@, is_incomplete) == Some(k + i),
                None => first_shown(responses@, is_incomplete) is None,
            },
        decreases responses@.len() - i,
    {
        assert(responses@.skip(i as int).drop_first() =~= responses@.skip(i + 1));
        let response = responses[i];
        if is_incomplete || response.is_incomplete || !response.empty {
            return Some(i);
        }
        i += 1;
    }
    None
}

/// What is done with an answer that has come in.
#[derive(Debug, Clone, Copy, PartialEq, Eq, Structural)]
pub enum ReplaceStep {
    /// It is passed over.
    Skip,
    Show,
    /// Nobody waits for answers any more.
    Stop,
}

/// What is done with an answer while a list of completions is shown.
pub fn replace_completions(canceled: bool, response: ProviderResponse, is_incomplete: bool) -> (r:
    ReplaceStep)
    ensures
        r == if has_nothing(is_incomplete, response.is_incomplete, response.empty) {
            ReplaceStep::Skip
        } else if canceled {
            ReplaceStep::Stop
        } else {
            ReplaceStep::Show
        },
{
    if !is_incomplete && !response.is_incomplete && response.empty {
        ReplaceStep::Skip
    } else if canceled {
        ReplaceStep::Stop
    } else {
        ReplaceStep::Show
    }
}

/// The list opens with the first answer that has something, or that more may follow; answers
/// before it have nothing.
pub proof fn law_the_first_answer_with_something_is_shown(
    responses: Seq<ProviderResponse>,
    is_incomplete: bool,
)
    ensures
        match first_shown(responses, is_incomplete) {
            Some(i) => 0 <= i < responses.len() && (is_incomplete || responses[i].is_incomplete
                || !responses[i].empty) && forall|j: int|
                0 <= j < i ==> (#[trigger] responses[j]).empty && !responses[j].is_incomplete
                    && !is_incomplete,
            None => forall|i: int|
                0 <= i < responses.len() ==> (#[trigger] responses[i]).empty
                    && !responses[i].is_incomplete && !is_incomplete,
        },
    decreases responses.len(),
{
    if responses.len() > 0 {
        let rest = responses.drop_first();
        law_the_first_answer_with_something_is_shown(rest, is_incomplete);
        assert forall|i: int| 0 < i < responses.len() implies #[trigger] responses[i] == rest[i
            - 1] by {}
    }
}

/// An answer is passed over only if it is complete and empty and everything is complete.
pub proof fn law_answers_that_may_grow_are_not_passed_over(is_incomplete: bool, response: ProviderResponse)
    ensures
        is_incomplete || response.is_incomplete || !response.empty ==> !has_nothing(
            is_incomplete,
            response.is_incomplete,
            response.empty,
        ),
        has_nothing(false, false, true),
{
}

} // verus!
