//! What a workspace and its state are for.

use crate::laws::text::{all_space, law_blank_texts_are_white_space};
use crate::memory;
use crate::model;
use crate::state;
use crate::state::{StateView, UpdateView};
use crate::text;
use crate::workspace;
use crate::workspace::GitOutput;
use vstd::prelude::*;

verus! {

/// Holds when git ran, succeeded and wrote more than white space.
pub open spec fn reports(output: Option<GitOutput>) -> bool {
    &&& output is Some
    &&& output->0.success
    &&& output->0.stdout is Some
    &&& !all_space(output->0.stdout->0@)
}

/// What git reports is what it wrote, without the white space around it.
pub proof fn law_git_reports_what_it_wrote(output: Option<GitOutput>)
    ensures
        workspace::git_value(output) is Some <==> reports(output),
        reports(output) ==> workspace::git_value(output) == Some(
            text::trimmed(output->0.stdout->0@),
        ),
{
    if output is Some && output->0.stdout is Some {
        law_blank_texts_are_white_space(output->0.stdout->0@);
    }
}

/// The workspace is the branch wherever git reports one, whatever the commit is; it is the
/// commit only without a branch, and the default without either.
pub proof fn law_the_branch_is_the_workspace(branch: Option<GitOutput>, commit: Option<GitOutput>)
    ensures
        ({
            let w = workspace::detected(
                workspace::git_value(branch),
                workspace::git_value(commit),
            );
            &&& reports(branch) ==> w == "branch:"@ + text::trimmed(branch->0.stdout->0@)
            &&& !reports(branch) && reports(commit) ==> w == "detached:"@ + text::trimmed(
                commit->0.stdout->0@,
            )
            &&& !reports(branch) && !reports(commit) ==> w == "default"@
        }),
{
    law_git_reports_what_it_wrote(branch);
    law_git_reports_what_it_wrote(commit);
}

/// The workspace of a branch stays the same from commit to commit.
pub proof fn law_the_workspace_of_a_branch_outlives_commits(
    branch: Option<GitOutput>,
    commit: Option<GitOutput>,
    next: Option<GitOutput>,
)
    requires
        reports(branch),
    ensures
        workspace::workspace_outcome(
            None,
            workspace::git_value(branch),
            workspace::git_value(commit),
        ) == workspace::workspace_outcome(
            None,
            workspace::git_value(branch),
            workspace::git_value(next),
        ),
{
    law_the_branch_is_the_workspace(branch, commit);
    law_the_branch_is_the_workspace(branch, next);
}

/// A given workspace takes the place of what git reports, without the white space around
/// it; one of nothing but white space is refused.
pub proof fn law_a_given_workspace_is_taken(
    given: Seq<char>,
    branch: Option<GitOutput>,
    commit: Option<GitOutput>,
)
    ensures
        workspace::workspace_outcome(
            Some(given),
            workspace::git_value(branch),
            workspace::git_value(commit),
        ) == (if all_space(given) {
            Err::<Seq<char>, Seq<char>>("workspace identifier cannot be empty"@)
        } else {
            Ok(text::trimmed(given))
        }),
        workspace::workspace_outcome(
            None,
            workspace::git_value(branch),
            workspace::git_value(commit),
        ) == Ok::<Seq<char>, Seq<char>>(
            if reports(branch) {
                "branch:"@ + text::trimmed(branch->0.stdout->0@)
            } else if reports(commit) {
                "detached:"@ + text::trimmed(commit->0.stdout->0@)
            } else {
                "default"@
            },
        ),
{
    law_blank_texts_are_white_space(given);
    law_the_branch_is_the_workspace(branch, commit);
}

/// Holds when a field is set, cleared or kept, as an update says.
pub open spec fn is_patched(
    after: Option<Seq<char>>,
    before: Option<Seq<char>>,
    value: Option<Seq<char>>,
    cleared: bool,
) -> bool {
    &&& value is Some ==> after == value
    &&& value is None && cleared ==> after is None
    &&& value is None && !cleared ==> after == before
}

/// Holds when an update clears a field.
pub open spec fn names(input: UpdateView, field: Seq<char>) -> bool {
    input.clear_fields.contains(field)
}

/// Holds when each workspace has at most one state.
pub open spec fn one_state_each(states: Seq<StateView>) -> bool {
    forall|i: int, j: int|
        0 <= i < j < states.len() ==> (#[trigger] states[i]).workspace != (
        #[trigger] states[j]).workspace
}

proof fn lemma_clears(input: UpdateView, field: Seq<char>)
    ensures
        state::clears(input, field) == names(input, field),
{
    let p = state::named(field);
    if model::any_row(input.clear_fields, p) {
        let i = choose|i: int|
            0 <= i < input.clear_fields.len() && p(#[trigger] input.clear_fields[i]);
        assert(input.clear_fields[i] == field);
    }
    if names(input, field) {
        let i = choose|i: int|
            0 <= i < input.clear_fields.len() && input.clear_fields[i] == field;
        assert(p(input.clear_fields[i]));
    }
}

/// An update of the state of a workspace sets the fields it has values for, clears those it
/// names, keeps the others, and notes its time; the states of other workspaces stay.
pub proof fn law_updates_touch_only_what_they_name(
    states: Seq<StateView>,
    p: int,
    input: UpdateView,
    now: int,
)
    requires
        0 <= p < states.len(),
        one_state_each(states),
        states[p].workspace == input.workspace,
    ensures
        ({
            let after = state::updated(states, input, now);
            &&& after.len() == states.len()
            &&& forall|i: int|
                0 <= i < states.len() && i != p ==> #[trigger] after[i] == states[i]
            &&& after[p].workspace == input.workspace
            &&& after[p].updated_at == now
            &&& is_patched(
                after[p].session,
                states[p].session,
                input.session,
                names(input, "session"@),
            )
            &&& is_patched(after[p].goal, states[p].goal, input.goal, names(input, "goal"@))
            &&& is_patched(after[p].task, states[p].task, input.task, names(input, "task"@))
            &&& is_patched(
                after[p].checkpoint,
                states[p].checkpoint,
                input.checkpoint,
                names(input, "checkpoint"@),
            )
            &&& state::updated_state(states, input, now) == after[p]
        }),
{
    let q = state::of_workspace(input.workspace);
    assert(q(states[p]));
    assert forall|i: int| 0 <= i < p implies !q(#[trigger] states[i]) by {
        assert(states[i].workspace != states[p].workspace);
    }
    model::lemma_first_row_at(states, q, p);
    let after = state::updated(states, input, now);
    assert forall|i: int| 0 <= i < states.len() && i != p implies #[trigger] after[i]
        == states[i] by {
        if i < p {
            assert(states[i].workspace != states[p].workspace);
        } else {
            assert(states[p].workspace != states[i].workspace);
        }
    }
    lemma_clears(input, "session"@);
    lemma_clears(input, "goal"@);
    lemma_clears(input, "task"@);
    lemma_clears(input, "checkpoint"@);
}

/// The first update of a workspace makes its state, with the values it has, behind all other
/// states.
pub proof fn law_the_first_update_makes_the_state(
    states: Seq<StateView>,
    input: UpdateView,
    now: int,
)
    requires
        forall|i: int|
            0 <= i < states.len() ==> (#[trigger] states[i]).workspace != input.workspace,
    ensures
        ({
            let after = state::updated(states, input, now);
            let made = after[states.len() as int];
            &&& after.len() == states.len() + 1
            &&& forall|i: int| 0 <= i < states.len() ==> #[trigger] after[i] == states[i]
            &&& made.workspace == input.workspace
            &&& made.session == input.session
            &&& made.goal == input.goal
            &&& made.task == input.task
            &&& made.checkpoint == input.checkpoint
            &&& made.updated_at == now
            &&& state::updated_state(states, input, now) == made
        }),
{
    let q = state::of_workspace(input.workspace);
    assert(!model::any_row(states, q));
    model::lemma_first_row(states, q);
}

/// Clearing removes the state of one workspace and of no other.
pub proof fn law_clearing_removes_one_state(states: Seq<StateView>, workspace: Seq<char>)
    ensures
        forall|s: StateView| #[trigger]
            state::cleared(states, workspace).contains(s) <==> states.contains(s) && s.workspace
                != workspace,
{
    let p = state::not_of_workspace(workspace);
    let after = state::cleared(states, workspace);
    model::lemma_filter_contains(states, p);
    assert forall|s: StateView| #[trigger] after.contains(s) implies states.contains(s)
        && s.workspace != workspace by {
        let i = choose|i: int| 0 <= i < after.len() && after[i] == s;
        assert(p(after[i]));
    }
    assert forall|s: StateView| states.contains(s) && s.workspace
        != workspace implies #[trigger] after.contains(s) by {
        let i = choose|i: int| 0 <= i < states.len() && states[i] == s;
        assert(p(states[i]));
    }
}

/// The state of a workspace is read as it is stored.
pub proof fn law_states_are_read_as_stored(states: Seq<StateView>, workspace: Seq<char>)
    ensures
        match model::first_row(states, state::of_workspace(workspace)) {
            Some(s) => states.contains(s) && s.workspace == workspace,
            None => forall|i: int|
                0 <= i < states.len() ==> (#[trigger] states[i]).workspace != workspace,
        },
{
    let p = state::of_workspace(workspace);
    model::lemma_first_row(states, p);
    if model::first_row(states, p) is None {
        assert forall|i: int| 0 <= i < states.len() implies (#[trigger] states[i]).workspace
            != workspace by {
            assert(!p(states[i]));
        }
    }
}

/// Holds when a value is absent or more than white space.
pub open spec fn is_sound(value: Option<Seq<char>>) -> bool {
    value matches Some(v) ==> !all_space(v)
}

/// An update is accepted exactly when its workspace and every value are more than white
/// space, it clears only known fields and none that it sets, it does something, and, where
/// it only clears, the workspace has a state.
pub proof fn law_sound_updates_are_accepted(states: Seq<StateView>, input: UpdateView)
    ensures
        state::update_refusal(states, input) is None <==> {
            let sets = input.session is Some || input.goal is Some || input.task is Some
                || input.checkpoint is Some;
            &&& !all_space(input.workspace)
            &&& is_sound(input.session) && is_sound(input.goal) && is_sound(input.task)
                && is_sound(input.checkpoint)
            &&& forall|i: int|
                0 <= i < input.clear_fields.len() ==> {
                    ||| #[trigger] input.clear_fields[i] == "session"@
                    ||| input.clear_fields[i] == "goal"@
                    ||| input.clear_fields[i] == "task"@
                    ||| input.clear_fields[i] == "checkpoint"@
                }
            &&& !(input.session is Some && names(input, "session"@))
            &&& !(input.goal is Some && names(input, "goal"@))
            &&& !(input.task is Some && names(input, "task"@))
            &&& !(input.checkpoint is Some && names(input, "checkpoint"@))
            &&& sets || input.clear_fields.len() > 0
            &&& sets || exists|i: int|
                0 <= i < states.len() && (#[trigger] states[i]).workspace == input.workspace
        },
{
    law_blank_texts_are_white_space(input.workspace);
    lemma_sound(input.session, "session"@);
    lemma_sound(input.goal, "goal"@);
    lemma_sound(input.task, "task"@);
    lemma_sound(input.checkpoint, "checkpoint"@);
    lemma_clears(input, "session"@);
    lemma_clears(input, "goal"@);
    lemma_clears(input, "task"@);
    lemma_clears(input, "checkpoint"@);
    model::lemma_first_row(input.clear_fields, state::unknown());
    let known = forall|i: int|
        0 <= i < input.clear_fields.len() ==> {
            ||| #[trigger] input.clear_fields[i] == "session"@
            ||| input.clear_fields[i] == "goal"@
            ||| input.clear_fields[i] == "task"@
            ||| input.clear_fields[i] == "checkpoint"@
        };
    assert(known == !model::any_row(input.clear_fields, state::unknown())) by {
        if !known {
            let i = choose|i: int|
                0 <= i < input.clear_fields.len() && !{
                    ||| #[trigger] input.clear_fields[i] == "session"@
                    ||| input.clear_fields[i] == "goal"@
                    ||| input.clear_fields[i] == "task"@
                    ||| input.clear_fields[i] == "checkpoint"@
                };
            assert(state::unknown()(input.clear_fields[i]));
        }
        if model::any_row(input.clear_fields, state::unknown()) {
            let i = choose|i: int|
                0 <= i < input.clear_fields.len() && state::unknown()(
                    #[trigger] input.clear_fields[i],
                );
            assert(!state::known_field(input.clear_fields[i]));
        }
    }
    let there = exists|i: int|
        0 <= i < states.len() && (#[trigger] states[i]).workspace == input.workspace;
    assert(there == model::any_row(states, state::of_workspace(input.workspace))) by {
        if there {
            let i = choose|i: int|
                0 <= i < states.len() && (#[trigger] states[i]).workspace == input.workspace;
            assert(state::of_workspace(input.workspace)(states[i]));
        }
    }
}

proof fn lemma_sound(value: Option<Seq<char>>, name: Seq<char>)
    ensures
        memory::optional_refusal(value, name) is None == is_sound(value),
{
    if let Some(v) = value {
        law_blank_texts_are_white_space(v);
    }
}

/// A refused update says why: what is empty, which field it does not know, which it both sets
/// and clears, that it names none, or that there is no state to clear.
pub proof fn law_refused_updates_say_why(states: Seq<StateView>, input: UpdateView, k: int)
    requires
        is_sound(input.session),
        is_sound(input.goal),
        is_sound(input.task),
        is_sound(input.checkpoint),
    ensures
        all_space(input.workspace) ==> state::update_refusal(states, input) == Some(
            "workspace"@ + " cannot be empty"@,
        ),
        !all_space(input.workspace) && 0 <= k < input.clear_fields.len() && (forall|i: int|
            0 <= i < k ==> is_field(#[trigger] input.clear_fields[i])) && !is_field(
            input.clear_fields[k],
        ) ==> state::update_refusal(states, input) == Some(
            "unknown state field: "@ + input.clear_fields[k],
        ),
        !all_space(input.workspace) && input.clear_fields.len() == 0 && input.session is None
            && input.goal is None && input.task is None && input.checkpoint is None
            ==> state::update_refusal(states, input) == Some(
            "state set requires at least one field to set or clear"@,
        ),
        !all_space(input.workspace) && input.session is Some && input.clear_fields
            == seq!["session"@] ==> state::update_refusal(states, input) == Some(
            "state field "@ + "session"@ + " cannot be set and cleared together"@,
        ),
        !all_space(input.workspace) && input.session is None && input.goal is None && input.task
            is None && input.checkpoint is None && input.clear_fields == seq!["goal"@] && (forall|
            i: int,
        |
            0 <= i < states.len() ==> (#[trigger] states[i]).workspace != input.workspace)
            ==> state::update_refusal(states, input) == Some("no state for "@ + input.workspace),
{
    law_blank_texts_are_white_space(input.workspace);
    lemma_sound(input.session, "session"@);
    lemma_sound(input.goal, "goal"@);
    lemma_sound(input.task, "task"@);
    lemma_sound(input.checkpoint, "checkpoint"@);
    let p = state::unknown();
    model::lemma_first_row(input.clear_fields, p);
    if 0 <= k < input.clear_fields.len() && (forall|i: int|
        0 <= i < k ==> is_field(#[trigger] input.clear_fields[i])) && !is_field(
        input.clear_fields[k],
    ) {
        model::lemma_first_row_at(input.clear_fields, p, k);
    }
    if input.clear_fields == seq!["session"@] {
        assert(state::named("session"@)(input.clear_fields[0]));
        assert(!model::any_row(input.clear_fields, p));
    }
    if input.clear_fields == seq!["goal"@] {
        assert(!model::any_row(input.clear_fields, p));
    }
    assert(input.clear_fields.len() == 0 ==> !model::any_row(input.clear_fields, p));
}

/// Holds of the fields of a state.
pub open spec fn is_field(name: Seq<char>) -> bool {
    name == "session"@ || name == "goal"@ || name == "task"@ || name == "checkpoint"@
}

} // verus!
