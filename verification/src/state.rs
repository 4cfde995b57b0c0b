//! Workspace state: a small mutable handoff per workspace.

use crate::clock;
use crate::clock::unix_millis;
use crate::error;
use crate::error::Error;
use crate::memory;
use crate::memory::{validate_identity, validate_optional};
use crate::model;
use crate::model::{copy_text, has, pick, rewrite, select, Row};
use crate::store::{Store, StoreView};
use crate::text::same;
use vstd::prelude::*;
use vstd::string::*;

verus! {

/// A partial update of the state of a workspace.
#[derive(Debug)]
pub struct WorkspaceStateUpdate {
    pub workspace: String,
    pub session: Option<String>,
    pub goal: Option<String>,
    pub task: Option<String>,
    pub checkpoint: Option<String>,
    pub clear_fields: Vec<String>,
}

/// The state of a workspace.
#[derive(Debug)]
pub struct WorkspaceState {
    pub workspace: String,
    pub session: Option<String>,
    pub goal: Option<String>,
    pub task: Option<String>,
    pub checkpoint: Option<String>,
    pub updated_at: i64,
}

/// Model of a partial update.
#[verifier::ext_equal]
pub struct UpdateView {
    pub workspace: Seq<char>,
    pub session: Option<Seq<char>>,
    pub goal: Option<Seq<char>>,
    pub task: Option<Seq<char>>,
    pub checkpoint: Option<Seq<char>>,
    pub clear_fields: Seq<Seq<char>>,
}

/// Model of the state of a workspace.
#[verifier::ext_equal]
pub struct StateView {
    pub workspace: Seq<char>,
    pub session: Option<Seq<char>>,
    pub goal: Option<Seq<char>>,
    pub task: Option<Seq<char>>,
    pub checkpoint: Option<Seq<char>>,
    pub updated_at: int,
}

impl View for WorkspaceStateUpdate {
    type V = UpdateView;

    open spec fn view(&self) -> UpdateView {
        UpdateView {
            workspace: self.workspace@,
            session: model::text_of(self.session),
            goal: model::text_of(self.goal),
            task: model::text_of(self.task),
            checkpoint: model::text_of(self.checkpoint),
            clear_fields: model::views(self.clear_fields@),
        }
    }
}

impl View for WorkspaceState {
    type V = StateView;

    open spec fn view(&self) -> StateView {
        StateView {
            workspace: self.workspace@,
            session: model::text_of(self.session),
            goal: model::text_of(self.goal),
            task: model::text_of(self.task),
            checkpoint: model::text_of(self.checkpoint),
            updated_at: self.updated_at as int,
        }
    }
}

impl Row for WorkspaceState {
    fn duplicate(&self) -> (r: WorkspaceState) {
        WorkspaceState {
            workspace: self.workspace.clone(),
            session: copy_text(&self.session),
            goal: copy_text(&self.goal),
            task: copy_text(&self.task),
            checkpoint: copy_text(&self.checkpoint),
            updated_at: self.updated_at,
        }
    }
}

impl Clone for WorkspaceState {
    fn clone(&self) -> (r: WorkspaceState)
        ensures
            r@ == self@,
    {
        self.duplicate()
    }
}

impl Default for WorkspaceStateUpdate {
    fn default() -> (r: WorkspaceStateUpdate)
        ensures
            r@.workspace == Seq::<char>::empty(),
            r@.session is None,
            r@.goal is None,
            r@.task is None,
            r@.checkpoint is None,
            r@.clear_fields == Seq::<Seq<char>>::empty(),
    {
        WorkspaceStateUpdate {
            workspace: String::new(),
            session: None,
            goal: None,
            task: None,
            checkpoint: None,
            clear_fields: Vec::new(),
        }
    }
}

/// Selects the state of a workspace.
pub open spec fn of_workspace(workspace: Seq<char>) -> spec_fn(StateView) -> bool {
    |s: StateView| s.workspace == workspace
}

/// Selects the states of other workspaces.
pub open spec fn not_of_workspace(workspace: Seq<char>) -> spec_fn(StateView) -> bool {
    |s: StateView| s.workspace != workspace
}

/// The workspace of a state.
pub open spec fn workspace_key() -> spec_fn(StateView) -> Seq<char> {
    |s: StateView| s.workspace
}

/// The fields of a state that can be set and cleared.
pub open spec fn known_field(field: Seq<char>) -> bool {
    field == "session"@ || field == "goal"@ || field == "task"@ || field == "checkpoint"@
}

/// Tells whether `field` is a field of a state.
pub fn is_known_field(field: &str) -> (r: bool)
    ensures
        r == known_field(field@),
{
    same(field, "session") || same(field, "goal") || same(field, "task") || same(
        field,
        "checkpoint",
    )
}

/// Selects the names that are no field of a state.
pub open spec fn unknown() -> spec_fn(Seq<char>) -> bool {
    |field: Seq<char>| !known_field(field)
}

/// Selects one name.
pub open spec fn named(name: Seq<char>) -> spec_fn(Seq<char>) -> bool {
    |field: Seq<char>| field == name
}

/// Holds when an update clears a field.
pub open spec fn clears(input: UpdateView, name: Seq<char>) -> bool {
    model::any_row(input.clear_fields, named(name))
}

/// Tells whether an update clears a field.
fn is_cleared(input: &WorkspaceStateUpdate, name: &str) -> (r: bool)
    ensures
        r == clears(input@, name@),
{
    let test = |field: &String| -> (r: bool)
        ensures
            r == (field@ == name@),
        { same(field.as_str(), name) };
    has(&input.clear_fields, test, Ghost(named(name@)))
}

/// Why an update that names an unknown field is refused.
pub open spec fn unknown_field_refusal(input: UpdateView) -> Option<Seq<char>> {
    match model::first_row(input.clear_fields, unknown()) {
        Some(field) => Some("unknown state field: "@ + field),
        None => None,
    }
}

/// Why a field that is set and cleared together is refused.
pub open spec fn conflict_refusal(
    input: UpdateView,
    name: Seq<char>,
    value: Option<Seq<char>>,
) -> Option<Seq<char>> {
    if value is Some && clears(input, name) {
        Some("state field "@ + name + " cannot be set and cleared together"@)
    } else {
        None
    }
}

/// Holds when an update sets some field.
pub open spec fn sets_some(input: UpdateView) -> bool {
    input.session is Some || input.goal is Some || input.task is Some || input.checkpoint is Some
}

/// Why an update is refused, whatever state the workspace is in.
pub open spec fn shape_refusal(input: UpdateView) -> Option<Seq<char>> {
    error::either(
        memory::identity_refusal(input.workspace, "workspace"@),
        error::either(
            memory::optional_refusal(input.session, "session"@),
            error::either(
                memory::optional_refusal(input.goal, "goal"@),
                error::either(
                    memory::optional_refusal(input.task, "task"@),
                    error::either(
                        memory::optional_refusal(input.checkpoint, "checkpoint"@),
                        error::either(
                            unknown_field_refusal(input),
                            error::either(
                                conflict_refusal(input, "session"@, input.session),
                                error::either(
                                    conflict_refusal(input, "goal"@, input.goal),
                                    error::either(
                                        conflict_refusal(input, "task"@, input.task),
                                        error::either(
                                            conflict_refusal(
                                                input,
                                                "checkpoint"@,
                                                input.checkpoint,
                                            ),
                                            if !sets_some(input) && input.clear_fields.len() == 0 {
                                                Some(
                                                    "state set requires at least one field to set or clear"@,
                                                )
                                            } else {
                                                None
                                            },
                                        ),
                                    ),
                                ),
                            ),
                        ),
                    ),
                ),
            ),
        ),
    )
}

/// Checks that a field is not set and cleared together.
fn validate_field(input: &WorkspaceStateUpdate, name: &str, value: &Option<String>) -> (r: Result<
    (),
    Error,
>)
    ensures
        error::refusal(r) == conflict_refusal(input@, name@, model::text_of(*value)),
{
    if value.is_some() && is_cleared(input, name) {
        return Err(Error::of3("state field ", name, " cannot be set and cleared together"));
    }
    Ok(())
}

/// Checks an update, whatever state the workspace is in.
pub fn validate_update(input: &WorkspaceStateUpdate) -> (r: Result<(), Error>)
    ensures
        error::refusal(r) == shape_refusal(input@),
{
    validate_identity(input.workspace.as_str(), "workspace")?;
    validate_optional(&input.session, "session")?;
    validate_optional(&input.goal, "goal")?;
    validate_optional(&input.task, "task")?;
    validate_optional(&input.checkpoint, "checkpoint")?;
    let test = |field: &String| -> (r: bool)
        ensures
            r == !known_field(field@),
        { !is_known_field(field.as_str()) };
    let stray: Option<String> = pick(&input.clear_fields, test, Ghost(unknown()));
    if let Some(field) = stray {
        return Err(Error::of2("unknown state field: ", field.as_str()));
    }
    validate_field(input, "session", &input.session)?;
    validate_field(input, "goal", &input.goal)?;
    validate_field(input, "task", &input.task)?;
    validate_field(input, "checkpoint", &input.checkpoint)?;
    if !has_value(input) && input.clear_fields.len() == 0 {
        return Err(Error::new("state set requires at least one field to set or clear"));
    }
    Ok(())
}

/// Tells whether an update sets some field.
pub fn has_value(input: &WorkspaceStateUpdate) -> (r: bool)
    ensures
        r == sets_some(input@),
{
    input.session.is_some() || input.goal.is_some() || input.task.is_some()
        || input.checkpoint.is_some()
}

/// A field after an update: the new value if there is one, nothing if the field
/// is cleared, and otherwise what it was.
pub open spec fn patched(
    input: UpdateView,
    name: Seq<char>,
    value: Option<Seq<char>>,
    before: Option<Seq<char>>,
) -> Option<Seq<char>> {
    if value is Some {
        value
    } else if clears(input, name) {
        None
    } else {
        before
    }
}

/// The state of a workspace after an update.
pub open spec fn merged(before: StateView, input: UpdateView, now: int) -> StateView {
    StateView {
        workspace: before.workspace,
        session: patched(input, "session"@, input.session, before.session),
        goal: patched(input, "goal"@, input.goal, before.goal),
        task: patched(input, "task"@, input.task, before.task),
        checkpoint: patched(input, "checkpoint"@, input.checkpoint, before.checkpoint),
        updated_at: now,
    }
}

/// The state that an update creates in a workspace without one.
pub open spec fn created(input: UpdateView, now: int) -> StateView {
    StateView {
        workspace: input.workspace,
        session: input.session,
        goal: input.goal,
        task: input.task,
        checkpoint: input.checkpoint,
        updated_at: now,
    }
}

/// A field after an update.
fn patch(
    input: &WorkspaceStateUpdate,
    name: &str,
    value: &Option<String>,
    before: &Option<String>,
) -> (r: Option<String>)
    ensures
        model::text_of(r) == patched(
            input@,
            name@,
            model::text_of(*value),
            model::text_of(*before),
        ),
{
    if value.is_some() {
        copy_text(value)
    } else if is_cleared(input, name) {
        None
    } else {
        copy_text(before)
    }
}

/// The state of a workspace after an update.
pub fn merge(before: &WorkspaceState, input: &WorkspaceStateUpdate, now: i64) -> (r: WorkspaceState)
    ensures
        r@ == merged(before@, input@, now as int),
{
    WorkspaceState {
        workspace: before.workspace.clone(),
        session: patch(input, "session", &input.session, &before.session),
        goal: patch(input, "goal", &input.goal, &before.goal),
        task: patch(input, "task", &input.task, &before.task),
        checkpoint: patch(input, "checkpoint", &input.checkpoint, &before.checkpoint),
        updated_at: now,
    }
}

/// The state that an update creates in a workspace without one.
pub fn create(input: &WorkspaceStateUpdate, now: i64) -> (r: WorkspaceState)
    ensures
        r@ == created(input@, now as int),
{
    WorkspaceState {
        workspace: input.workspace.clone(),
        session: copy_text(&input.session),
        goal: copy_text(&input.goal),
        task: copy_text(&input.task),
        checkpoint: copy_text(&input.checkpoint),
        updated_at: now,
    }
}

/// Why an update is refused.
pub open spec fn update_refusal(states: Seq<StateView>, input: UpdateView) -> Option<Seq<char>> {
    error::either(
        shape_refusal(input),
        if !sets_some(input) && !model::any_row(states, of_workspace(input.workspace)) {
            Some("no state for "@ + input.workspace)
        } else {
            None
        },
    )
}

/// A state after an update, if it is that of the workspace.
pub open spec fn patch_of(input: UpdateView, now: int) -> spec_fn(StateView) -> StateView {
    |s: StateView|
        if s.workspace == input.workspace {
            merged(s, input, now)
        } else {
            s
        }
}

/// The states after an update.
pub open spec fn updated(states: Seq<StateView>, input: UpdateView, now: int) -> Seq<StateView> {
    if model::any_row(states, of_workspace(input.workspace)) {
        states.map_values(patch_of(input, now))
    } else {
        states.push(created(input, now))
    }
}

/// The state of the workspace after an update.
pub open spec fn updated_state(
    states: Seq<StateView>,
    input: UpdateView,
    now: int,
) -> StateView {
    match model::first_row(states, of_workspace(input.workspace)) {
        Some(before) => merged(before, input, now),
        None => created(input, now),
    }
}

/// The states after that of a workspace was removed.
pub open spec fn cleared(states: Seq<StateView>, workspace: Seq<char>) -> Seq<StateView> {
    states.filter(not_of_workspace(workspace))
}

impl Store {
    /// The state of a workspace, if it has one.
    pub fn workspace_state(&self, workspace: &str) -> (r: Result<Option<WorkspaceState>, Error>)
        ensures
            match memory::identity_refusal(workspace@, "workspace"@) {
                Some(message) => r matches Err(e) && e@ == message,
                None => r matches Ok(o) && model::row_of(o) == model::first_row(
                    self@.states,
                    of_workspace(workspace@),
                ),
            },
    {
        validate_identity(workspace, "workspace")?;
        let test = |s: &WorkspaceState| -> (r: bool)
            ensures
                r == of_workspace(workspace@)(s@),
            { same(s.workspace.as_str(), workspace) };
        Ok(pick(&self.states, test, Ghost(of_workspace(workspace@))))
    }

    /// The state that an update is for, after the update was checked.
    fn updatable(&self, input: &WorkspaceStateUpdate) -> (r: Result<Option<WorkspaceState>, Error>)
        ensures
            match update_refusal(self@.states, input@) {
                Some(message) => r matches Err(e) && e@ == message,
                None => r matches Ok(o) && model::row_of(o) == model::first_row(
                    self@.states,
                    of_workspace(input@.workspace),
                ),
            },
    {
        validate_update(input)?;
        let before: Option<WorkspaceState> = self.workspace_state(input.workspace.as_str())?;
        proof {
            model::lemma_first_row(self@.states, of_workspace(input@.workspace));
        }
        if !has_value(input) && before.is_none() {
            return Err(Error::of2("no state for ", input.workspace.as_str()));
        }
        Ok(before)
    }

    /// Updates the state of a workspace at a given time.
    pub fn update_workspace_state_at(&mut self, input: &WorkspaceStateUpdate, now: i64) -> (r:
        Result<WorkspaceState, Error>)
        ensures
            match update_refusal(old(self)@.states, input@) {
                Some(message) => {
                    &&& error::outcome(r) == Err::<StateView, Seq<char>>(message)
                    &&& *final(self) == *old(self)
                },
                None => {
                    &&& error::outcome(r) == Ok::<StateView, Seq<char>>(
                        updated_state(old(self)@.states, input@, now as int),
                    )
                    &&& final(self)@ == (StoreView {
                        states: updated(old(self)@.states, input@, now as int),
                        ..old(self)@
                    })
                },
            },
            old(self)@.wf() ==> final(self)@.wf(),
    {
        let ghost before = self@;
        let found: Option<WorkspaceState> = self.updatable(input)?;
        proof {
            model::lemma_first_row(before.states, of_workspace(input@.workspace));
            lemma_updated_wf(before.states, input@, now as int);
        }
        match found {
            Some(state) => {
                let change = |s: &WorkspaceState| -> (r: WorkspaceState)
                    ensures
                        r@ == patch_of(input@, now as int)(s@),
                    {
                        if same(s.workspace.as_str(), input.workspace.as_str()) {
                            merge(s, input, now)
                        } else {
                            s.duplicate()
                        }
                    };
                self.states =
                rewrite(&self.states, change, Ghost(patch_of(input@, now as int)));
                Ok(merge(&state, input, now))
            },
            None => {
                self.states.push(create(input, now));
                assert(self@.states =~= before.states.push(created(input@, now as int)));
                Ok(create(input, now))
            },
        }
    }

    /// Updates the state of a workspace: fields that the update does not mention
    /// are preserved.
    pub fn update_workspace_state(&mut self, input: WorkspaceStateUpdate) -> (r: Result<
        WorkspaceState,
        Error,
    >)
        ensures
            match update_refusal(old(self)@.states, input@) {
                Some(message) => {
                    &&& error::outcome(r) == Err::<StateView, Seq<char>>(message)
                    &&& *final(self) == *old(self)
                },
                None => match r {
                    Ok(state) => {
                        let now = state@.updated_at;
                        &&& clock::clock_time(now)
                        &&& state@ == updated_state(old(self)@.states, input@, now)
                        &&& final(self)@ == (StoreView {
                            states: updated(old(self)@.states, input@, now),
                            ..old(self)@
                        })
                    },
                    Err(e) => clock::clock_refusal(e@) && *final(self) == *old(self),
                },
            },
            old(self)@.wf() ==> final(self)@.wf(),
    {
        self.updatable(&input)?;
        let now: i64 = unix_millis()?;
        self.update_workspace_state_at(&input, now)
    }

    /// Removes the state of a workspace and tells whether there was one.
    pub fn clear_workspace_state(&mut self, workspace: &str) -> (r: Result<bool, Error>)
        ensures
            match memory::identity_refusal(workspace@, "workspace"@) {
                Some(message) => (r matches Err(e) && e@ == message) && *final(self) == *old(self),
                None => {
                    &&& r matches Ok(removed) && removed == model::any_row(
                        old(self)@.states,
                        of_workspace(workspace@),
                    )
                    &&& final(self)@ == (StoreView {
                        states: cleared(old(self)@.states, workspace@),
                        ..old(self)@
                    })
                },
            },
            old(self)@.wf() ==> final(self)@.wf(),
    {
        let ghost before = self@.states;
        let removed: bool = self.workspace_state(workspace)?.is_some();
        let test = |s: &WorkspaceState| -> (r: bool)
            ensures
                r == not_of_workspace(workspace@)(s@),
            { !same(s.workspace.as_str(), workspace) };
        self.states = select(&self.states, test, Ghost(not_of_workspace(workspace@)));
        proof {
            model::lemma_first_row(before, of_workspace(workspace@));
            if model::distinct(before, workspace_key()) {
                model::lemma_distinct_filter(before, not_of_workspace(workspace@), workspace_key());
            }
        }
        Ok(removed)
    }
}

/// An update keeps the workspaces of states distinct.
pub proof fn lemma_updated_wf(states: Seq<StateView>, input: UpdateView, now: int)
    ensures
        model::distinct(states, workspace_key()) ==> model::distinct(
            updated(states, input, now),
            workspace_key(),
        ),
{
    if model::distinct(states, workspace_key()) {
        if model::any_row(states, of_workspace(input.workspace)) {
            model::lemma_distinct_map(states, patch_of(input, now), workspace_key());
        } else {
            assert forall|i: int| 0 <= i < states.len() implies workspace_key()(
                #[trigger] states[i],
            ) != workspace_key()(created(input, now)) by {
                assert(!of_workspace(input.workspace)(states[i]));
            }
            model::lemma_distinct_push(states, created(input, now), workspace_key());
        }
    }
}

/// What an update returns is what is read afterwards, and the states of other
/// workspaces read as before.
pub proof fn law_updated_state_is_read_back(
    states: Seq<StateView>,
    input: UpdateView,
    now: int,
    other: Seq<char>,
)
    requires
        other != input.workspace,
    ensures
        model::first_row(updated(states, input, now), of_workspace(input.workspace)) == Some(
            updated_state(states, input, now),
        ),
        model::first_row(updated(states, input, now), of_workspace(other)) == model::first_row(
            states,
            of_workspace(other),
        ),
{
    let mine = of_workspace(input.workspace);
    let theirs = of_workspace(other);
    model::lemma_first_row(states, mine);
    model::lemma_filter_push(states, created(input, now), mine);
    model::lemma_filter_push(states, created(input, now), theirs);
    model::lemma_filter_map(states, patch_of(input, now), mine);
    model::lemma_filter_map(states, patch_of(input, now), theirs);
    model::lemma_filter_contains(states, theirs);
    model::lemma_filter_contains(states, mine);
    if states.filter(theirs).len() > 0 {
        assert(theirs(states.filter(theirs)[0]));
    }
    if states.filter(mine).len() > 0 {
        assert(mine(states.filter(mine)[0]));
    }
}

/// An accepted update is partial: a field that it sets has the new value, a
/// field that it clears is gone, and any other field is as it was.
pub proof fn law_update_is_partial(
    states: Seq<StateView>,
    input: UpdateView,
    now: int,
    before: StateView,
)
    requires
        update_refusal(states, input) is None,
        model::first_row(states, of_workspace(input.workspace)) == Some(before),
    ensures
        ({
            let after = updated_state(states, input, now);
            &&& input.goal is Some ==> after.goal == input.goal && !clears(input, "goal"@)
            &&& clears(input, "goal"@) ==> after.goal is None
            &&& input.goal is None && !clears(input, "goal"@) ==> after.goal == before.goal
            &&& input.session is Some ==> after.session == input.session && !clears(
                input,
                "session"@,
            )
            &&& clears(input, "session"@) ==> after.session is None
            &&& input.session is None && !clears(input, "session"@) ==> after.session
                == before.session
            &&& input.task is Some ==> after.task == input.task && !clears(input, "task"@)
            &&& clears(input, "task"@) ==> after.task is None
            &&& input.task is None && !clears(input, "task"@) ==> after.task == before.task
            &&& input.checkpoint is Some ==> after.checkpoint == input.checkpoint && !clears(
                input,
                "checkpoint"@,
            )
            &&& clears(input, "checkpoint"@) ==> after.checkpoint is None
            &&& input.checkpoint is None && !clears(input, "checkpoint"@) ==> after.checkpoint
                == before.checkpoint
        }),
{
}

/// After a workspace was cleared it has no state, an update that only clears
/// fields is refused rather than bringing one back, and other workspaces are
/// untouched.
pub proof fn law_cleared_state_is_not_resurrected(
    states: Seq<StateView>,
    workspace: Seq<char>,
    input: UpdateView,
    other: Seq<char>,
)
    requires
        input.workspace == workspace,
        !sets_some(input),
        other != workspace,
    ensures
        model::first_row(cleared(states, workspace), of_workspace(workspace)) is None,
        update_refusal(cleared(states, workspace), input) is Some,
        shape_refusal(input) is None ==> update_refusal(cleared(states, workspace), input) == Some(
            "no state for "@ + workspace,
        ),
        model::first_row(cleared(states, workspace), of_workspace(other)) == model::first_row(
            states,
            of_workspace(other),
        ),
{
    let kept = cleared(states, workspace);
    model::lemma_filter_contains(states, not_of_workspace(workspace));
    assert forall|i: int| 0 <= i < kept.len() implies !of_workspace(workspace)(
        #[trigger] kept[i],
    ) by {
        assert(not_of_workspace(workspace)(kept[i]));
    }
    model::lemma_first_row(kept, of_workspace(workspace));
    model::lemma_filter_filter(states, not_of_workspace(workspace), of_workspace(other));
}

} // verus!
