//! Editing an entry: what to do, step by step, around the external editor.
//!
//! The session only decides. Its caller creates files, hands the terminal
//! over, runs the editor, and reports back what happened; the session
//! answers with the next thing to do. Whatever happens once the terminal
//! has been handed over, the session asks for it back before it ends.

use vstd::prelude::*;

verus! {

/// Where an edit session stands.
#[derive(Clone, Copy, Debug, PartialEq, Eq, Structural)]
pub enum EditState {
    /// Nothing has been done yet.
    Start,
    /// The entry's file is being created.
    Creating,
    /// The terminal is being handed over.
    Releasing,
    /// The editor is running.
    Editing,
    /// The user is being told that the editor failed.
    Warning,
    /// The terminal is being taken back; `failed` if the session has to
    /// end with an error afterwards.
    Reclaiming { failed: bool },
    /// The session is over.
    Finished,
}

/// What the caller reports back.
#[derive(Clone, Copy, Debug, PartialEq, Eq, Structural)]
pub enum EditEvent {
    /// Whether the entry's file is there, looked up at the start.
    Found { exists: bool },
    /// The last action succeeded.
    Done,
    /// The last action failed.
    Failed,
    /// The editor ran and exited, with success or not.
    Exited { success: bool },
}

/// What the caller is asked to do next.
#[derive(Clone, Copy, Debug, PartialEq, Eq, Structural)]
pub enum EditAction {
    /// Create an empty file at the entry's path.
    CreateEmpty,
    /// Copy the template's content to the entry's path.
    CopyTemplate,
    /// Hand the terminal over.
    ReleaseTerminal,
    /// Run the editor on the entry's path and wait for it.
    RunEditor,
    /// Tell the user that the editor failed.
    Warn,
    /// Take the terminal back.
    ReclaimTerminal,
    /// Rebuild the entry list: the session ended well.
    Refresh,
    /// Give up with the error of the action that failed.
    Abort,
}

/// Whether the terminal is out of the program's hands in `state`.
pub open spec fn terminal_released(state: EditState) -> bool {
    state is Editing || state is Warning || state is Reclaiming
}

/// The next state and the next action, for each state and event. An event
/// that a state does not expect counts as a failure.
pub open spec fn edit_transition(state: EditState, event: EditEvent, has_template: bool) -> (
    EditState,
    EditAction,
) {
    match state {
        EditState::Start => match event {
            EditEvent::Found { exists: true } => (EditState::Releasing, EditAction::ReleaseTerminal),
            EditEvent::Found { exists: false } => if has_template {
                (EditState::Creating, EditAction::CopyTemplate)
            } else {
                (EditState::Creating, EditAction::CreateEmpty)
            },
            _ => (EditState::Finished, EditAction::Abort),
        },
        EditState::Creating => match event {
            EditEvent::Done => (EditState::Releasing, EditAction::ReleaseTerminal),
            _ => (EditState::Finished, EditAction::Abort),
        },
        EditState::Releasing => match event {
            EditEvent::Done => (EditState::Editing, EditAction::RunEditor),
            _ => (EditState::Reclaiming { failed: true }, EditAction::ReclaimTerminal),
        },
        EditState::Editing => match event {
            EditEvent::Exited { success: true } => (
                EditState::Reclaiming { failed: false },
                EditAction::ReclaimTerminal,
            ),
            _ => (EditState::Warning, EditAction::Warn),
        },
        EditState::Warning => (EditState::Reclaiming { failed: false }, EditAction::ReclaimTerminal),
        EditState::Reclaiming { failed } => match event {
            EditEvent::Done => if failed {
                (EditState::Finished, EditAction::Abort)
            } else {
                (EditState::Finished, EditAction::Refresh)
            },
            _ => (EditState::Finished, EditAction::Abort),
        },
        EditState::Finished => (EditState::Finished, EditAction::Abort),
    }
}

/// Whether a template is configured: an empty path means none.
pub fn has_template(template_path: &str) -> (r: bool)
    ensures
        r == (template_path@.len() > 0),
{
    !template_path.is_empty()
}

/// The next state of an edit session and what to do next, given where the
/// session stands and what the caller reports.
pub fn edit_step(state: EditState, event: EditEvent, has_template: bool) -> (r: (
    EditState,
    EditAction,
))
    ensures
        r == edit_transition(state, event, has_template),
        r.1 is RunEditor ==> state is Releasing && event is Done,
        r.1 is Refresh ==> state is Reclaiming && r.0 is Finished,
        r.0 is Finished ==> !terminal_released(state) || state is Reclaiming,
        terminal_released(state) && !(state is Reclaiming) ==> r.1 is ReclaimTerminal || r.1 is Warn,
{
    match state {
        EditState::Start => match event {
            EditEvent::Found { exists } => {
                if exists {
                    (EditState::Releasing, EditAction::ReleaseTerminal)
                } else if has_template {
                    (EditState::Creating, EditAction::CopyTemplate)
                } else {
                    (EditState::Creating, EditAction::CreateEmpty)
                }
            },
            _ => (EditState::Finished, EditAction::Abort),
        },
        EditState::Creating => match event {
            EditEvent::Done => (EditState::Releasing, EditAction::ReleaseTerminal),
            _ => (EditState::Finished, EditAction::Abort),
        },
        EditState::Releasing => match event {
            EditEvent::Done => (EditState::Editing, EditAction::RunEditor),
            _ => (EditState::Reclaiming { failed: true }, EditAction::ReclaimTerminal),
        },
        EditState::Editing => match event {
            EditEvent::Exited { success } => {
                if success {
                    (EditState::Reclaiming { failed: false }, EditAction::ReclaimTerminal)
                } else {
                    (EditState::Warning, EditAction::Warn)
                }
            },
            _ => (EditState::Warning, EditAction::Warn),
        },
        EditState::Warning => (EditState::Reclaiming { failed: false }, EditAction::ReclaimTerminal),
        EditState::Reclaiming { failed } => match event {
            EditEvent::Done => {
                if failed {
                    (EditState::Finished, EditAction::Abort)
                } else {
                    (EditState::Finished, EditAction::Refresh)
                }
            },
            _ => (EditState::Finished, EditAction::Abort),
        },
        EditState::Finished => (EditState::Finished, EditAction::Abort),
    }
}

/// A missing entry is created before the editor runs: from the template
/// where one is configured, empty where none is. The editor is started
/// only after the file has been created and the terminal handed over.
pub proof fn lemma_missing_entry_is_created_first(has_template: bool)
    ensures
        ({
            let created = edit_transition(
                EditState::Start,
                EditEvent::Found { exists: false },
                has_template,
            );
            let released = edit_transition(created.0, EditEvent::Done, has_template);
            let started = edit_transition(released.0, EditEvent::Done, has_template);
            &&& created.1 == if has_template {
                EditAction::CopyTemplate
            } else {
                EditAction::CreateEmpty
            }
            &&& released.1 == EditAction::ReleaseTerminal
            &&& started.1 == EditAction::RunEditor
        }),
{
}

/// Once the terminal has been handed over, the session does not end before
/// it has asked for the terminal back, whatever the caller reports.
pub proof fn lemma_terminal_is_reclaimed(state: EditState, event: EditEvent, has_template: bool)
    requires
        terminal_released(state),
    ensures
        ({
            let next = edit_transition(state, event, has_template);
            if state is Reclaiming {
                next.0 is Finished
            } else {
                terminal_released(next.0) && !(next.0 is Finished)
            }
        }),
{
}

/// An editor that cannot be started or that exits with a failure is
/// reported and does not fail the session: the list is rebuilt all the same.
pub proof fn lemma_editor_failure_is_not_fatal(event: EditEvent, after_warning: EditEvent, has_template: bool)
    requires
        event != (EditEvent::Exited { success: true }),
    ensures
        ({
            let warned = edit_transition(EditState::Editing, event, has_template);
            let reclaimed = edit_transition(warned.0, after_warning, has_template);
            let ended = edit_transition(reclaimed.0, EditEvent::Done, has_template);
            &&& warned.1 == EditAction::Warn
            &&& reclaimed.1 == EditAction::ReclaimTerminal
            &&& ended == (EditState::Finished, EditAction::Refresh)
        }),
{
}

} // verus!
