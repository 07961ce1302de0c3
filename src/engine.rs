use vstd::prelude::*;
use crate::diff::{DiffStatus, DiffKind, compares_as};
use crate::template::{VarTable, render, render_spec};

verus! {

/// Whether actions have real effects. Fixed once per run.
#[derive(Clone, Copy, PartialEq, Eq, Structural, Debug)]
pub enum Mode {
    /// Simulate: nothing is written and no process is spawned.
    Passive,
    /// Confirm: each command is run only once the operator says yes.
    Interactive,
    /// Apply: destinations are written and commands are run.
    Active,
}

/// The ways an action fails.
#[derive(Clone, Copy, PartialEq, Eq, Structural, Debug)]
pub enum DrtError {
    /// The template could not be read.
    SourceUnreadable,
    /// The command's name is not found on the search path.
    ExecutableNotFound,
    /// The process exited with this non-zero status.
    NotZeroExit(i32),
    /// The process ended without an exit status (killed by a signal).
    CmdExitedPrematurely,
    /// An action lacks an argument.
    ExpectedArg,
    /// An action tag that is not known.
    InvalidInput,
    /// The two files could not be compared.
    ComparisonFailed,
    /// A file could not be written.
    WriteFailed,
    /// An event came that the action was not waiting for.
    UnexpectedEvent,
}

/// The run mode from the command line's flags and from whether the
/// environment override is set: confirm wins, then apply, else simulate.
pub fn resolve_mode(interactive: bool, active: bool, env_active: bool) -> (r: Mode)
    ensures
        r == (if interactive {
            Mode::Interactive
        } else if active || env_active {
            Mode::Active
        } else {
            Mode::Passive
        }),
{
    if interactive {
        Mode::Interactive
    } else if active || env_active {
        Mode::Active
    } else {
        Mode::Passive
    }
}

/// Whether a mode lets a template action write its destination.
pub open spec fn writes_destination(mode: Mode) -> bool {
    mode == Mode::Active
}

/// What a destination holds after a template action whose rendered content
/// is `staged`, in the given mode, when the install succeeds.
pub open spec fn dest_after(mode: Mode, staged: Seq<u8>, dest: Option<Seq<u8>>) -> Option<
    Seq<u8>,
> {
    if writes_destination(mode) {
        Some(staged)
    } else {
        dest
    }
}

/// The two comparisons of a template action: before and after the install.
pub struct TemplateReport {
    pub before: DiffStatus,
    pub after: DiffStatus,
}

/// Where a template action stands.
pub enum TemplateState {
    /// Waiting for the template's bytes.
    Loading,
    /// Waiting for the rendered content to be staged at a temporary place.
    Staging,
    /// Waiting for the comparison of the staged content with the destination.
    Before,
    /// Waiting for the staged content to be copied onto the destination.
    Installing(DiffStatus),
    /// Waiting for the second comparison.
    After(DiffStatus),
    Done,
}

/// What the surroundings report back to a template action.
pub enum TemplateEvent {
    /// The template's bytes, or `None` where it could not be read.
    Loaded(Option<Vec<u8>>),
    /// Whether the rendered content was staged.
    Staged(bool),
    /// The outcome of comparing the staged content with the destination.
    Compared(DiffStatus),
    /// Whether the staged content was copied onto the destination.
    Installed(bool),
}

/// What a template action asks the surroundings to do next.
pub enum TemplateStep {
    /// Read the template.
    Load,
    /// Write these rendered bytes to a temporary place.
    Stage(Vec<u8>),
    /// Compare the staged content with the destination.
    Compare,
    /// Copy the staged content onto the destination: the only step that
    /// writes the destination.
    Install,
    /// The action is over.
    Finish(Result<TemplateReport, DrtError>),
}

/// One template action, with the mode it was opened under.
pub struct TemplateRun {
    pub mode: Mode,
    pub state: TemplateState,
}

/// The transition of a template action in `mode` from `state` on `event`.
pub open spec fn template_next(
    mode: Mode,
    state: TemplateState,
    vars: Map<Seq<u8>, Seq<u8>>,
    event: TemplateEvent,
    next: TemplateState,
    step: TemplateStep,
) -> bool {
    match (state, event) {
        (TemplateState::Loading, TemplateEvent::Loaded(None)) => next is Done && step
            == TemplateStep::Finish(Err(DrtError::SourceUnreadable)),
        (TemplateState::Loading, TemplateEvent::Loaded(Some(t))) => next is Staging && step is Stage
            && step->Stage_0@ == render_spec(vars, t@),
        (TemplateState::Staging, TemplateEvent::Staged(ok)) => if ok {
            next is Before && step is Compare
        } else {
            next is Done && step == TemplateStep::Finish(Err(DrtError::WriteFailed))
        },
        (TemplateState::Before, TemplateEvent::Compared(s)) => if writes_destination(mode) {
            next == TemplateState::Installing(s) && step is Install
        } else {
            next == TemplateState::After(s) && step is Compare
        },
        (TemplateState::Installing(b), TemplateEvent::Installed(ok)) => if ok {
            next == TemplateState::After(b) && step is Compare
        } else {
            next is Done && step == TemplateStep::Finish(Err(DrtError::WriteFailed))
        },
        (TemplateState::After(b), TemplateEvent::Compared(s)) => next is Done && if s is Failed {
            step == TemplateStep::Finish(Err(DrtError::ComparisonFailed))
        } else {
            step == TemplateStep::Finish(Ok(TemplateReport { before: b, after: s }))
        },
        _ => next is Done && step == TemplateStep::Finish(Err(DrtError::UnexpectedEvent)),
    }
}

/// The content a template renders to under `vars`, from the template's
/// bytes, or `None` where the template could not be read.
pub fn process_template_file(vars: &VarTable, template: Option<Vec<u8>>) -> (r: Result<
    Vec<u8>,
    DrtError,
>)
    requires
        vars.wf(),
    ensures
        match template {
            None => r == Err::<Vec<u8>, DrtError>(DrtError::SourceUnreadable),
            Some(t) => r is Ok && r->Ok_0@ == render_spec(vars@, t@),
        },
{
    match template {
        None => Err(DrtError::SourceUnreadable),
        Some(t) => Ok(render(vars, t.as_slice())),
    }
}

/// What follows the first comparison `before`: apply mode installs the
/// staged content onto the destination; the other modes only compare again.
pub fn create_or_diff(mode: Mode, before: DiffStatus) -> (r: (TemplateState, TemplateStep))
    ensures
        if writes_destination(mode) {
            r.0 == TemplateState::Installing(before) && r.1 is Install
        } else {
            r.0 == TemplateState::After(before) && r.1 is Compare
        },
{
    if mode == Mode::Active {
        (TemplateState::Installing(before), TemplateStep::Install)
    } else {
        (TemplateState::After(before), TemplateStep::Compare)
    }
}

impl TemplateRun {
    /// Opens a template action under `mode`; its first step reads the template.
    pub fn new(mode: Mode) -> (r: (TemplateRun, TemplateStep))
        ensures
            r.0.mode == mode,
            r.0.state is Loading,
            r.1 is Load,
    {
        (TemplateRun { mode, state: TemplateState::Loading }, TemplateStep::Load)
    }

    /// Takes the next event and says what to do next. The mode stays as
    /// the action was opened with.
    pub fn step(self, vars: &VarTable, event: TemplateEvent) -> (r: (TemplateRun, TemplateStep))
        requires
            vars.wf(),
        ensures
            r.0.mode == self.mode,
            template_next(self.mode, self.state, vars@, event, r.0.state, r.1),
    {
        let mode = self.mode;
        let (state, step) = match (self.state, event) {
            (TemplateState::Loading, TemplateEvent::Loaded(t)) => match process_template_file(
                vars,
                t,
            ) {
                Ok(staged) => (TemplateState::Staging, TemplateStep::Stage(staged)),
                Err(e) => (TemplateState::Done, TemplateStep::Finish(Err(e))),
            },
            (TemplateState::Staging, TemplateEvent::Staged(ok)) => if ok {
                (TemplateState::Before, TemplateStep::Compare)
            } else {
                (TemplateState::Done, TemplateStep::Finish(Err(DrtError::WriteFailed)))
            },
            (TemplateState::Before, TemplateEvent::Compared(s)) => create_or_diff(mode, s),
            (TemplateState::Installing(b), TemplateEvent::Installed(ok)) => if ok {
                (TemplateState::After(b), TemplateStep::Compare)
            } else {
                (TemplateState::Done, TemplateStep::Finish(Err(DrtError::WriteFailed)))
            },
            (TemplateState::After(b), TemplateEvent::Compared(s)) => match s {
                DiffStatus::Failed => (
                    TemplateState::Done,
                    TemplateStep::Finish(Err(DrtError::ComparisonFailed)),
                ),
                _ => (
                    TemplateState::Done,
                    TemplateStep::Finish(Ok(TemplateReport { before: b, after: s })),
                ),
            },
            _ => (TemplateState::Done, TemplateStep::Finish(Err(DrtError::UnexpectedEvent))),
        };
        (TemplateRun { mode, state }, step)
    }
}

/// Outside apply mode a template action never writes its destination: no
/// transition asks for the install, so the destination's bytes are the same
/// after any number of such actions.
pub proof fn lemma_simulate_never_writes(
    mode: Mode,
    state: TemplateState,
    vars: Map<Seq<u8>, Seq<u8>>,
    event: TemplateEvent,
    next: TemplateState,
    step: TemplateStep,
    staged: Seq<u8>,
    dest: Option<Seq<u8>>,
)
    requires
        mode != Mode::Active,
        template_next(mode, state, vars, event, next, step),
    ensures
        !(step is Install),
        dest_after(mode, staged, dest) == dest,
{
}

/// Applying the same template with the same table twice in apply mode: the
/// first comparison finds a new file or a change (unless the destination
/// already held the rendering), and the second finds no change; the second
/// install leaves the destination as the first left it.
pub proof fn lemma_apply_twice_converges(
    vars: Map<Seq<u8>, Seq<u8>>,
    t: Seq<u8>,
    dest: Option<Seq<u8>>,
)
    ensures
        dest != Some(render_spec(vars, t)) ==> (compares_as(render_spec(vars, t), dest)
            == DiffKind::NewFile || compares_as(render_spec(vars, t), dest) == DiffKind::Changed),
        compares_as(render_spec(vars, t), dest_after(Mode::Active, render_spec(vars, t), dest))
            == DiffKind::NoChanges,
        dest_after(
            Mode::Active,
            render_spec(vars, t),
            dest_after(Mode::Active, render_spec(vars, t), dest),
        ) == dest_after(Mode::Active, render_spec(vars, t), dest),
{
}

} // verus!
