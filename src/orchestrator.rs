//! The state machine that decides what the user may do and when an
//! ingestion runs. The caller performs the actions it asks for and feeds
//! the outcomes back as messages.
use vstd::prelude::*;
use crate::catalog::CandidateFile;
use crate::ingest::{IngestError, Table};
use crate::progress::{ProgressChannel, FULL};

verus! {

/// Period of the progress poller, in milliseconds.
pub const TICK_MILLIS: u64 = 16;

/// The phase of the task lifecycle.
#[derive(Clone, Copy, PartialEq, Eq, Debug, Structural)]
pub enum TaskState {
    Idle,
    SelectingFile,
    Running,
    Completed,
    Failed,
}

/// Why the last run ended in the `Failed` phase.
pub enum Failure {
    /// The storage directory held no source file.
    NoInputFiles,
    /// The ingestion returned this error.
    Ingest(IngestError),
}

/// What the presentation layer reads.
pub struct State {
    pub task_state: TaskState,
    /// The last sampled progress, in thousandths.
    pub displayed_progress: u32,
    /// The candidates offered while a file is being selected.
    pub csv_files: Vec<CandidateFile>,
    pub selected_csv_index: Option<usize>,
    /// Whether the completion notice is up.
    pub show_dialog: bool,
    /// The failure to surface, while in `Failed`.
    pub failure: Option<Failure>,
    /// The table of the last successful run.
    pub table: Option<Table>,
    /// The slot that the running worker writes; only while `Running`.
    pub shared_progress: Option<ProgressChannel>,
}

/// The discrete events that reach the state machine.
pub enum Message {
    StartPressed,
    /// The catalog's listing, asked for by `Action::ListFiles`.
    FilesListed(Vec<CandidateFile>),
    FileSelected(usize),
    ConfirmFileSelection,
    CancelFileSelection,
    /// The worker's outcome, sent once it has finished.
    IngestFinished(Result<Table, IngestError>),
    DismissDialog,
    DismissError,
    Tick,
    OpenLink(String),
    OpenDirectory,
    OpenCurrentLog,
}

/// What the caller is to do after a message.
pub enum Action {
    Nothing,
    /// List the storage directory and send `Message::FilesListed`.
    ListFiles,
    /// Run the ingestion of `path` off the interactive thread, writing
    /// progress through `progress`, and send `Message::IngestFinished`.
    Ingest { path: String, progress: ProgressChannel },
    OpenLink(String),
    OpenDirectory,
    OpenCurrentLog,
}

/// A message as far as the phase depends on it.
pub enum Event {
    Start,
    Listed { any: bool },
    Pick,
    Confirm { valid: bool },
    Cancel,
    Finished { ok: bool },
    Dismiss,
    Tick,
    Other,
}

pub open spec fn valid_selection(s: State) -> bool {
    s.selected_csv_index matches Some(i) && i < s.csv_files@.len()
}

pub open spec fn event_of(s: State, m: Message) -> Event {
    match m {
        Message::StartPressed => Event::Start,
        Message::FilesListed(fs) => Event::Listed { any: fs@.len() > 0 },
        Message::FileSelected(_) => Event::Pick,
        Message::ConfirmFileSelection => Event::Confirm { valid: valid_selection(s) },
        Message::CancelFileSelection => Event::Cancel,
        Message::IngestFinished(r) => Event::Finished { ok: r is Ok },
        Message::DismissDialog => Event::Dismiss,
        Message::DismissError => Event::Dismiss,
        Message::Tick => Event::Tick,
        _ => Event::Other,
    }
}

/// The phase after an event.
pub open spec fn phase_next(p: TaskState, e: Event) -> TaskState {
    match (p, e) {
        (TaskState::Idle, Event::Listed { any }) => if any {
            TaskState::SelectingFile
        } else {
            TaskState::Failed
        },
        (TaskState::SelectingFile, Event::Cancel) => TaskState::Idle,
        (TaskState::SelectingFile, Event::Confirm { valid }) => if valid {
            TaskState::Running
        } else {
            TaskState::SelectingFile
        },
        (TaskState::Running, Event::Finished { ok }) => if ok {
            TaskState::Completed
        } else {
            TaskState::Failed
        },
        (TaskState::Completed, Event::Dismiss) => TaskState::Idle,
        (TaskState::Failed, Event::Dismiss) => TaskState::Idle,
        _ => p,
    }
}

/// Whether the event starts a worker.
pub open spec fn spawns(p: TaskState, e: Event) -> bool {
    p == TaskState::SelectingFile && e == (Event::Confirm { valid: true })
}

/// Whether the event is the end of the live worker.
pub open spec fn retires(p: TaskState, e: Event) -> bool {
    p == TaskState::Running && e is Finished
}

impl State {
    /// The state at start-up: idle, nothing listed, nothing to surface.
    pub fn new() -> (r: State)
        ensures
            r.task_state == TaskState::Idle,
            r.displayed_progress == 0,
            r.csv_files@.len() == 0,
            r.selected_csv_index is None,
            !r.show_dialog,
            r.failure is None,
            r.table is None,
            r.shared_progress is None,
    {
        State {
            task_state: TaskState::Idle,
            displayed_progress: 0,
            csv_files: Vec::new(),
            selected_csv_index: None,
            show_dialog: false,
            failure: None,
            table: None,
            shared_progress: None,
        }
    }
}

/// `t` is what a dismissal leaves of `s`: idle, with nothing listed,
/// selected or surfaced.
pub open spec fn dismissed(s: State, t: State) -> bool {
    &&& t.csv_files@.len() == 0
    &&& t == (State {
        task_state: TaskState::Idle,
        csv_files: t.csv_files,
        selected_csv_index: None,
        show_dialog: false,
        failure: None,
        ..s
    })
}

/// Applies one message to the state and says what the caller is to do.
/// Starting is a no-op unless the phase is `Idle`; a worker is asked for only
/// on confirming a valid selection, which enters `Running`; only the worker's
/// outcome leaves `Running`.
pub fn update(state: &mut State, message: Message) -> (r: Action)
    ensures
        final(state).task_state == phase_next(old(state).task_state, event_of(*old(state), message)),
        (r is Ingest) == spawns(old(state).task_state, event_of(*old(state), message)),
        match message {
            Message::StartPressed => {
                &&& *final(state) == *old(state)
                &&& if old(state).task_state == TaskState::Idle {
                    r is ListFiles
                } else {
                    r is Nothing
                }
            },
            Message::FilesListed(fs) => {
                &&& r is Nothing
                &&& if old(state).task_state != TaskState::Idle {
                    *final(state) == *old(state)
                } else if fs@.len() == 0 {
                    *final(state) == (State {
                        task_state: TaskState::Failed,
                        failure: Some(Failure::NoInputFiles),
                        ..*old(state)
                    })
                } else {
                    *final(state) == (State {
                        task_state: TaskState::SelectingFile,
                        csv_files: fs,
                        selected_csv_index: Some(0),
                        ..*old(state)
                    })
                }
            },
            Message::FileSelected(i) => {
                &&& r is Nothing
                &&& *final(state) == if old(state).task_state == TaskState::SelectingFile {
                    State { selected_csv_index: Some(i), ..*old(state) }
                } else {
                    *old(state)
                }
            },
            Message::ConfirmFileSelection => if spawns(
                old(state).task_state,
                event_of(*old(state), message),
            ) {
                &&& final(state).displayed_progress == 0
                &&& final(state).csv_files@.len() == 0
                &&& final(state).selected_csv_index is None
                &&& final(state).shared_progress is Some
                &&& r matches Action::Ingest { path, progress } && path@
                    == old(state).csv_files@[old(state).selected_csv_index.unwrap() as int].path@
                    && progress.written() == Seq::<u32>::empty()
            } else {
                &&& r is Nothing
                &&& *final(state) == *old(state)
            },
            Message::CancelFileSelection => {
                &&& r is Nothing
                &&& if old(state).task_state == TaskState::SelectingFile {
                    &&& final(state).csv_files@.len() == 0
                    &&& *final(state) == (State {
                        task_state: TaskState::Idle,
                        csv_files: final(state).csv_files,
                        selected_csv_index: None,
                        ..*old(state)
                    })
                } else {
                    *final(state) == *old(state)
                }
            },
            Message::IngestFinished(res) => {
                &&& r is Nothing
                &&& if old(state).task_state != TaskState::Running {
                    *final(state) == *old(state)
                } else {
                    match res {
                        Ok(t) => *final(state) == (State {
                            task_state: TaskState::Completed,
                            displayed_progress: FULL,
                            show_dialog: true,
                            table: Some(t),
                            shared_progress: None,
                            ..*old(state)
                        }),
                        Err(e) => *final(state) == (State {
                            task_state: TaskState::Failed,
                            failure: Some(Failure::Ingest(e)),
                            shared_progress: None,
                            ..*old(state)
                        }),
                    }
                }
            },
            Message::DismissDialog | Message::DismissError => {
                &&& r is Nothing
                &&& if old(state).task_state == TaskState::Completed || old(state).task_state
                    == TaskState::Failed {
                    dismissed(*old(state), *final(state))
                } else {
                    *final(state) == *old(state)
                }
            },
            Message::Tick => {
                &&& r is Nothing
                &&& final(state).displayed_progress <= FULL || final(state).displayed_progress
                    == old(state).displayed_progress
                &&& (State { displayed_progress: 0, ..*final(state) }) == (State {
                    displayed_progress: 0,
                    ..*old(state)
                })
                &&& (old(state).task_state != TaskState::Running
                    || old(state).shared_progress is None) ==> *final(state) == *old(state)
            },
            Message::OpenLink(u) => *final(state) == *old(state) && r == Action::OpenLink(u),
            Message::OpenDirectory => *final(state) == *old(state) && r is OpenDirectory,
            Message::OpenCurrentLog => *final(state) == *old(state) && r is OpenCurrentLog,
        },
{
    match message {
        Message::StartPressed => {
            if state.task_state == TaskState::Idle {
                Action::ListFiles
            } else {
                Action::Nothing
            }
        },
        Message::FilesListed(fs) => {
            if state.task_state == TaskState::Idle {
                if fs.len() == 0 {
                    state.task_state = TaskState::Failed;
                    state.failure = Some(Failure::NoInputFiles);
                } else {
                    state.task_state = TaskState::SelectingFile;
                    state.csv_files = fs;
                    state.selected_csv_index = Some(0);
                }
            }
            Action::Nothing
        },
        Message::FileSelected(i) => {
            if state.task_state == TaskState::SelectingFile {
                state.selected_csv_index = Some(i);
            }
            Action::Nothing
        },
        Message::ConfirmFileSelection => {
            if state.task_state != TaskState::SelectingFile {
                return Action::Nothing;
            }
            let i = match state.selected_csv_index {
                Some(i) => i,
                None => {
                    return Action::Nothing;
                },
            };
            if i >= state.csv_files.len() {
                return Action::Nothing;
            }
            let path = state.csv_files[i].path.clone();
            let chan = ProgressChannel::new();
            let worker = chan.share();
            state.task_state = TaskState::Running;
            state.displayed_progress = 0;
            state.csv_files = Vec::new();
            state.selected_csv_index = None;
            state.shared_progress = Some(chan);
            Action::Ingest { path, progress: worker }
        },
        Message::CancelFileSelection => {
            if state.task_state == TaskState::SelectingFile {
                state.task_state = TaskState::Idle;
                state.csv_files = Vec::new();
                state.selected_csv_index = None;
            }
            Action::Nothing
        },
        Message::IngestFinished(res) => {
            if state.task_state == TaskState::Running {
                match res {
                    Ok(t) => {
                        state.task_state = TaskState::Completed;
                        state.displayed_progress = FULL;
                        state.show_dialog = true;
                        state.table = Some(t);
                        state.shared_progress = None;
                    },
                    Err(e) => {
                        state.task_state = TaskState::Failed;
                        state.failure = Some(Failure::Ingest(e));
                        state.shared_progress = None;
                    },
                }
            }
            Action::Nothing
        },
        Message::DismissDialog | Message::DismissError => {
            if state.task_state == TaskState::Completed || state.task_state == TaskState::Failed {
                state.task_state = TaskState::Idle;
                state.csv_files = Vec::new();
                state.selected_csv_index = None;
                state.show_dialog = false;
                state.failure = None;
            }
            Action::Nothing
        },
        Message::Tick => {
            if state.task_state == TaskState::Running {
                let sampled = match &state.shared_progress {
                    Some(ch) => Some(ch.read()),
                    None => None,
                };
                if let Some(v) = sampled {
                    state.displayed_progress = v;
                }
            }
            Action::Nothing
        },
        Message::OpenLink(u) => Action::OpenLink(u),
        Message::OpenDirectory => Action::OpenDirectory,
        Message::OpenCurrentLog => Action::OpenCurrentLog,
    }
}

/// The phase after a sequence of events, oldest first.
pub open spec fn phase_after(p: TaskState, es: Seq<Event>) -> TaskState
    decreases es.len(),
{
    if es.len() == 0 {
        p
    } else {
        phase_next(phase_after(p, es.drop_last()), es.last())
    }
}

/// Workers started minus workers retired over a sequence of events.
pub open spec fn live_workers(p: TaskState, es: Seq<Event>) -> int
    decreases es.len(),
{
    if es.len() == 0 {
        0
    } else {
        let q = phase_after(p, es.drop_last());
        live_workers(p, es.drop_last()) + (if spawns(q, es.last()) {
            1int
        } else {
            0int
        }) - (if retires(q, es.last()) {
            1int
        } else {
            0int
        })
    }
}

/// From any phase but `Running`, whatever events follow, at most one worker
/// is live at a time: exactly one while the phase is `Running`, none
/// otherwise. So no ingestion starts while another runs.
pub proof fn lemma_one_worker_at_most(p: TaskState, es: Seq<Event>)
    requires
        p != TaskState::Running,
    ensures
        live_workers(p, es) == (if phase_after(p, es) == TaskState::Running {
            1int
        } else {
            0int
        }),
    decreases es.len(),
{
    if es.len() > 0 {
        lemma_one_worker_at_most(p, es.drop_last());
    }
}

/// A start request changes the phase only from `Idle`, and only once the
/// listing arrives; a worker starts only from `SelectingFile`.
pub proof fn lemma_start_needs_idle(p: TaskState, e: Event)
    ensures
        phase_next(p, Event::Start) == p,
        p != TaskState::Idle ==> (e is Listed ==> phase_next(p, e) == p),
        spawns(p, e) ==> p == TaskState::SelectingFile && phase_next(p, e) == TaskState::Running,
        phase_next(p, e) == TaskState::Running && p != TaskState::Running ==> spawns(p, e),
{
}

/// A failed ingestion takes a live run to `Failed`, and dismissing a finished
/// run, failed or completed, always returns to `Idle`.
pub proof fn lemma_finish_and_dismiss(p: TaskState)
    ensures
        phase_next(TaskState::Running, Event::Finished { ok: false }) == TaskState::Failed,
        phase_next(TaskState::Running, Event::Finished { ok: true }) == TaskState::Completed,
        (p == TaskState::Completed || p == TaskState::Failed) ==> phase_next(p, Event::Dismiss)
            == TaskState::Idle,
{
}

/// The poller's period while a run is live; no poller otherwise.
pub fn subscription(state: &State) -> (r: Option<u64>)
    ensures
        r == (if state.task_state == TaskState::Running {
            Some(TICK_MILLIS)
        } else {
            None::<u64>
        }),
{
    if state.task_state == TaskState::Running {
        Some(TICK_MILLIS)
    } else {
        None
    }
}

} // verus!
