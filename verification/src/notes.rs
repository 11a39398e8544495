//! Debounced saving of a track's notes: edits arrive one by one as the user
//! types; once no edit has arrived for a quiet period, the latest one is
//! saved. The channel, the timer and the database stay with the caller,
//! which waits as told and reports what it saw.

use vstd::prelude::*;

verus! {

/// What the caller saw while waiting.
#[derive(Debug, Clone)]
pub enum NotesEvent {
    /// An edit: the whole notes text of a track.
    Edit { track_id: i64, text: String },
    /// The quiet period passed with no edit.
    Quiet,
    /// The edit channel was closed.
    Closed,
}

/// What the caller does next.
#[derive(Debug, Clone)]
pub enum NotesAction {
    /// Wait for an edit, without a time limit.
    WaitForEdit,
    /// Wait for an edit for at most the quiet period.
    WaitQuietPeriod,
    /// Save this text as the track's notes, then wait for an edit.
    Save { track_id: i64, text: String },
    /// Stop: no more edits can come.
    Exit,
}

pub enum NotesEventModel {
    Edit(i64, Seq<char>),
    Quiet,
    Closed,
}

impl View for NotesEvent {
    type V = NotesEventModel;

    open spec fn view(&self) -> NotesEventModel {
        match self {
            NotesEvent::Edit { track_id, text } => NotesEventModel::Edit(*track_id, text@),
            NotesEvent::Quiet => NotesEventModel::Quiet,
            NotesEvent::Closed => NotesEventModel::Closed,
        }
    }
}

pub enum NotesActionModel {
    WaitForEdit,
    WaitQuietPeriod,
    Save(i64, Seq<char>),
    Exit,
}

impl View for NotesAction {
    type V = NotesActionModel;

    open spec fn view(&self) -> NotesActionModel {
        match self {
            NotesAction::WaitForEdit => NotesActionModel::WaitForEdit,
            NotesAction::WaitQuietPeriod => NotesActionModel::WaitQuietPeriod,
            NotesAction::Save { track_id, text } => NotesActionModel::Save(*track_id, text@),
            NotesAction::Exit => NotesActionModel::Exit,
        }
    }
}

/// One step of the debouncer. With no edit pending, an edit becomes pending
/// and the quiet period starts, and a closed channel ends the work. With an
/// edit pending, a newer edit replaces it and restarts the quiet period; the
/// end of the quiet period, or a closed channel, saves the pending edit.
pub open spec fn notes_step(pending: Option<(i64, Seq<char>)>, ev: NotesEventModel) -> (
    Option<(i64, Seq<char>)>,
    NotesActionModel,
) {
    match ev {
        NotesEventModel::Edit(id, text) => (Some((id, text)), NotesActionModel::WaitQuietPeriod),
        NotesEventModel::Quiet => match pending {
            Some((id, text)) => (None, NotesActionModel::Save(id, text)),
            None => (None, NotesActionModel::WaitForEdit),
        },
        NotesEventModel::Closed => match pending {
            Some((id, text)) => (None, NotesActionModel::Save(id, text)),
            None => (None, NotesActionModel::Exit),
        },
    }
}

/// The pending edit after a run of events.
pub open spec fn notes_run(pending: Option<(i64, Seq<char>)>, evs: Seq<NotesEventModel>) -> Option<
    (i64, Seq<char>),
>
    decreases evs.len(),
{
    if evs.len() == 0 {
        pending
    } else {
        notes_step(notes_run(pending, evs.drop_last()), evs.last()).0
    }
}

/// The debouncer's state: the edit waiting to be saved, if any.
pub struct NotesDebouncer {
    pending: Option<(i64, String)>,
}

impl View for NotesDebouncer {
    type V = Option<(i64, Seq<char>)>;

    closed spec fn view(&self) -> Option<(i64, Seq<char>)> {
        match self.pending {
            Some((id, text)) => Some((id, text@)),
            None => None,
        }
    }
}

impl NotesDebouncer {
    /// No edit pending.
    pub fn new() -> (r: Self)
        ensures
            r@ is None,
    {
        NotesDebouncer { pending: None }
    }

    /// Takes what the caller saw and says what to do next.
    pub fn step(&mut self, ev: NotesEvent) -> (r: NotesAction)
        ensures
            final(self)@ == notes_step(old(self)@, ev@).0,
            r@ == notes_step(old(self)@, ev@).1,
    {
        match ev {
            NotesEvent::Edit { track_id, text } => {
                self.pending = Some((track_id, text));
                NotesAction::WaitQuietPeriod
            },
            NotesEvent::Quiet => {
                let mut pending: Option<(i64, String)> = None;
                std::mem::swap(&mut pending, &mut self.pending);
                match pending {
                    Some((track_id, text)) => NotesAction::Save { track_id, text },
                    None => NotesAction::WaitForEdit,
                }
            },
            NotesEvent::Closed => {
                let mut pending: Option<(i64, String)> = None;
                std::mem::swap(&mut pending, &mut self.pending);
                match pending {
                    Some((track_id, text)) => NotesAction::Save { track_id, text },
                    None => NotesAction::Exit,
                }
            },
        }
    }
}

/// The edit pending after a run of edits is the last of them.
pub proof fn lemma_edits_keep_latest(pending: Option<(i64, Seq<char>)>, edits: Seq<(i64, Seq<char>)>)
    requires
        edits.len() > 0,
    ensures
        notes_run(pending, edits.map_values(|e: (i64, Seq<char>)| NotesEventModel::Edit(e.0, e.1)))
            == Some(edits.last()),
{
    let evs = edits.map_values(|e: (i64, Seq<char>)| NotesEventModel::Edit(e.0, e.1));
    assert(evs.last() == NotesEventModel::Edit(edits.last().0, edits.last().1));
}

/// A burst of edits followed by a quiet period saves exactly the last edit,
/// and leaves nothing pending.
pub proof fn lemma_burst_saves_last_edit(pending: Option<(i64, Seq<char>)>, edits: Seq<(i64, Seq<char>)>)
    requires
        edits.len() > 0,
    ensures
        ({
            let evs = edits.map_values(|e: (i64, Seq<char>)| NotesEventModel::Edit(e.0, e.1));
            let after = notes_step(notes_run(pending, evs), NotesEventModel::Quiet);
            after.0 is None && after.1 == NotesActionModel::Save(edits.last().0, edits.last().1)
        }),
{
    lemma_edits_keep_latest(pending, edits);
}

} // verus!
