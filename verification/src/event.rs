//! What background work tells the window.

use vstd::prelude::*;
use vstd::string::*;

verus! {

/// An event for the window.
pub enum UserEvent {
    /// Replaces the check list by a list of states.
    Checklist(String),
    /// The headline.
    Stage(String),
    /// The line below the headline; may hold simple HTML.
    Sub(String),
    /// Progress of a download or an installation, from 0 to 100.
    Progress(u8),
    /// Shows the interactive terminal.
    EnterTerminal,
    /// Output to append to the terminal.
    Term(String),
    /// Updates the status bar only.
    Status(String),
    /// The running command seems to wait for a confirmation; holds the question.
    Prompt(String),
    /// The child process has ended.
    TermDone(String),
    /// The service is ready at this address.
    ServerReady(String),
    /// A fatal error, shown in the window.
    Fatal(String),
    /// What the automatic recovery found, as JSON.
    Diagnosis(String),
    /// A note about the recovery, for the page of the service.
    RecoveredToast(String),
    /// The user asked for an update check.
    CheckUpdate,
    /// The user asked for help.
    ShowHelp,
    /// A newer version: its tag and its release notes.
    UpdateAvailable(String, String),
    /// Progress of an update's download, from 0 to 100.
    UpdateProgress(u8),
    /// The update with this tag is installed.
    UpdateDone(String),
    /// The update failed; holds a short note.
    UpdateFailed(String),
}

/// A [`UserEvent`] with its texts as sequences of characters.
#[verifier::ext_equal]
pub enum EventView {
    Checklist(Seq<char>),
    Stage(Seq<char>),
    Sub(Seq<char>),
    Progress(u8),
    EnterTerminal,
    Term(Seq<char>),
    Status(Seq<char>),
    Prompt(Seq<char>),
    TermDone(Seq<char>),
    ServerReady(Seq<char>),
    Fatal(Seq<char>),
    Diagnosis(Seq<char>),
    RecoveredToast(Seq<char>),
    CheckUpdate,
    ShowHelp,
    UpdateAvailable(Seq<char>, Seq<char>),
    UpdateProgress(u8),
    UpdateDone(Seq<char>),
    UpdateFailed(Seq<char>),
}

impl View for UserEvent {
    type V = EventView;

    open spec fn view(&self) -> EventView {
        match self {
            UserEvent::Checklist(s) => EventView::Checklist(s@),
            UserEvent::Stage(s) => EventView::Stage(s@),
            UserEvent::Sub(s) => EventView::Sub(s@),
            UserEvent::Progress(p) => EventView::Progress(*p),
            UserEvent::EnterTerminal => EventView::EnterTerminal,
            UserEvent::Term(s) => EventView::Term(s@),
            UserEvent::Status(s) => EventView::Status(s@),
            UserEvent::Prompt(s) => EventView::Prompt(s@),
            UserEvent::TermDone(s) => EventView::TermDone(s@),
            UserEvent::ServerReady(s) => EventView::ServerReady(s@),
            UserEvent::Fatal(s) => EventView::Fatal(s@),
            UserEvent::Diagnosis(s) => EventView::Diagnosis(s@),
            UserEvent::RecoveredToast(s) => EventView::RecoveredToast(s@),
            UserEvent::CheckUpdate => EventView::CheckUpdate,
            UserEvent::ShowHelp => EventView::ShowHelp,
            UserEvent::UpdateAvailable(s, t) => EventView::UpdateAvailable(s@, t@),
            UserEvent::UpdateProgress(p) => EventView::UpdateProgress(*p),
            UserEvent::UpdateDone(s) => EventView::UpdateDone(s@),
            UserEvent::UpdateFailed(s) => EventView::UpdateFailed(s@),
        }
    }
}

/// The events of a list.
pub open spec fn events(v: Seq<UserEvent>) -> Seq<EventView> {
    Seq::new(v.len(), |i: int| v[i]@)
}

/// Appends an event.
pub fn emit(out: &mut Vec<UserEvent>, e: UserEvent)
    ensures
        events(final(out)@) == events(old(out)@).push(e@),
{
    out.push(e);
    assert(events(out@) =~= events(old(out)@).push(e@));
}

/// An empty list of events.
pub fn no_events() -> (r: Vec<UserEvent>)
    ensures
        events(r@) == Seq::<EventView>::empty(),
{
    let out: Vec<UserEvent> = Vec::new();
    assert(events(out@) =~= Seq::<EventView>::empty());
    out
}

/// Output for the terminal.
pub fn term(s: &str) -> (r: UserEvent)
    ensures
        r@ == EventView::Term(s@),
{
    UserEvent::Term(String::from_str(s))
}

/// A line for the status bar.
pub fn status(s: &str) -> (r: UserEvent)
    ensures
        r@ == EventView::Status(s@),
{
    UserEvent::Status(String::from_str(s))
}

/// A fatal error.
pub fn fatal(s: &str) -> (r: UserEvent)
    ensures
        r@ == EventView::Fatal(s@),
{
    UserEvent::Fatal(String::from_str(s))
}

/// A failed update.
pub fn update_failed(s: &str) -> (r: UserEvent)
    ensures
        r@ == EventView::UpdateFailed(s@),
{
    UserEvent::UpdateFailed(String::from_str(s))
}

} // verus!
