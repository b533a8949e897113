//! Looking for updates: what is shown while the databases are synchronised.
use vstd::prelude::*;

use crate::text::{has_word, held_within, holds, own, to_chars};

verus! {

/// What is shown at the edge of the window.
#[derive(Debug, Clone)]
pub enum StatusMessage {
    SetBusy(bool),
    SetLoading(bool),
    SetProgress(i32),
    SetProgressText(String),
    SetStatus(String),
}

/// What is shown at the edge of the window.
pub enum StatusModel {
    SetBusy(bool),
    SetLoading(bool),
    SetProgress(i32),
    SetProgressText(Seq<char>),
    SetStatus(Seq<char>),
}

impl View for StatusMessage {
    type V = StatusModel;

    open spec fn view(&self) -> StatusModel {
        match *self {
            StatusMessage::SetBusy(b) => StatusModel::SetBusy(b),
            StatusMessage::SetLoading(b) => StatusModel::SetLoading(b),
            StatusMessage::SetProgress(n) => StatusModel::SetProgress(n),
            StatusMessage::SetProgressText(s) => StatusModel::SetProgressText(s@),
            StatusMessage::SetStatus(s) => StatusModel::SetStatus(s@),
        }
    }
}

/// The contents of a list of messages.
pub open spec fn status_models(list: Seq<StatusMessage>) -> Seq<StatusModel> {
    list.map_values(|m: StatusMessage| m@)
}

fn send(out: &mut Vec<StatusMessage>, message: StatusMessage)
    ensures
        status_models(final(out)@) == status_models(old(out)@).push(message@),
{
    let ghost before = out@;
    out.push(message);
    proof {
        assert(status_models(out@) =~= status_models(before).push(message@));
    }
}

/// How far the work is, and what is done next.
pub open spec fn stage_messages(percent: i32, text: Seq<char>, status: Seq<char>) -> Seq<StatusModel> {
    seq![
        StatusModel::SetProgress(percent),
        StatusModel::SetProgressText(text),
        StatusModel::SetStatus(status),
    ]
}

fn stage(percent: i32, text: &str, status: &str) -> (out: Vec<StatusMessage>)
    ensures
        status_models(out@) == stage_messages(percent, text@, status@),
{
    let mut out: Vec<StatusMessage> = Vec::new();
    send(&mut out, StatusMessage::SetProgress(percent));
    send(&mut out, StatusMessage::SetProgressText(own(text)));
    send(&mut out, StatusMessage::SetStatus(own(status)));
    proof {
        assert(status_models(out@) =~= stage_messages(percent, text@, status@));
    }
    out
}

/// How far the search for updates has come.
#[derive(Debug, Clone, Copy, PartialEq, Eq, Structural)]
pub enum SyncStep {
    /// The databases of pacman are to be synchronised.
    Pacman,
    /// The data of Flatpak is to be refreshed.
    Flatpak { pacman_ok: bool },
    /// The packages are to be loaded, with a check for updates.
    Reload { pacman_ok: bool },
    /// Nothing more is to be done.
    Done,
}

/// What came of synchronising the databases of pacman.
#[derive(Debug, Clone)]
pub enum PacmanOutcome {
    Finished { success: bool, code: Option<i32>, stderr: String },
    Unavailable,
}

/// Whether the user has refused to give the rights of the administrator.
pub open spec fn refused(code: Option<i32>, stderr: Seq<char>) -> bool {
    ||| holds(stderr, "cancelled"@)
    ||| holds(stderr, "dismissed"@)
    ||| code == Some(126i32)
    ||| code == Some(127i32)
}

/// What is shown first.
pub open spec fn start_models() -> Seq<StatusModel> {
    seq![StatusModel::SetBusy(true)] + stage_messages(
        5,
        "Syncing pacman databases..."@,
        "Syncing pacman databases..."@,
    )
}

/// What is shown when the databases of pacman were synchronised or could not be.
pub open spec fn pacman_models(outcome: PacmanOutcome) -> Seq<StatusModel> {
    match outcome {
        PacmanOutcome::Finished { success, code, stderr } => if success {
            stage_messages(
                25,
                "Pacman synced. Checking Flatpak..."@,
                "Pacman synced. Checking Flatpak..."@,
            )
        } else if refused(code, stderr@) {
            seq![
                StatusModel::SetStatus("Authentication cancelled"@),
                StatusModel::SetProgress(0),
                StatusModel::SetProgressText(""@),
                StatusModel::SetBusy(false),
            ]
        } else {
            stage_messages(
                25,
                "Pacman sync had issues, continuing..."@,
                "Pacman sync had issues, continuing..."@,
            )
        },
        PacmanOutcome::Unavailable => stage_messages(
            25,
            "Pacman sync unavailable, continuing..."@,
            "Pacman sync unavailable, continuing..."@,
        ),
    }
}

/// What comes after pacman: nothing where the user has refused, and else Flatpak.
pub open spec fn after_pacman(outcome: PacmanOutcome) -> SyncStep {
    match outcome {
        PacmanOutcome::Finished { success, code, stderr } => if success {
            SyncStep::Flatpak { pacman_ok: true }
        } else if refused(code, stderr@) {
            SyncStep::Done
        } else {
            SyncStep::Flatpak { pacman_ok: false }
        },
        PacmanOutcome::Unavailable => SyncStep::Flatpak { pacman_ok: false },
    }
}

/// Starts the search for updates.
pub fn start_sync() -> (r: (Vec<StatusMessage>, SyncStep))
    ensures
        status_models(r.0@) == start_models(),
        r.1 == SyncStep::Pacman,
{
    let mut out: Vec<StatusMessage> = Vec::new();
    send(&mut out, StatusMessage::SetBusy(true));
    let ghost first = out@;
    let mut more = stage(5, "Syncing pacman databases...", "Syncing pacman databases...");
    let ghost last = more@;
    out.append(&mut more);
    proof {
        assert(status_models(out@) =~= status_models(first) + status_models(last));
        assert(status_models(first) =~= seq![StatusModel::SetBusy(true)]);
    }
    (out, SyncStep::Pacman)
}

/// Goes on after pacman.
pub fn pacman_synced(outcome: &PacmanOutcome) -> (r: (Vec<StatusMessage>, SyncStep))
    ensures
        status_models(r.0@) == pacman_models(*outcome),
        r.1 == after_pacman(*outcome),
{
    match outcome {
        PacmanOutcome::Finished { success, code, stderr } => {
            if *success {
                return (
                    stage(
                        25,
                        "Pacman synced. Checking Flatpak...",
                        "Pacman synced. Checking Flatpak...",
                    ),
                    SyncStep::Flatpak { pacman_ok: true },
                );
            }
            let chars = to_chars(stderr.as_str());
            let s = chars.as_slice();
            let denied = match code {
                Some(n) => *n == 126 || *n == 127,
                None => false,
            };
            if has_word(s, "cancelled") || has_word(s, "dismissed") || denied {
                let mut out: Vec<StatusMessage> = Vec::new();
                send(&mut out, StatusMessage::SetStatus(own("Authentication cancelled")));
                send(&mut out, StatusMessage::SetProgress(0));
                send(&mut out, StatusMessage::SetProgressText(own("")));
                send(&mut out, StatusMessage::SetBusy(false));
                proof {
                    assert(status_models(out@) =~= pacman_models(*outcome));
                }
                return (out, SyncStep::Done);
            }
            (
                stage(
                    25,
                    "Pacman sync had issues, continuing...",
                    "Pacman sync had issues, continuing...",
                ),
                SyncStep::Flatpak { pacman_ok: false },
            )
        },
        PacmanOutcome::Unavailable => (
            stage(
                25,
                "Pacman sync unavailable, continuing...",
                "Pacman sync unavailable, continuing...",
            ),
            SyncStep::Flatpak { pacman_ok: false },
        ),
    }
}

/// What is shown before the work of a step.
pub open spec fn step_models(step: SyncStep) -> Seq<StatusModel> {
    match step {
        SyncStep::Pacman => seq![],
        SyncStep::Flatpak { pacman_ok: _ } => stage_messages(
            50,
            "Refreshing Flatpak metadata..."@,
            "Refreshing Flatpak metadata..."@,
        ),
        SyncStep::Reload { pacman_ok: _ } => stage_messages(
            75,
            "Reloading packages..."@,
            "Checking for updates..."@,
        ).push(StatusModel::SetLoading(true)),
        SyncStep::Done => seq![],
    }
}

/// Shows what the next step is.
pub fn begin_step(step: SyncStep) -> (out: Vec<StatusMessage>)
    ensures
        status_models(out@) == step_models(step),
{
    match step {
        SyncStep::Pacman | SyncStep::Done => {
            let out: Vec<StatusMessage> = Vec::new();
            proof {
                assert(status_models(out@) =~= seq![]);
            }
            out
        },
        SyncStep::Flatpak { pacman_ok: _ } => stage(
            50,
            "Refreshing Flatpak metadata...",
            "Refreshing Flatpak metadata...",
        ),
        SyncStep::Reload { pacman_ok: _ } => {
            let mut out = stage(75, "Reloading packages...", "Checking for updates...");
            send(&mut out, StatusMessage::SetLoading(true));
            out
        },
    }
}

/// What is shown at the end.
pub open spec fn end_models(pacman_ok: bool) -> Seq<StatusModel> {
    seq![
        StatusModel::SetProgress(100),
        StatusModel::SetProgressText("Complete"@),
        StatusModel::SetProgress(0),
        StatusModel::SetProgressText(""@),
        StatusModel::SetBusy(false),
        StatusModel::SetStatus(
            if pacman_ok {
                "Update check complete"@
            } else {
                "Update check complete (pacman sync had issues)"@
            },
        ),
    ]
}

/// Goes on when the work of a step is done. Whether Flatpak could refresh its data changes nothing.
pub fn finish_step(step: SyncStep) -> (r: (Vec<StatusMessage>, SyncStep))
    requires
        step != SyncStep::Pacman,
    ensures
        match step {
            SyncStep::Flatpak { pacman_ok } => {
                &&& status_models(r.0@) == Seq::<StatusModel>::empty()
                &&& r.1 == (SyncStep::Reload { pacman_ok })
            },
            SyncStep::Reload { pacman_ok } => {
                &&& status_models(r.0@) == end_models(pacman_ok)
                &&& r.1 == SyncStep::Done
            },
            _ => {
                &&& status_models(r.0@) == Seq::<StatusModel>::empty()
                &&& r.1 == SyncStep::Done
            },
        },
{
    let mut out: Vec<StatusMessage> = Vec::new();
    proof {
        assert(status_models(out@) =~= seq![]);
    }
    match step {
        SyncStep::Flatpak { pacman_ok } => (out, SyncStep::Reload { pacman_ok }),
        SyncStep::Reload { pacman_ok } => {
            send(&mut out, StatusMessage::SetProgress(100));
            send(&mut out, StatusMessage::SetProgressText(own("Complete")));
            send(&mut out, StatusMessage::SetProgress(0));
            send(&mut out, StatusMessage::SetProgressText(own("")));
            send(&mut out, StatusMessage::SetBusy(false));
            let status = if pacman_ok {
                own("Update check complete")
            } else {
                own("Update check complete (pacman sync had issues)")
            };
            send(&mut out, StatusMessage::SetStatus(status));
            proof {
                assert(status_models(out@) =~= end_models(pacman_ok));
            }
            (out, SyncStep::Done)
        },
        _ => (out, SyncStep::Done),
    }
}

/// Whether the window is busy after messages, where it was before.
pub open spec fn busy_after(before: bool, list: Seq<StatusModel>) -> bool
    decreases list.len(),
{
    if list.len() == 0 {
        before
    } else {
        match list.last() {
            StatusModel::SetBusy(b) => b,
            _ => busy_after(before, list.drop_last()),
        }
    }
}

/// However the search for updates ends, the window is no longer busy.
pub proof fn search_ends_idle(outcome: PacmanOutcome, pacman_ok: bool, before: bool)
    ensures
        after_pacman(outcome) == SyncStep::Done ==> !busy_after(before, pacman_models(outcome)),
        !busy_after(before, end_models(pacman_ok)),
        busy_after(before, start_models()),
{
    reveal_with_fuel(busy_after, 7);
    assert(end_models(pacman_ok).drop_last().last() == StatusModel::SetBusy(false));
    let m = pacman_models(outcome);
    if after_pacman(outcome) == SyncStep::Done {
        assert(m.last() == StatusModel::SetBusy(false));
    }
    let s = start_models();
    assert(s.drop_last().drop_last().drop_last().last() == StatusModel::SetBusy(true));
}

/// Where the user refuses to give their password, nothing more is done, whatever else went wrong;
/// where pacman fails for another reason or cannot be run, the search goes on without it.
pub proof fn refusals_end_the_search(front: Seq<char>, tail: Seq<char>, code: Option<i32>, text: String)
    requires
        text@ == front + "dismissed"@ + tail || text@ == front + "cancelled"@ + tail || code == Some(
            126i32,
        ) || code == Some(127i32),
    ensures
        after_pacman(PacmanOutcome::Finished { success: false, code, stderr: text })
            == SyncStep::Done,
        after_pacman(PacmanOutcome::Finished { success: true, code, stderr: text })
            == (SyncStep::Flatpak { pacman_ok: true }),
{
    held_within(front, "dismissed"@, tail);
    held_within(front, "cancelled"@, tail);
}

/// Another failure of pacman does not end the search, but is remembered.
pub proof fn failures_are_remembered(outcome: PacmanOutcome)
    ensures
        outcome is Unavailable ==> after_pacman(outcome) == (SyncStep::Flatpak { pacman_ok: false }),
        outcome matches PacmanOutcome::Finished { success, code, stderr } ==> !success && code != Some(
            126i32,
        ) && code != Some(127i32) && !holds(stderr@, "cancelled"@) && !holds(
            stderr@,
            "dismissed"@,
        ) ==> after_pacman(outcome) == (SyncStep::Flatpak { pacman_ok: false }),
        outcome matches PacmanOutcome::Finished { success, code, stderr } ==> success
            ==> after_pacman(outcome) == (SyncStep::Flatpak { pacman_ok: true }),
{
}

/// The progress that messages show last, where it was `before`.
pub open spec fn progress_after(before: i32, list: Seq<StatusModel>) -> i32
    decreases list.len(),
{
    if list.len() == 0 {
        before
    } else {
        match list.last() {
            StatusModel::SetProgress(n) => n,
            _ => progress_after(before, list.drop_last()),
        }
    }
}

/// The progress goes up from step to step while the search goes on, and is gone when it is over.
pub proof fn progress_goes_up(outcome: PacmanOutcome, pacman_ok: bool)
    ensures
        ({
            let first = progress_after(0, start_models());
            let second = progress_after(first, pacman_models(outcome));
            let third = progress_after(second, step_models(SyncStep::Flatpak { pacman_ok }));
            let fourth = progress_after(third, step_models(SyncStep::Reload { pacman_ok }));
            &&& 0 < first
            &&& after_pacman(outcome) != SyncStep::Done ==> first < second < third < fourth < 100
            &&& after_pacman(outcome) == SyncStep::Done ==> second == 0
            &&& progress_after(fourth, end_models(pacman_ok)) == 0
        }),
{
    reveal_with_fuel(progress_after, 7);
    let s = start_models();
    assert(s.drop_last().drop_last().last() == StatusModel::SetProgress(5));
    let m = pacman_models(outcome);
    if after_pacman(outcome) == SyncStep::Done {
        assert(m.drop_last().drop_last().last() == StatusModel::SetProgress(0));
    } else {
        assert(m.drop_last().drop_last().last() == StatusModel::SetProgress(25));
    }
    let f = step_models(SyncStep::Flatpak { pacman_ok });
    assert(f.drop_last().drop_last().last() == StatusModel::SetProgress(50));
    let r = step_models(SyncStep::Reload { pacman_ok });
    assert(r.drop_last().drop_last().drop_last().last() == StatusModel::SetProgress(75));
    let e = end_models(pacman_ok);
    assert(e.drop_last().drop_last().drop_last().last() == StatusModel::SetProgress(0));
}

} // verus!
