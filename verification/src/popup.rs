//! The window that shows the progress of an operation, and the one that asks about a conflict.
use vstd::prelude::*;

use crate::session::{closing_messages, outcome_messages, MessageModel, SessionModel,
    TerminalMessage};
use crate::text::own;

verus! {

/// A line of the log, with its level.
#[derive(Debug, Clone)]
pub struct LogLine {
    pub text: String,
    pub level: u8,
}

/// A line of the log.
pub struct LogModel {
    pub text: Seq<char>,
    pub level: u8,
}

impl View for LogLine {
    type V = LogModel;

    open spec fn view(&self) -> LogModel {
        LogModel { text: self.text@, level: self.level }
    }
}

/// The contents of a log.
pub open spec fn log_models(list: Seq<LogLine>) -> Seq<LogModel> {
    list.map_values(|l: LogLine| l@)
}

/// The progress of an operation, and a conflict that it has met.
#[derive(Debug, Clone)]
pub struct ProgressPopup {
    pub shown: bool,
    pub title: String,
    pub percent: i32,
    pub stage: String,
    pub output: String,
    pub eta: String,
    pub error_summary: String,
    pub prompt: String,
    pub show_input: bool,
    pub show_buttons: bool,
    pub show_close: bool,
    pub show_logs: bool,
    pub show_details: bool,
    pub done: bool,
    pub success: bool,
    /// There is no log before the first operation.
    pub log: Option<Vec<LogLine>>,
    pub conflict_shown: bool,
    pub conflict_summary: String,
    pub conflict_can_force: bool,
}

/// The progress of an operation, and a conflict that it has met.
pub struct PopupModel {
    pub shown: bool,
    pub title: Seq<char>,
    pub percent: i32,
    pub stage: Seq<char>,
    pub output: Seq<char>,
    pub eta: Seq<char>,
    pub error_summary: Seq<char>,
    pub prompt: Seq<char>,
    pub show_input: bool,
    pub show_buttons: bool,
    pub show_close: bool,
    pub show_logs: bool,
    pub show_details: bool,
    pub done: bool,
    pub success: bool,
    pub log: Option<Seq<LogModel>>,
    pub conflict_shown: bool,
    pub conflict_summary: Seq<char>,
    pub conflict_can_force: bool,
}

impl View for ProgressPopup {
    type V = PopupModel;

    open spec fn view(&self) -> PopupModel {
        PopupModel {
            shown: self.shown,
            title: self.title@,
            percent: self.percent,
            stage: self.stage@,
            output: self.output@,
            eta: self.eta@,
            error_summary: self.error_summary@,
            prompt: self.prompt@,
            show_input: self.show_input,
            show_buttons: self.show_buttons,
            show_close: self.show_close,
            show_logs: self.show_logs,
            show_details: self.show_details,
            done: self.done,
            success: self.success,
            log: match self.log {
                Some(list) => Some(log_models(list@)),
                None => None,
            },
            conflict_shown: self.conflict_shown,
            conflict_summary: self.conflict_summary@,
            conflict_can_force: self.conflict_can_force,
        }
    }
}

/// Before the first operation.
pub open spec fn empty_popup() -> PopupModel {
    PopupModel {
        shown: false,
        title: ""@,
        percent: 0,
        stage: ""@,
        output: ""@,
        eta: ""@,
        error_summary: ""@,
        prompt: ""@,
        show_input: false,
        show_buttons: false,
        show_close: false,
        show_logs: false,
        show_details: false,
        done: false,
        success: false,
        log: None,
        conflict_shown: false,
        conflict_summary: ""@,
        conflict_can_force: false,
    }
}

/// When an operation starts. Nothing is left of the one before it.
pub open spec fn fresh_popup(m: PopupModel, title: Seq<char>) -> PopupModel {
    PopupModel {
        shown: true,
        title,
        stage: "Starting..."@,
        log: Some(seq![]),
        conflict_shown: m.conflict_shown,
        conflict_summary: m.conflict_summary,
        conflict_can_force: m.conflict_can_force,
        ..empty_popup()
    }
}

/// When an operation is done. The log of one that has failed is opened.
pub open spec fn finished_popup(m: PopupModel, success: bool) -> PopupModel {
    PopupModel {
        percent: 100,
        done: true,
        success,
        show_input: false,
        prompt: ""@,
        show_logs: m.show_logs || !success,
        ..m
    }
}

/// After a message.
pub open spec fn popup_after(m: PopupModel, message: MessageModel) -> PopupModel {
    match message {
        MessageModel::ShowProgressPopup(title) => fresh_popup(m, title),
        MessageModel::ProgressAutoExpand => PopupModel { show_details: true, ..m },
        MessageModel::ProgressShowClose => PopupModel { show_close: true, ..m },
        MessageModel::ProgressOutput(text) => PopupModel { output: text, ..m },
        MessageModel::ProgressPrompt(prompt) => PopupModel { prompt, show_input: true, ..m },
        MessageModel::ProgressPromptButtons => PopupModel {
            show_buttons: true,
            show_input: true,
            ..m
        },
        MessageModel::ProgressLogLine(text, level) => PopupModel {
            log: match m.log {
                Some(list) => Some(list.push(LogModel { text, level })),
                None => None,
            },
            ..m
        },
        MessageModel::OperationProgress(percent, stage) => PopupModel { percent, stage, ..m },
        MessageModel::ProgressETA(eta) => PopupModel { eta, ..m },
        MessageModel::ProgressErrorSummary(error_summary) => PopupModel { error_summary, ..m },
        MessageModel::ShowConflict { summary, can_force } => PopupModel {
            shown: false,
            conflict_shown: true,
            conflict_summary: summary,
            conflict_can_force: can_force,
            ..m
        },
        MessageModel::OperationDone(success) => finished_popup(m, success),
    }
}

/// After messages.
pub open spec fn popup_after_all(m: PopupModel, list: Seq<MessageModel>) -> PopupModel
    decreases list.len(),
{
    if list.len() == 0 {
        m
    } else {
        popup_after(popup_after_all(m, list.drop_last()), list.last())
    }
}

impl ProgressPopup {
    /// Before the first operation.
    pub fn new() -> (p: ProgressPopup)
        ensures
            p@ == empty_popup(),
    {
        ProgressPopup {
            shown: false,
            title: own(""),
            percent: 0,
            stage: own(""),
            output: own(""),
            eta: own(""),
            error_summary: own(""),
            prompt: own(""),
            show_input: false,
            show_buttons: false,
            show_close: false,
            show_logs: false,
            show_details: false,
            done: false,
            success: false,
            log: None,
            conflict_shown: false,
            conflict_summary: own(""),
            conflict_can_force: false,
        }
    }

    fn start(&mut self, title: String)
        ensures
            final(self)@ == fresh_popup(old(self)@, title@),
    {
        let log: Vec<LogLine> = Vec::new();
        proof {
            assert(log_models(log@) =~= seq![]);
        }
        self.shown = true;
        self.title = title;
        self.percent = 0;
        self.stage = own("Starting...");
        self.output = own("");
        self.eta = own("");
        self.error_summary = own("");
        self.prompt = own("");
        self.show_input = false;
        self.show_buttons = false;
        self.show_close = false;
        self.show_logs = false;
        self.show_details = false;
        self.done = false;
        self.success = false;
        self.log = Some(log);
    }

    fn add_line(&mut self, text: String, level: u8)
        ensures
            final(self)@ == popup_after(old(self)@, MessageModel::ProgressLogLine(text@, level)),
    {
        let mut log: Option<Vec<LogLine>> = None;
        std::mem::swap(&mut log, &mut self.log);
        match log {
            Some(list) => {
                let mut list = list;
                let ghost before = list@;
                list.push(LogLine { text, level });
                proof {
                    assert(log_models(list@) =~= log_models(before).push(
                        LogModel { text: text@, level },
                    ));
                }
                self.log = Some(list);
            },
            None => {},
        }
    }

    fn finish(&mut self, success: bool)
        ensures
            final(self)@ == finished_popup(old(self)@, success),
    {
        self.percent = 100;
        self.done = true;
        self.success = success;
        self.show_input = false;
        self.prompt = own("");
        if !success {
            self.show_logs = true;
        }
    }

    /// Shows a message.
    pub fn apply(&mut self, message: TerminalMessage)
        ensures
            final(self)@ == popup_after(old(self)@, message@),
    {
        match message {
            TerminalMessage::ShowProgressPopup(title) => self.start(title),
            TerminalMessage::ProgressAutoExpand => {
                self.show_details = true;
            },
            TerminalMessage::ProgressShowClose => {
                self.show_close = true;
            },
            TerminalMessage::ProgressOutput(text) => {
                self.output = text;
            },
            TerminalMessage::ProgressPrompt(prompt) => {
                self.prompt = prompt;
                self.show_input = true;
            },
            TerminalMessage::ProgressPromptButtons => {
                self.show_buttons = true;
                self.show_input = true;
            },
            TerminalMessage::ProgressLogLine(text, level) => self.add_line(text, level),
            TerminalMessage::OperationProgress(percent, stage) => {
                self.percent = percent;
                self.stage = stage;
            },
            TerminalMessage::ProgressETA(eta) => {
                self.eta = eta;
            },
            TerminalMessage::ProgressErrorSummary(summary) => {
                self.error_summary = summary;
            },
            TerminalMessage::ShowConflict { summary, can_force } => {
                self.shown = false;
                self.conflict_summary = summary;
                self.conflict_can_force = can_force;
                self.conflict_shown = true;
            },
            TerminalMessage::OperationDone(success) => self.finish(success),
        }
    }

    /// Takes the question away that was asked.
    pub fn clear_prompt(&mut self)
        ensures
            final(self)@ == (PopupModel {
                show_input: false,
                show_buttons: false,
                prompt: ""@,
                ..old(self)@
            }),
    {
        self.show_input = false;
        self.show_buttons = false;
        self.prompt = own("");
    }

    /// After an answer was typed. Buttons stay.
    pub fn answered(&mut self)
        ensures
            final(self)@ == (PopupModel { show_input: false, prompt: ""@, ..old(self)@ }),
    {
        self.show_input = false;
        self.prompt = own("");
    }

    /// Puts the window away, and says whether the operation still runs and is to be stopped.
    pub fn close(&mut self) -> (running: bool)
        ensures
            running == !old(self)@.done,
            final(self)@ == (PopupModel { shown: false, show_logs: false, ..old(self)@ }),
    {
        self.shown = false;
        self.show_logs = false;
        !self.done
    }

    /// Puts the question about a conflict away.
    pub fn close_conflict(&mut self)
        ensures
            final(self)@ == (PopupModel { conflict_shown: false, ..old(self)@ }),
    {
        self.conflict_shown = false;
    }
}

/// The window of an operation shows nothing of the one before it.
pub proof fn operations_start_afresh(a: PopupModel, b: PopupModel, title: Seq<char>)
    requires
        a.conflict_shown == b.conflict_shown,
        a.conflict_summary == b.conflict_summary,
        a.conflict_can_force == b.conflict_can_force,
    ensures
        popup_after(a, MessageModel::ShowProgressPopup(title)) == popup_after(
            b,
            MessageModel::ShowProgressPopup(title),
        ),
{
}

/// An operation that is done asks nothing more, and one that has failed shows its log.
pub proof fn done_asks_nothing(m: PopupModel, success: bool)
    ensures
        ({
            let after = popup_after(m, MessageModel::OperationDone(success));
            &&& after.done && after.percent == 100
            &&& !after.show_input && after.prompt == ""@
            &&& !success ==> after.show_logs
        }),
{
}

/// The end of a command is always shown: success as success, and failure as an operation that has
/// failed, with its log, or as a question about a conflict.
pub proof fn outcome_is_shown(p: PopupModel, m: SessionModel, success: bool)
    ensures
        ({
            let after = popup_after_all(p, closing_messages(m) + outcome_messages(m, success));
            if success {
                after.done && after.success
            } else {
                ||| after.done && !after.success && after.show_logs
                ||| after.conflict_shown && !after.shown
            }
        }),
{
    let list = closing_messages(m) + outcome_messages(m, success);
    assert(list.len() > 0);
    assert(list.last() == outcome_messages(m, success).last());
}

/// Messages are shown one after the other.
pub proof fn messages_follow(m: PopupModel, a: Seq<MessageModel>, b: Seq<MessageModel>)
    ensures
        popup_after_all(m, a + b) == popup_after_all(popup_after_all(m, a), b),
    decreases b.len(),
{
    if b.len() == 0 {
        assert(a + b =~= a);
    } else {
        messages_follow(m, a, b.drop_last());
        assert((a + b).drop_last() =~= a + b.drop_last());
        assert((a + b).last() == b.last());
    }
}

/// Whether nothing but the progress differs.
pub open spec fn same_but_progress(a: PopupModel, b: PopupModel) -> bool {
    a == (PopupModel { percent: a.percent, stage: a.stage, ..b })
}

/// Progress is shown as it is reported; a line of the log is added behind the others; a question is
/// shown with a field for the answer; the end is shown with its outcome; a conflict takes the place of
/// the progress.
pub proof fn messages_are_shown(m: PopupModel, n: i32, s: Seq<char>, level: u8, b: bool)
    ensures
        ({
            let p = popup_after(m, MessageModel::OperationProgress(n, s));
            p.percent == n && p.stage == s && same_but_progress(p, m)
        }),
        m.log is Some ==> popup_after(m, MessageModel::ProgressLogLine(s, level)).log == Some(
            m.log->0.push(LogModel { text: s, level }),
        ),
        ({
            let p = popup_after(m, MessageModel::ProgressPrompt(s));
            p.prompt == s && p.show_input && p.percent == m.percent && p.log == m.log
        }),
        ({
            let p = popup_after(m, MessageModel::OperationDone(b));
            p.done && p.success == b && p.percent == 100 && !p.show_input && (!b ==> p.show_logs)
                && p.log == m.log
        }),
        ({
            let p = popup_after(
                m,
                MessageModel::ShowConflict { summary: s, can_force: b },
            );
            !p.shown && p.conflict_shown && p.conflict_summary == s && p.conflict_can_force == b
        }),
        popup_after(m, MessageModel::ProgressOutput(s)).output == s,
        popup_after(m, MessageModel::ProgressErrorSummary(s)).error_summary == s,
        popup_after(m, MessageModel::ProgressETA(s)).eta == s,
        popup_after(m, MessageModel::ProgressPromptButtons).show_buttons,
        popup_after(m, MessageModel::ProgressAutoExpand).show_details,
        popup_after(m, MessageModel::ProgressShowClose).show_close,
        ({
            let p = popup_after(m, MessageModel::ShowProgressPopup(s));
            p.shown && p.title == s && p.percent == 0 && !p.done && !p.show_input && p.log == Some(
                Seq::<LogModel>::empty(),
            )
        }),
{
}

/// A conflict that is shown stays so when another operation starts.
pub proof fn conflicts_stay_shown(m: PopupModel, title: Seq<char>)
    ensures
        popup_after(m, MessageModel::ShowProgressPopup(title)).conflict_shown == m.conflict_shown,
        popup_after(m, MessageModel::ShowProgressPopup(title)).conflict_summary
            == m.conflict_summary,
        popup_after(m, MessageModel::ShowProgressPopup(title)).conflict_can_force
            == m.conflict_can_force,
{
}

} // verus!
