//! What the output of a running command means: prompts, log lines, progress and conflicts.
use vstd::prelude::*;
use vstd::slice::slice_subrange;
use vstd::utf8::encode_utf8;

use crate::float::{exceeds_one, float_div, float_floor, float_mul, float_of, nothing_has_no_share,
    seconds, seconds_of, share_never_goes_down, share_of, whole_has_the_span, DOUBLE, Float,
    SINGLE};
use crate::number::{decimal, decimal_is_one_word, decimal_parses, decimal_reads_back, decimal_text,
    parse_i32, parsed_i32};
use crate::screen::{applied, apply_terminal_text, keep_lines, last_lines, last_lines_count,
    line_count, plain, strip_ansi};
use crate::text::{filled, find_char, from_chars, has_word, holds, index_of, join_texts, joined,
    last_piece, lines, lines_of, lowered, opt_text, other_than, own, pieces, pieces_follow,
    run_len_is, split_char, split_on, texts, to_chars, to_lower, trim, trimmed,
    trimming_takes_outer_space};
use crate::xml::{lossy, lossy_text};

verus! {

// ---------------------------------------------------------------------------
// Messages

/// What is to be shown while a command runs.
#[derive(Debug, Clone)]
pub enum TerminalMessage {
    ShowProgressPopup(String),
    ProgressAutoExpand,
    ProgressShowClose,
    ProgressOutput(String),
    ProgressPrompt(String),
    ProgressPromptButtons,
    ProgressLogLine(String, u8),
    OperationProgress(i32, String),
    ProgressETA(String),
    ProgressErrorSummary(String),
    ShowConflict { summary: String, can_force: bool },
    OperationDone(bool),
}

/// The contents of a message.
pub enum MessageModel {
    ShowProgressPopup(Seq<char>),
    ProgressAutoExpand,
    ProgressShowClose,
    ProgressOutput(Seq<char>),
    ProgressPrompt(Seq<char>),
    ProgressPromptButtons,
    ProgressLogLine(Seq<char>, u8),
    OperationProgress(i32, Seq<char>),
    ProgressETA(Seq<char>),
    ProgressErrorSummary(Seq<char>),
    ShowConflict { summary: Seq<char>, can_force: bool },
    OperationDone(bool),
}

impl View for TerminalMessage {
    type V = MessageModel;

    open spec fn view(&self) -> MessageModel {
        match *self {
            TerminalMessage::ShowProgressPopup(s) => MessageModel::ShowProgressPopup(s@),
            TerminalMessage::ProgressAutoExpand => MessageModel::ProgressAutoExpand,
            TerminalMessage::ProgressShowClose => MessageModel::ProgressShowClose,
            TerminalMessage::ProgressOutput(s) => MessageModel::ProgressOutput(s@),
            TerminalMessage::ProgressPrompt(s) => MessageModel::ProgressPrompt(s@),
            TerminalMessage::ProgressPromptButtons => MessageModel::ProgressPromptButtons,
            TerminalMessage::ProgressLogLine(s, n) => MessageModel::ProgressLogLine(s@, n),
            TerminalMessage::OperationProgress(n, s) => MessageModel::OperationProgress(n, s@),
            TerminalMessage::ProgressETA(s) => MessageModel::ProgressETA(s@),
            TerminalMessage::ProgressErrorSummary(s) => MessageModel::ProgressErrorSummary(s@),
            TerminalMessage::ShowConflict { summary, can_force } => MessageModel::ShowConflict {
                summary: summary@,
                can_force,
            },
            TerminalMessage::OperationDone(b) => MessageModel::OperationDone(b),
        }
    }
}

/// The contents of a list of messages.
pub open spec fn message_models(list: Seq<TerminalMessage>) -> Seq<MessageModel> {
    list.map_values(|m: TerminalMessage| m@)
}

fn send(out: &mut Vec<TerminalMessage>, message: TerminalMessage)
    ensures
        message_models(final(out)@) == message_models(old(out)@).push(message@),
{
    let ghost before = out@;
    out.push(message);
    proof {
        assert(message_models(out@) =~= message_models(before).push(message@));
    }
}

// ---------------------------------------------------------------------------
// Prompts

/// Whether output asks the user something other than yes or no.
pub open spec fn asks_user(s: Seq<char>) -> bool {
    ||| holds(s, "Proceed with installation? [Y/n]"@)
    ||| holds(s, "Proceed with download? [Y/n]"@)
    ||| holds(s, ":: Proceed with installation? [Y/n]"@)
    ||| holds(s, ":: Proceed with download? [Y/n]"@)
    ||| holds(s, "Do you want to remove these packages? [y/N]"@)
    ||| holds(s, ":: Do you want to remove these packages? [y/N]"@)
    ||| holds(s, ":: Replace"@)
    ||| holds(s, ":: Import"@)
    ||| holds(s, "Enter a number"@)
    ||| holds(s, "Enter number to select"@)
    ||| holds(s, "Enter a selection"@)
    ||| holds(s, "Terminate batch job"@)
}

/// Whether output asks a yes-or-no question.
pub open spec fn asks_yes_no(s: Seq<char>) -> bool {
    holds(s, "[Y/n]"@) || holds(s, "[y/n]"@) || holds(s, "[y/N]"@)
}

/// The last line of `list` with more than white space.
pub open spec fn last_filled(list: Seq<Seq<char>>) -> Option<Seq<char>>
    decreases list.len(),
{
    if list.len() == 0 {
        None
    } else if trimmed(list.last()).len() > 0 {
        Some(list.last())
    } else {
        last_filled(list.drop_last())
    }
}

/// The question that output asks: its last line that is not blank.
pub open spec fn question_of(s: Seq<char>) -> Seq<char> {
    match last_filled(lines_of(s)) {
        Some(line) => trimmed(line),
        None => trimmed(s),
    }
}

/// The messages for a prompt in the output. A yes-or-no question gets buttons, unless input is
/// always typed; any other question gets a text field.
pub open spec fn prompt_messages(s: Seq<char>, always_input: bool) -> Seq<MessageModel> {
    if asks_yes_no(s) && !always_input {
        seq![
            MessageModel::ProgressPromptButtons,
            MessageModel::ProgressPrompt("Proceed with transaction?"@),
        ]
    } else if asks_user(s) || asks_yes_no(s) {
        seq![MessageModel::ProgressPrompt(question_of(s)), MessageModel::ProgressAutoExpand]
    } else {
        seq![]
    }
}

fn user_asked(s: &[char]) -> (r: bool)
    ensures
        r == asks_user(s@),
{
    has_word(s, "Proceed with installation? [Y/n]") || has_word(s, "Proceed with download? [Y/n]")
        || has_word(s, ":: Proceed with installation? [Y/n]") || has_word(
        s,
        ":: Proceed with download? [Y/n]",
    ) || has_word(s, "Do you want to remove these packages? [y/N]") || has_word(
        s,
        ":: Do you want to remove these packages? [y/N]",
    ) || has_word(s, ":: Replace") || has_word(s, ":: Import") || has_word(s, "Enter a number")
        || has_word(s, "Enter number to select") || has_word(s, "Enter a selection") || has_word(
        s,
        "Terminate batch job",
    )
}

fn question(s: &[char]) -> (out: String)
    ensures
        out@ == question_of(s@),
{
    let list = lines(s);
    let ghost all = pieces(list@);
    let mut k: usize = list.len();
    proof {
        assert(all.take(k as int) =~= all);
    }
    while k > 0
        invariant
            k <= list@.len(),
            all == pieces(list@),
            all == lines_of(s@),
            last_filled(all) == last_filled(all.take(k as int)),
        decreases k,
    {
        proof {
            assert(all.take(k as int).last() == list@[k - 1]@);
            assert(all.take(k as int).drop_last() =~= all.take(k - 1));
        }
        let t = trim(list[k - 1].as_slice());
        if t.len() > 0 {
            return from_chars(t);
        }
        k = k - 1;
    }
    from_chars(trim(s))
}

fn prompt(s: &[char], always_input: bool, out: &mut Vec<TerminalMessage>) -> (asked: bool)
    ensures
        message_models(final(out)@) == message_models(old(out)@) + prompt_messages(
            s@,
            always_input,
        ),
        asked == (asks_user(s@) || asks_yes_no(s@)),
{
    let ghost before = message_models(out@);
    let yes_no = has_word(s, "[Y/n]") || has_word(s, "[y/n]") || has_word(s, "[y/N]");
    if yes_no && !always_input {
        send(out, TerminalMessage::ProgressPromptButtons);
        send(out, TerminalMessage::ProgressPrompt(own("Proceed with transaction?")));
        proof {
            assert(message_models(out@) =~= before + prompt_messages(s@, always_input));
        }
        true
    } else if yes_no || user_asked(s) {
        send(out, TerminalMessage::ProgressPrompt(question(s)));
        send(out, TerminalMessage::ProgressAutoExpand);
        proof {
            assert(message_models(out@) =~= before + prompt_messages(s@, always_input));
        }
        true
    } else {
        proof {
            assert(message_models(out@) =~= before + prompt_messages(s@, always_input));
        }
        false
    }
}

// ---------------------------------------------------------------------------
// Progress

/// The distance of a number from zero.
pub open spec fn magnitude(n: i32) -> nat {
    if n < 0 {
        (-n) as nat
    } else {
        n as nat
    }
}

fn magnitude_of(n: i32) -> (m: u64)
    ensures
        m == magnitude(n),
        m <= 0x8000_0000,
{
    if n < 0 {
        (0 - n as i64) as u64
    } else {
        n as u64
    }
}

/// The point of a range that `current / total` of it reaches: the share is computed in double
/// precision and cut towards zero.
pub open spec fn point_in_range(start: i32, end: i32, current: i32, total: i32) -> i32 {
    let span = end.wrapping_sub(start);
    let share = float_floor(
        float_mul(
            float_of(magnitude(span), 53),
            float_div(float_of(magnitude(current), 53), float_of(total as nat, 53), 53),
            53,
        ),
    );
    start.wrapping_add(
        if (span < 0) != (current < 0) {
            if share > 0x8000_0000 {
                i32::MIN
            } else {
                (-share) as i32
            }
        } else if share > 0x7fff_ffff {
            i32::MAX
        } else {
            share as i32
        },
    )
}

/// The progress that a counter such as `(3/12)` in a line stands for, within a range.
pub open spec fn progress_fraction(line: Seq<char>, start: i32, end: i32) -> Option<i32> {
    let a = index_of(line, '(') as int;
    let b = a + index_of(line.skip(a), ')');
    if a < line.len() && b < line.len() {
        let parts = split_on(line.subrange(a + 1, b), '/');
        if parts.len() == 2 {
            match (parsed_i32(trimmed(parts[0])), parsed_i32(trimmed(parts[1]))) {
                (Some(current), Some(total)) => if total > 0 {
                    Some(point_in_range(start, end, current, total))
                } else {
                    None
                },
                _ => None,
            }
        } else {
            None
        }
    } else {
        None
    }
}

fn range_point(start: i32, end: i32, current: i32, total: i32) -> (p: i32)
    requires
        total > 0,
    ensures
        p == point_in_range(start, end, current, total),
{
    let span: i32 = end.wrapping_sub(start);
    let a = Float::from_u64(magnitude_of(current), DOUBLE);
    let b = Float::from_u64(total as u64, DOUBLE);
    let c = Float::from_u64(magnitude_of(span), DOUBLE);
    let q = a.div(b, DOUBLE);
    let share: u64 = c.times(q, DOUBLE).to_u64();
    let moved: i32 = if (span < 0) != (current < 0) {
        if share > 0x8000_0000 {
            i32::MIN
        } else {
            (0 - share as i64) as i32
        }
    } else if share > 0x7fff_ffff {
        i32::MAX
    } else {
        share as i32
    };
    start.wrapping_add(moved)
}

/// The progress that a counter such as `(3/12)` in a line stands for, within a range.
pub fn parse_progress_fraction(line: &str, range_start: i32, range_end: i32) -> (r: Option<i32>)
    ensures
        r == progress_fraction(line@, range_start, range_end),
{
    let chars = to_chars(line);
    let s = chars.as_slice();
    let a = find_char(s, 0, '(');
    proof {
        assert(s@.skip(0) =~= s@);
    }
    if a == s.len() {
        return None;
    }
    let b = find_char(s, a, ')');
    if b == s.len() {
        return None;
    }
    proof {
        assert(b > a);
    }
    let inner = slice_subrange(s, a + 1, b);
    let parts = split_char(inner, '/');
    let ghost all = pieces(parts@);
    if parts.len() != 2 {
        return None;
    }
    proof {
        assert(all[0] == parts@[0]@ && all[1] == parts@[1]@);
    }
    let current = parse_i32(trim(parts[0].as_slice()));
    let total = parse_i32(trim(parts[1].as_slice()));
    match (current, total) {
        (Some(c), Some(t)) => {
            if t > 0 {
                Some(range_point(range_start, range_end, c, t))
            } else {
                None
            }
        },
        _ => None,
    }
}

/// The stage of an operation that a line announces, and how far the operation has come.
pub open spec fn stage_of(line: Seq<char>, lower: Seq<char>) -> Option<(Seq<char>, i32)> {
    if holds(lower, "resolving dependencies"@) {
        Some(("Resolving dependencies..."@, 10))
    } else if holds(lower, "looking for conflicting"@) {
        Some(("Checking for conflicts..."@, 15))
    } else if holds(lower, "downloading"@) {
        Some(("Downloading packages..."@, fraction_or(line, 20, 50, 35)))
    } else if holds(lower, "checking keyring"@) {
        Some(("Verifying signatures..."@, 52))
    } else if holds(lower, "checking integrity"@) {
        Some(("Verifying signatures..."@, 53))
    } else if holds(lower, "checking package integrity"@) {
        Some(("Verifying signatures..."@, 55))
    } else if holds(lower, "loading package files"@) {
        Some(("Loading package files..."@, 58))
    } else if holds(lower, "installing"@) || holds(lower, "upgrading"@) {
        Some(("Installing packages..."@, fraction_or(line, 60, 85, 72)))
    } else if holds(lower, "removing"@) || holds(lower, "reinstalling"@) {
        Some(("Removing packages..."@, fraction_or(line, 60, 85, 72)))
    } else if holds(lower, "running post-transaction hooks"@) {
        Some(("Running post-install hooks..."@, 88))
    } else if holds(lower, "arming conditionpathexists"@) || holds(lower, "updating linux module"@)
        || holds(lower, "dkms"@) {
        Some(("Running post-install hooks..."@, 90))
    } else if holds(lower, "updating linux initcpios"@) || holds(lower, "mkinitcpio"@) {
        Some(("Rebuilding initramfs..."@, 92))
    } else if holds(lower, "updating grub"@) || holds(lower, "grub-mkconfig"@) || holds(lower, "grub"@) {
        Some(("Updating bootloader..."@, 95))
    } else if holds(lower, "updating the desktop"@) || holds(lower, "updating mime"@) || holds(
        lower,
        "updating the info"@,
    ) {
        Some(("Updating system databases..."@, 97))
    } else {
        None
    }
}

/// The progress of a counter in a line, or a fixed one where the line has none.
pub open spec fn fraction_or(line: Seq<char>, start: i32, end: i32, default: i32) -> i32 {
    match progress_fraction(line, start, end) {
        Some(p) => p,
        None => default,
    }
}

fn counted(line: &str, start: i32, end: i32, default: i32) -> (p: i32)
    ensures
        p == fraction_or(line@, start, end, default),
{
    match parse_progress_fraction(line, start, end) {
        Some(p) => p,
        None => default,
    }
}

fn stage(line: &str, lower: &[char]) -> (r: Option<(String, i32)>)
    ensures
        match r {
            Some((label, percent)) => stage_of(line@, lower@) == Some((label@, percent)),
            None => stage_of(line@, lower@) is None,
        },
{
    if has_word(lower, "resolving dependencies") {
        Some((own("Resolving dependencies..."), 10))
    } else if has_word(lower, "looking for conflicting") {
        Some((own("Checking for conflicts..."), 15))
    } else if has_word(lower, "downloading") {
        Some((own("Downloading packages..."), counted(line, 20, 50, 35)))
    } else if has_word(lower, "checking keyring") {
        Some((own("Verifying signatures..."), 52))
    } else if has_word(lower, "checking integrity") {
        Some((own("Verifying signatures..."), 53))
    } else if has_word(lower, "checking package integrity") {
        Some((own("Verifying signatures..."), 55))
    } else if has_word(lower, "loading package files") {
        Some((own("Loading package files..."), 58))
    } else if has_word(lower, "installing") || has_word(lower, "upgrading") {
        Some((own("Installing packages..."), counted(line, 60, 85, 72)))
    } else if has_word(lower, "removing") || has_word(lower, "reinstalling") {
        Some((own("Removing packages..."), counted(line, 60, 85, 72)))
    } else if has_word(lower, "running post-transaction hooks") {
        Some((own("Running post-install hooks..."), 88))
    } else if has_word(lower, "arming conditionpathexists") || has_word(
        lower,
        "updating linux module",
    ) || has_word(lower, "dkms") {
        Some((own("Running post-install hooks..."), 90))
    } else if has_word(lower, "updating linux initcpios") || has_word(lower, "mkinitcpio") {
        Some((own("Rebuilding initramfs..."), 92))
    } else if has_word(lower, "updating grub") || has_word(lower, "grub-mkconfig") || has_word(
        lower,
        "grub",
    ) {
        Some((own("Updating bootloader..."), 95))
    } else if has_word(lower, "updating the desktop") || has_word(lower, "updating mime")
        || has_word(lower, "updating the info") {
        Some((own("Updating system databases..."), 97))
    } else {
        None
    }
}

/// A number of seconds that fits into 32 bits.
pub open spec fn at_most_u32(n: nat) -> nat {
    if n > u32::MAX {
        u32::MAX as nat
    } else {
        n
    }
}

/// The time that an operation will still take, in single precision: none is given during the first
/// second and up to five percent.
pub open spec fn eta_of(percent: i32, elapsed: nat) -> Option<Seq<char>> {
    let x = seconds_of(elapsed, 24);
    if percent <= 5 || !exceeds_one(x) {
        None
    } else if percent > 100 {
        Some("~"@ + decimal(0) + "s"@)
    } else {
        let rate = float_div(float_of(percent as nat, 24), x, 24);
        let left = float_div(float_of((100 - percent) as nat, 24), rate, 24);
        let secs = at_most_u32(float_floor(left));
        if float_floor(left) < 60 {
            Some("~"@ + decimal(secs) + "s"@)
        } else {
            let mins = at_most_u32(float_floor(float_div(left, float_of(60, 24), 24)));
            Some("~"@ + decimal(mins) + "m "@ + decimal(secs % 60) + "s"@)
        }
    }
}

fn cap_u32(n: u64) -> (m: u64)
    ensures
        m == at_most_u32(n as nat),
{
    if n > u32::MAX as u64 {
        u32::MAX as u64
    } else {
        n
    }
}

/// The time that an operation will still take after `elapsed` nanoseconds.
pub fn eta_text(percent: i32, elapsed: u64) -> (r: Option<String>)
    ensures
        match r {
            Some(s) => eta_of(percent, elapsed as nat) == Some(s@),
            None => eta_of(percent, elapsed as nat) is None,
        },
{
    let x = seconds(elapsed, SINGLE);
    if percent <= 5 || !x.above_one() {
        return None;
    }
    let mut out = own("~");
    if percent > 100 {
        out.append(decimal_text(0).as_str());
        out.append("s");
        return Some(out);
    }
    proof {
        positive_above_one(x);
    }
    let rate = Float::from_u64(percent as u64, SINGLE).div(x, SINGLE);
    let left = Float::from_u64((100 - percent) as u64, SINGLE).div(rate, SINGLE);
    let whole: u64 = left.to_u64();
    let secs: u64 = cap_u32(whole);
    if whole < 60 {
        out.append(decimal_text(secs).as_str());
        out.append("s");
    } else {
        let sixty = Float::from_u64(60, SINGLE);
        let mins: u64 = cap_u32(left.div(sixty, SINGLE).to_u64());
        out.append(decimal_text(mins).as_str());
        out.append("m ");
        out.append(decimal_text(secs % 60).as_str());
        out.append("s");
    }
    Some(out)
}

proof fn positive_above_one(x: Float)
    requires
        exceeds_one(x@),
    ensures
        x.mant > 0,
{
    if x.mant == 0 && x.exp >= 0 {
        let p = vstd::arithmetic::power2::pow2(x.exp as nat);
        assert(0 * p == 0) by (nonlinear_arith);
    }
}

// ---------------------------------------------------------------------------
// Lines

/// How a line is marked in the log: 1 for an error, 2 for a warning, 3 for a package that has been
/// dealt with, 0 for anything else.
pub open spec fn level_of(lower: Seq<char>) -> u8 {
    if holds(lower, "error:"@) {
        1
    } else if holds(lower, "warning:"@) {
        2
    } else if holds(lower, "installed"@) || holds(lower, "upgraded"@) || holds(lower, "removed"@) {
        3
    } else {
        0
    }
}

/// What of a line is visible in the end: the part after its last carriage return.
pub open spec fn visible(line: Seq<char>) -> Seq<char> {
    split_on(line, '\r').last()
}

/// The stage that a line announces; a blank line announces none.
pub open spec fn line_stage(line: Seq<char>) -> Option<(Seq<char>, i32)> {
    if trimmed(visible(line)).len() == 0 {
        None
    } else {
        stage_of(line, lowered(visible(line)))
    }
}

/// The progress after a line. It never goes back.
pub open spec fn percent_after(line: Seq<char>, percent: i32) -> i32 {
    match line_stage(line) {
        Some((_, p)) => if p > percent {
            p
        } else {
            percent
        },
        None => percent,
    }
}

/// The error that a line reports.
pub open spec fn error_in(line: Seq<char>) -> Option<Seq<char>> {
    let t = trimmed(visible(line));
    if t.len() > 0 && level_of(lowered(visible(line))) == 1 {
        Some(t)
    } else {
        None
    }
}

/// The messages for the progress that a line reports.
pub open spec fn stage_messages(line: Seq<char>, percent: i32, elapsed: nat) -> Seq<MessageModel> {
    match line_stage(line) {
        Some((label, p)) => if p > percent {
            match eta_of(p, elapsed) {
                Some(eta) => seq![
                    MessageModel::OperationProgress(p, label),
                    MessageModel::ProgressETA(eta),
                ],
                None => seq![MessageModel::OperationProgress(p, label)],
            }
        } else if p == percent && percent >= 88 {
            seq![MessageModel::OperationProgress(p, label)]
        } else {
            seq![]
        },
        None => seq![],
    }
}

/// The messages for a line.
pub open spec fn line_messages(line: Seq<char>, percent: i32, elapsed: nat) -> Seq<MessageModel> {
    let t = trimmed(visible(line));
    if t.len() == 0 {
        seq![]
    } else {
        seq![MessageModel::ProgressLogLine(t, level_of(lowered(visible(line))))] + stage_messages(
            line,
            percent,
            elapsed,
        )
    }
}

/// The messages for a list of lines.
pub open spec fn lines_messages(
    list: Seq<Seq<char>>,
    percent: i32,
    elapsed: nat,
) -> Seq<MessageModel>
    decreases list.len(),
{
    if list.len() == 0 {
        seq![]
    } else {
        line_messages(list[0], percent, elapsed) + lines_messages(
            list.skip(1),
            percent_after(list[0], percent),
            elapsed,
        )
    }
}

/// The progress after a list of lines.
pub open spec fn percent_after_lines(list: Seq<Seq<char>>, percent: i32) -> i32
    decreases list.len(),
{
    if list.len() == 0 {
        percent
    } else {
        percent_after_lines(list.skip(1), percent_after(list[0], percent))
    }
}

/// The first error, once there is one.
pub open spec fn first_error(list: Seq<Seq<char>>, known: Option<Seq<char>>) -> Option<Seq<char>>
    decreases list.len(),
{
    if list.len() == 0 || known is Some {
        known
    } else {
        first_error(list.skip(1), error_in(list[0]))
    }
}

fn level(lower: &[char]) -> (n: u8)
    ensures
        n == level_of(lower@),
{
    if has_word(lower, "error:") {
        1
    } else if has_word(lower, "warning:") {
        2
    } else if has_word(lower, "installed") || has_word(lower, "upgraded") || has_word(
        lower,
        "removed",
    ) {
        3
    } else {
        0
    }
}

/// Takes in one line: sends its messages, and gives the new progress and the error in it.
fn take_line(line: &[char], percent: i32, elapsed: u64, out: &mut Vec<TerminalMessage>) -> (r: (
    i32,
    Option<String>,
))
    ensures
        message_models(final(out)@) == message_models(old(out)@) + line_messages(
            line@,
            percent,
            elapsed as nat,
        ),
        r.0 == percent_after(line@, percent),
        opt_text(r.1) == error_in(line@),
{
    let ghost before = message_models(out@);
    let parts = split_char(line, '\r');
    proof {
        assert(pieces(parts@).last() == parts@.last()@);
    }
    let shown = parts[parts.len() - 1].as_slice();
    let t = trim(shown);
    if t.len() == 0 {
        proof {
            assert(message_models(out@) =~= before + line_messages(line@, percent, elapsed as nat));
        }
        return (percent, None);
    }
    let shown_text = from_chars(shown);
    let lower = to_lower(shown_text.as_str());
    let lower_chars = to_chars(lower.as_str());
    let n = level(lower_chars.as_slice());
    let error = if n == 1 {
        Some(from_chars(t))
    } else {
        None
    };
    send(out, TerminalMessage::ProgressLogLine(from_chars(t), n));
    let text = from_chars(line);
    let mut now: i32 = percent;
    if let Some((label, p)) = stage(text.as_str(), lower_chars.as_slice()) {
        if p > percent {
            now = p;
            send(out, TerminalMessage::OperationProgress(p, label));
            if let Some(eta) = eta_text(p, elapsed) {
                send(out, TerminalMessage::ProgressETA(eta));
            }
        } else if p == percent && percent >= 88 {
            send(out, TerminalMessage::OperationProgress(p, label));
        }
    }
    proof {
        assert(message_models(out@) =~= before + line_messages(line@, percent, elapsed as nat));
    }
    (now, error)
}

/// Takes in a list of lines.
fn take_lines(
    list: &Vec<Vec<char>>,
    percent: i32,
    known: Option<String>,
    elapsed: u64,
    out: &mut Vec<TerminalMessage>,
) -> (r: (i32, Option<String>))
    ensures
        message_models(final(out)@) == message_models(old(out)@) + lines_messages(
            pieces(list@),
            percent,
            elapsed as nat,
        ),
        r.0 == percent_after_lines(pieces(list@), percent),
        opt_text(r.1) == first_error(pieces(list@), opt_text(known)),
{
    let ghost all = pieces(list@);
    let ghost before = message_models(out@);
    let ghost want = before + lines_messages(all, percent, elapsed as nat);
    let ghost error = first_error(all, opt_text(known));
    let mut now: i32 = percent;
    let mut found = known;
    proof {
        assert(all.skip(0) =~= all);
    }
    for i in 0..list.len()
        invariant
            all == pieces(list@),
            message_models(out@) + lines_messages(all.skip(i as int), now, elapsed as nat) == want,
            percent_after_lines(all.skip(i as int), now) == percent_after_lines(all, percent),
            first_error(all.skip(i as int), opt_text(found)) == error,
    {
        let ghost rest = all.skip(i as int);
        let ghost sent = message_models(out@);
        let ghost was = now;
        proof {
            assert(rest[0] == list@[i as int]@);
            assert(rest.skip(1) =~= all.skip(i + 1));
        }
        let (p, e) = take_line(list[i].as_slice(), now, elapsed, out);
        now = p;
        if found.is_none() {
            found = e;
        }
        proof {
            assert(message_models(out@) + lines_messages(rest.skip(1), now, elapsed as nat) =~= sent
                + lines_messages(rest, was, elapsed as nat));
            first_error_known(rest.skip(1), opt_text(found));
            first_error_known(rest, opt_text(found));
        }
    }
    proof {
        assert(all.skip(all.len() as int) =~= Seq::<Seq<char>>::empty());
        assert(message_models(out@) + lines_messages(
            all.skip(all.len() as int),
            now,
            elapsed as nat,
        ) =~= message_models(out@));
    }
    (now, found)
}

proof fn first_error_known(list: Seq<Seq<char>>, known: Option<Seq<char>>)
    ensures
        known is Some ==> first_error(list, known) == known,
{
}

// ---------------------------------------------------------------------------
// Conflicts

/// Whether output speaks of a conflict.
pub open spec fn reports_conflict(lower: Seq<char>) -> bool {
    ||| holds(lower, "conflicting files"@)
    ||| holds(lower, "are in conflict"@)
    ||| holds(lower, "exists in filesystem"@)
    ||| holds(lower, "breaks dependency"@)
    ||| holds(lower, "could not satisfy dependencies"@)
    ||| holds(lower, "failed to commit transaction"@)
}

fn conflict_reported(lower: &[char]) -> (r: bool)
    ensures
        r == reports_conflict(lower@),
{
    has_word(lower, "conflicting files") || has_word(lower, "are in conflict") || has_word(
        lower,
        "exists in filesystem",
    ) || has_word(lower, "breaks dependency") || has_word(lower, "could not satisfy dependencies")
        || has_word(lower, "failed to commit transaction")
}

/// Whether a line belongs to the summary of a conflict.
pub open spec fn explains_conflict(line: Seq<char>) -> bool {
    let lower = lowered(line);
    trimmed(line).len() > 0 && {
        ||| holds(lower, "error:"@)
        ||| holds(lower, "warning:"@)
        ||| holds(lower, "exists in filesystem"@)
        ||| holds(lower, "are in conflict"@)
        ||| holds(lower, "breaks dependency"@)
        ||| holds(lower, "could not satisfy"@)
        ||| holds(lower, "conflicting files"@)
        ||| holds(lower, "conflicting dependencies"@)
    }
}

/// Whether a line says that files of a package exist already.
pub open spec fn is_file_conflict(line: Seq<char>) -> bool {
    holds(lowered(line), "exists in filesystem"@) || holds(lowered(line), "conflicting files"@)
}

/// The lines that explain a conflict, without the white space around them.
pub open spec fn conflict_lines(output: Seq<char>) -> Seq<Seq<char>> {
    lines_of(output).filter(|l: Seq<char>| explains_conflict(l)).map_values(
        |l: Seq<char>| trimmed(l),
    )
}

/// The summary of a conflict.
pub open spec fn conflict_summary(output: Seq<char>) -> Seq<char> {
    if conflict_lines(output).len() == 0 {
        "A conflict was detected. See the operation log for details."@
    } else {
        joined(conflict_lines(output), "\n"@)
    }
}

/// Whether overwriting files can resolve a conflict.
pub open spec fn can_overwrite(output: Seq<char>) -> bool {
    exists|i: int|
        0 <= i < lines_of(output).len() && is_file_conflict(#[trigger] lines_of(output)[i])
}

/// The summary of a conflict, and whether overwriting files can resolve it.
pub fn parse_conflict_summary(output: &str) -> (r: (String, bool))
    ensures
        r.0@ == conflict_summary(output@),
        r.1 == can_overwrite(output@),
{
    let chars = to_chars(output);
    let list = lines(chars.as_slice());
    let ghost all = pieces(list@);
    let ghost keep = |l: Seq<char>| explains_conflict(l);
    let ghost cut = |l: Seq<char>| trimmed(l);
    let mut found: Vec<String> = Vec::new();
    let mut file_conflict = false;
    proof {
        assert(texts(found@) =~= all.take(0).filter(keep).map_values(cut)) by {
            reveal(Seq::filter);
        }
    }
    for i in 0..list.len()
        invariant
            all == pieces(list@),
            keep == (|l: Seq<char>| explains_conflict(l)),
            cut == (|l: Seq<char>| trimmed(l)),
            texts(found@) == all.take(i as int).filter(keep).map_values(cut),
            file_conflict == exists|j: int| 0 <= j < i && is_file_conflict(#[trigger] all[j]),
    {
        let line = list[i].as_slice();
        let ghost was = file_conflict;
        proof {
            assert(all[i as int] == line@);
            assert(all.take(i + 1) =~= all.take(i as int).push(line@));
            all.take(i as int).lemma_filter_push(line@, keep);
        }
        let text = from_chars(line);
        let lower = to_lower(text.as_str());
        let lower_chars = to_chars(lower.as_str());
        let l = lower_chars.as_slice();
        let exists_in = has_word(l, "exists in filesystem");
        let files = has_word(l, "conflicting files");
        if exists_in || files {
            file_conflict = true;
        }
        let ghost before = found@;
        if has_word(l, "error:") || has_word(l, "warning:") || exists_in || has_word(
            l,
            "are in conflict",
        ) || has_word(l, "breaks dependency") || has_word(l, "could not satisfy") || files
            || has_word(l, "conflicting dependencies") {
            let t = trim(line);
            if t.len() > 0 {
                found.push(from_chars(t));
            }
        }
        proof {
            if keep(line@) {
                assert(texts(found@) =~= texts(before).push(trimmed(line@)));
                assert(all.take(i as int).filter(keep).push(line@).map_values(cut) =~= all.take(
                    i as int,
                ).filter(keep).map_values(cut).push(cut(line@)));
            }
            assert(is_file_conflict(line@) == (exists_in || files));
            if was {
                let j = choose|j: int| 0 <= j < i && is_file_conflict(#[trigger] all[j]);
                assert(is_file_conflict(all[j]));
            }
            if is_file_conflict(all[i as int]) {
                assert(file_conflict);
            }
        }
    }
    proof {
        assert(all.take(all.len() as int) =~= all);
        assert(texts(found@) == conflict_lines(output@));
    }
    let summary = if found.len() == 0 {
        own("A conflict was detected. See the operation log for details.")
    } else {
        join_texts(found.as_slice(), "\n")
    };
    (summary, file_conflict)
}

// ---------------------------------------------------------------------------
// A running command

/// What is known of a running command from its output. Times are nanoseconds since its start.
#[derive(Debug)]
pub struct Session {
    /// Whether the command changes packages, so that conflicts are looked for.
    pub managed: bool,
    /// Whether every question gets a text field.
    pub always_input: bool,
    /// What the terminal shows.
    pub pending: String,
    pub percent: i32,
    pub first_error: Option<String>,
    pub escalated: bool,
    /// The beginning of the output.
    pub log: String,
    /// When the terminal was last sent, if it was.
    pub last_flush: Option<u64>,
}

/// What is known of a running command from its output.
pub struct SessionModel {
    pub managed: bool,
    pub always_input: bool,
    pub pending: Seq<char>,
    pub percent: i32,
    pub first_error: Option<Seq<char>>,
    pub escalated: bool,
    pub log: Seq<char>,
    pub last_flush: Option<u64>,
}

impl View for Session {
    type V = SessionModel;

    open spec fn view(&self) -> SessionModel {
        SessionModel {
            managed: self.managed,
            always_input: self.always_input,
            pending: self.pending@,
            percent: self.percent,
            first_error: opt_text(self.first_error),
            escalated: self.escalated,
            log: self.log@,
            last_flush: self.last_flush,
        }
    }
}

/// Before the command has written anything.
pub open spec fn new_session(managed: bool, always_input: bool) -> SessionModel {
    SessionModel {
        managed,
        always_input,
        pending: seq![],
        percent: 0,
        first_error: None,
        escalated: false,
        log: seq![],
        last_flush: None,
    }
}

/// Whether the terminal is due to be sent: fifty milliseconds after the last time.
pub open spec fn flush_due(last: Option<u64>, now: u64) -> bool {
    match last {
        Some(t) => now >= t && now - t >= 50_000_000,
        None => true,
    }
}

/// After a piece of output. Of a managed command the first 64 KiB are kept for the summary of a
/// conflict; the terminal keeps 500 lines.
pub open spec fn session_after(m: SessionModel, output: Seq<char>, now: u64) -> SessionModel {
    let text = plain(output);
    if text.len() == 0 {
        m
    } else {
        SessionModel {
            pending: last_lines(applied(m.pending, text), 500),
            percent: percent_after_lines(split_on(text, '\n'), m.percent),
            first_error: first_error(split_on(text, '\n'), m.first_error),
            escalated: m.escalated || (m.managed && reports_conflict(lowered(text))),
            log: if m.managed && encode_utf8(m.log).len() < 65536 {
                m.log + text
            } else {
                m.log
            },
            last_flush: if sends_terminal(m, text, now) {
                Some(now)
            } else {
                m.last_flush
            },
            ..m
        }
    }
}

/// Whether the terminal is sent after a piece of output: when it asks something, or when it is due.
pub open spec fn sends_terminal(m: SessionModel, text: Seq<char>, now: u64) -> bool {
    asks_user(text) || asks_yes_no(text) || flush_due(m.last_flush, now)
}

/// The messages for a piece of output.
pub open spec fn output_messages(m: SessionModel, output: Seq<char>, now: u64) -> Seq<
    MessageModel,
> {
    let text = plain(output);
    if text.len() == 0 {
        seq![]
    } else {
        prompt_messages(text, m.always_input) + lines_messages(
            split_on(text, '\n'),
            m.percent,
            now as nat,
        ) + (if sends_terminal(m, text, now) {
            seq![MessageModel::ProgressOutput(session_after(m, output, now).pending)]
        } else {
            seq![]
        })
    }
}

/// The messages at the end of the output.
pub open spec fn closing_messages(m: SessionModel) -> Seq<MessageModel> {
    (if m.pending.len() > 0 {
        seq![MessageModel::ProgressOutput(m.pending)]
    } else {
        seq![]
    }) + (match m.first_error {
        Some(e) => seq![MessageModel::ProgressErrorSummary(e)],
        None => seq![],
    })
}

/// The messages for the outcome of the command.
pub open spec fn outcome_messages(m: SessionModel, success: bool) -> Seq<MessageModel> {
    if m.managed && m.escalated && !success {
        seq![
            MessageModel::ShowConflict {
                summary: conflict_summary(m.log),
                can_force: can_overwrite(m.log),
            },
        ]
    } else if success {
        seq![MessageModel::OperationDone(true)]
    } else {
        seq![MessageModel::ProgressAutoExpand, MessageModel::OperationDone(false)]
    }
}

/// The messages before a command starts.
pub fn start_messages(title: &str, expanded: bool) -> (out: Vec<TerminalMessage>)
    ensures
        message_models(out@) == (if expanded {
            seq![
                MessageModel::ShowProgressPopup(title@),
                MessageModel::ProgressAutoExpand,
                MessageModel::ProgressShowClose,
            ]
        } else {
            seq![MessageModel::ShowProgressPopup(title@)]
        }),
{
    let mut out: Vec<TerminalMessage> = Vec::new();
    send(&mut out, TerminalMessage::ShowProgressPopup(own(title)));
    if expanded {
        send(&mut out, TerminalMessage::ProgressAutoExpand);
        send(&mut out, TerminalMessage::ProgressShowClose);
    }
    out
}

/// The messages when a command cannot be started.
pub fn spawn_failure_messages(managed: bool, error: &str) -> (out: Vec<TerminalMessage>)
    ensures
        message_models(out@) == (if managed {
            seq![
                MessageModel::OperationProgress(0, "Error: "@ + error@),
                MessageModel::OperationDone(false),
            ]
        } else {
            seq![
                MessageModel::ProgressOutput("Error: "@ + error@ + "\n"@),
                MessageModel::OperationDone(false),
            ]
        }),
{
    let mut out: Vec<TerminalMessage> = Vec::new();
    let mut text = own("Error: ");
    text.append(error);
    if managed {
        send(&mut out, TerminalMessage::OperationProgress(0, text));
    } else {
        text.append("\n");
        send(&mut out, TerminalMessage::ProgressOutput(text));
    }
    send(&mut out, TerminalMessage::OperationDone(false));
    out
}

impl Session {
    /// Before the command has written anything.
    pub fn new(managed: bool, always_input: bool) -> (s: Session)
        ensures
            s@ == new_session(managed, always_input),
    {
        Session {
            managed,
            always_input,
            pending: String::new(),
            percent: 0,
            first_error: None,
            escalated: false,
            log: String::new(),
            last_flush: None,
        }
    }

    /// The command has been silent for a moment: the terminal is sent, if it shows anything.
    pub fn idle(self, now: u64) -> (r: (Session, Vec<TerminalMessage>))
        ensures
            r.0@ == (if self@.pending.len() > 0 {
                SessionModel { last_flush: Some(now), ..self@ }
            } else {
                self@
            }),
            message_models(r.1@) == (if self@.pending.len() > 0 {
                seq![MessageModel::ProgressOutput(self@.pending)]
            } else {
                seq![]
            }),
    {
        let mut out: Vec<TerminalMessage> = Vec::new();
        proof {
            assert(message_models(out@) =~= seq![]);
        }
        if filled(self.pending.as_str()) {
            send(&mut out, TerminalMessage::ProgressOutput(own(self.pending.as_str())));
            (Session { last_flush: Some(now), ..self }, out)
        } else {
            (self, out)
        }
    }

    /// Takes in a piece of output.
    pub fn output(self, output: &str, now: u64) -> (r: (Session, Vec<TerminalMessage>))
        ensures
            r.0@ == session_after(self@, output@, now),
            message_models(r.1@) == output_messages(self@, output@, now),
    {
        let mut out: Vec<TerminalMessage> = Vec::new();
        proof {
            assert(message_models(out@) =~= seq![]);
        }
        let text = strip_ansi(output);
        if !filled(text.as_str()) {
            return (self, out);
        }
        let chars = to_chars(text.as_str());
        let c = chars.as_slice();
        let merged = apply_terminal_text(self.pending.as_str(), text.as_str());
        let pending = keep_lines(merged.as_str(), 500);
        let mut log = self.log;
        let mut escalated = self.escalated;
        if self.managed {
            if log.as_str().as_bytes().len() < 65536 {
                log.append(text.as_str());
            }
            let lower = to_lower(text.as_str());
            let lower_chars = to_chars(lower.as_str());
            escalated = escalated || conflict_reported(lower_chars.as_slice());
        }
        let asked = prompt(c, self.always_input, &mut out);
        let list = split_char(c, '\n');
        let (percent, error) = take_lines(&list, self.percent, self.first_error, now, &mut out);
        let due = match self.last_flush {
            Some(t) => now >= t && now - t >= 50_000_000,
            None => true,
        };
        let last_flush = if asked || due {
            send(&mut out, TerminalMessage::ProgressOutput(own(pending.as_str())));
            Some(now)
        } else {
            self.last_flush
        };
        proof {
            assert(message_models(out@) =~= output_messages(self@, output@, now));
        }
        (
            Session {
                managed: self.managed,
                always_input: self.always_input,
                pending,
                percent,
                first_error: error,
                escalated,
                log,
                last_flush,
            },
            out,
        )
    }

    /// The command has written bytes. What is not UTF-8 is replaced.
    pub fn output_bytes(self, bytes: &[u8], now: u64) -> (r: (Session, Vec<TerminalMessage>))
        ensures
            r.0@ == session_after(self@, lossy_text(bytes@), now),
            message_models(r.1@) == output_messages(self@, lossy_text(bytes@), now),
    {
        let text = lossy(bytes);
        self.output(text.as_str(), now)
    }

    /// The command has ended.
    pub fn finish(self, success: bool) -> (out: Vec<TerminalMessage>)
        ensures
            message_models(out@) == closing_messages(self@) + outcome_messages(self@, success),
    {
        let mut out: Vec<TerminalMessage> = Vec::new();
        let ghost m = self@;
        proof {
            assert(message_models(out@) =~= seq![]);
        }
        if filled(self.pending.as_str()) {
            send(&mut out, TerminalMessage::ProgressOutput(self.pending));
        }
        if let Some(e) = self.first_error {
            send(&mut out, TerminalMessage::ProgressErrorSummary(e));
        }
        if self.managed && self.escalated && !success {
            let (summary, can_force) = parse_conflict_summary(self.log.as_str());
            send(&mut out, TerminalMessage::ShowConflict { summary, can_force });
        } else {
            if !success {
                send(&mut out, TerminalMessage::ProgressAutoExpand);
            }
            send(&mut out, TerminalMessage::OperationDone(success));
        }
        proof {
            assert(message_models(out@) =~= closing_messages(m) + outcome_messages(m, success));
        }
        out
    }
}

// ---------------------------------------------------------------------------
// Laws

/// The progress that is shown never goes back, and the first error that is seen stays.
pub proof fn progress_never_goes_back(m: SessionModel, output: Seq<char>, now: u64)
    ensures
        session_after(m, output, now).percent >= m.percent,
        m.first_error is Some ==> session_after(m, output, now).first_error == m.first_error,
        m.escalated ==> session_after(m, output, now).escalated,
        m.log.is_prefix_of(session_after(m, output, now).log),
{
    lines_never_go_back(split_on(plain(output), '\n'), m.percent);
}

proof fn lines_never_go_back(list: Seq<Seq<char>>, percent: i32)
    ensures
        percent_after_lines(list, percent) >= percent,
    decreases list.len(),
{
    if list.len() > 0 {
        lines_never_go_back(list.skip(1), percent_after(list[0], percent));
    }
}

/// The terminal never holds more than 500 lines.
pub proof fn terminal_is_bounded(m: SessionModel, output: Seq<char>, now: u64)
    requires
        line_count(m.pending) <= 500,
    ensures
        line_count(session_after(m, output, now).pending) <= 500,
{
    last_lines_count(applied(m.pending, plain(output)), 500);
}

/// A command that fails is always reported: as a conflict, or as an operation that has failed.
pub proof fn failure_is_reported(m: SessionModel)
    ensures
        ({
            let last = outcome_messages(m, false).last();
            last is ShowConflict || last == MessageModel::OperationDone(false)
        }),
        outcome_messages(m, true) == seq![MessageModel::OperationDone(true)],
{
}

/// A counter such as `(3/12)` in a line is read, wherever the line has it.
#[verifier::rlimit(60)]
#[verifier::spinoff_prover]
pub proof fn counters_are_read(
    front: Seq<char>,
    current: nat,
    total: nat,
    behind: Seq<char>,
    start: i32,
    end: i32,
)
    requires
        !front.contains('('),
        current <= i32::MAX,
        0 < total <= i32::MAX,
    ensures
        progress_fraction(
            front.push('(') + (((decimal(current).push('/') + decimal(total)).push(')')) + behind),
            start,
            end,
        ) == Some(point_in_range(start, end, current as i32, total as i32)),
{
    let (c, t) = (decimal(current), decimal(total));
    let inner = c.push('/') + t;
    let line = front.push('(') + (inner.push(')') + behind);
    decimal_reads_back(current);
    decimal_reads_back(total);
    let a = front.len() as int;
    assert forall|i: int| 0 <= i < a implies other_than('(')(#[trigger] line[i]) by {
        assert(line[i] == front[i]);
    }
    assert(line[a] == '(');
    run_len_is(line, other_than('('), front.len());
    let rest = line.skip(a);
    assert forall|i: int| 0 <= i < inner.len() + 1 implies other_than(')')(#[trigger] rest[i]) by {
        if i > 0 {
            assert(rest[i] == inner[i - 1]);
            if i - 1 < c.len() {
                assert('0' <= c[i - 1] <= '9');
            } else if i - 1 > c.len() {
                assert(inner[i - 1] == t[i - 2 - c.len()]);
            }
        }
    }
    assert(rest[inner.len() as int + 1] == ')');
    run_len_is(rest, other_than(')'), inner.len() + 1);
    assert(line.subrange(a + 1, a + 1 + inner.len()) =~= inner);
    assert(!c.contains('/')) by {
        if c.contains('/') {
            let i = choose|i: int| 0 <= i < c.len() && c[i] == '/';
            assert('0' <= c[i] <= '9');
        }
    }
    assert(!t.contains('/')) by {
        if t.contains('/') {
            let i = choose|i: int| 0 <= i < t.len() && t[i] == '/';
            assert('0' <= t[i] <= '9');
        }
    }
    pieces_follow(c, '/', t);
    pieces_follow(t, '/', seq![]);
    assert(split_on(inner, '/') =~= seq![c, t]);
    decimal_is_one_word(current);
    decimal_is_one_word(total);
    trimming_takes_outer_space(seq![], c, seq![]);
    trimming_takes_outer_space(seq![], t, seq![]);
    assert(Seq::<char>::empty() + c + Seq::<char>::empty() =~= c);
    assert(Seq::<char>::empty() + t + Seq::<char>::empty() =~= t);
    decimal_parses(current, i32::MAX as int);
    decimal_parses(total, i32::MAX as int);
    assert('0' <= c[0] && '0' <= t[0]);
}

/// A counter stands for a point within its range: the start for nothing, the end for everything, and
/// never further back for more.
pub proof fn counters_stay_in_range(start: i32, end: i32, current: i32, more: i32, total: i32)
    requires
        0 <= start,
        start + 16 <= end,
        end <= start + 31,
        end <= 100,
        0 <= current <= more,
        more <= total,
        0 < total,
    ensures
        start <= point_in_range(start, end, current, total) <= end,
        point_in_range(start, end, current, total) <= point_in_range(start, end, more, total),
        point_in_range(start, end, 0, total) == start,
        point_in_range(start, end, total, total) == end,
{
    let span = (end - start) as nat;
    share_never_goes_down(span, current as nat, more as nat, total as nat);
    share_never_goes_down(span, more as nat, total as nat, total as nat);
    share_never_goes_down(span, 0, current as nat, total as nat);
    whole_has_the_span(span, total as nat);
    nothing_has_no_share(span, total as nat);
    assert(end.wrapping_sub(start) == span);
    point_of_share(start, end, current, total);
    point_of_share(start, end, more, total);
    point_of_share(start, end, 0, total);
    point_of_share(start, end, total, total);
}

proof fn point_of_share(start: i32, end: i32, current: i32, total: i32)
    requires
        0 <= start < end,
        end <= 100,
        0 <= current <= total,
        0 < total,
        share_of((end - start) as nat, current as nat, total as nat) <= end - start,
    ensures
        point_in_range(start, end, current, total) == start + share_of(
            (end - start) as nat,
            current as nat,
            total as nat,
        ),
{
}

/// Every line of output that is not blank is logged, in order, and nothing else is.
pub proof fn lines_are_logged(list: Seq<Seq<char>>, percent: i32, elapsed: nat)
    ensures
        log_texts(lines_messages(list, percent, elapsed)) == list.map_values(
            |l: Seq<char>| trimmed(visible(l)),
        ).filter(not_blank()),
    decreases list.len(),
{
    let f = |l: Seq<char>| trimmed(visible(l));
    if list.len() == 0 {
        reveal(Seq::filter);
        assert(list.map_values(f) =~= Seq::<Seq<char>>::empty());
        assert(log_texts(lines_messages(list, percent, elapsed)) =~= Seq::<Seq<char>>::empty());
    } else {
        let rest = list.skip(1);
        let next = percent_after(list[0], percent);
        lines_are_logged(rest, next, elapsed);
        let one = line_messages(list[0], percent, elapsed);
        let more = lines_messages(rest, next, elapsed);
        log_of_both(one, more);
        line_is_logged(list[0], percent, elapsed);
        assert(list.map_values(f) =~= seq![f(list[0])] + rest.map_values(f));
        Seq::filter_distributes_over_add(seq![f(list[0])], rest.map_values(f), not_blank());
        let t = f(list[0]);
        assert(seq![t].filter(not_blank()) =~= (if t.len() > 0 {
            seq![t]
        } else {
            seq![]
        })) by {
            reveal_with_fuel(Seq::filter, 2);
            assert(seq![t].drop_last() =~= Seq::<Seq<char>>::empty());
        }
    }
}

/// Texts that are not blank.
pub open spec fn not_blank() -> spec_fn(Seq<char>) -> bool {
    |t: Seq<char>| t.len() > 0
}

/// The texts of the log lines among messages.
pub open spec fn log_texts(list: Seq<MessageModel>) -> Seq<Seq<char>>
    decreases list.len(),
{
    if list.len() == 0 {
        seq![]
    } else {
        match list.last() {
            MessageModel::ProgressLogLine(text, _) => log_texts(list.drop_last()).push(text),
            _ => log_texts(list.drop_last()),
        }
    }
}

proof fn log_of_both(a: Seq<MessageModel>, b: Seq<MessageModel>)
    ensures
        log_texts(a + b) == log_texts(a) + log_texts(b),
    decreases b.len(),
{
    if b.len() == 0 {
        assert(a + b =~= a);
        assert(log_texts(a) + log_texts(b) =~= log_texts(a));
    } else {
        log_of_both(a, b.drop_last());
        assert((a + b).drop_last() =~= a + b.drop_last());
        assert((a + b).last() == b.last());
        assert(log_texts(a + b) =~= log_texts(a) + log_texts(b));
    }
}

proof fn line_is_logged(line: Seq<char>, percent: i32, elapsed: nat)
    ensures
        log_texts(line_messages(line, percent, elapsed)) == (if trimmed(visible(line)).len() > 0 {
            seq![trimmed(visible(line))]
        } else {
            seq![]
        }),
{
    reveal_with_fuel(log_texts, 4);
    let t = trimmed(visible(line));
    if t.len() > 0 {
        let first = MessageModel::ProgressLogLine(t, level_of(lowered(visible(line))));
        let stages = stage_messages(line, percent, elapsed);
        log_of_both(seq![first], stages);
        assert(seq![first].drop_last() =~= Seq::<MessageModel>::empty());
        assert(log_texts(seq![first]) =~= seq![t]);
        assert(log_texts(stages) =~= Seq::<Seq<char>>::empty()) by {
            if stages.len() > 0 {
                assert(stages.drop_last().len() < stages.len());
                if stages.len() == 2 {
                    assert(stages.drop_last() =~= seq![stages[0]]);
                    assert(seq![stages[0]].drop_last() =~= Seq::<MessageModel>::empty());
                } else {
                    assert(stages.drop_last() =~= Seq::<MessageModel>::empty());
                }
            }
        }
    }
}

/// The error that is reported in the end is the first line with one.
pub proof fn first_error_counts(list: Seq<Seq<char>>, i: int)
    requires
        0 <= i < list.len(),
        error_in(list[i]) is Some,
        forall|j: int| 0 <= j < i ==> error_in(#[trigger] list[j]) is None,
    ensures
        first_error(list, None) == error_in(list[i]),
    decreases i,
{
    let rest = list.skip(1);
    if i > 0 {
        assert(error_in(list[0]) is None);
        assert forall|j: int| 0 <= j < i - 1 implies error_in(#[trigger] rest[j]) is None by {
            assert(rest[j] == list[j + 1]);
        }
        first_error_counts(rest, i - 1);
    } else {
        assert(first_error(rest, error_in(list[0])) == error_in(list[0]));
    }
}

/// An error that is known stays the one that is reported, and a line is an error where it says so.
pub proof fn errors_are_found(list: Seq<Seq<char>>, known: Seq<char>, line: Seq<char>)
    ensures
        first_error(list, Some(known)) == Some(known),
        trimmed(visible(line)).len() > 0 && holds(lowered(visible(line)), "error:"@) ==> error_in(
            line,
        ) == Some(trimmed(visible(line))),
        !holds(lowered(visible(line)), "error:"@) ==> error_in(line) is None,
        holds(lowered(visible(line)), "error:"@) ==> level_of(lowered(visible(line))) == 1,
{
}

/// What a line shows in the end stands behind its last carriage return.
pub proof fn redrawn_text_is_hidden(front: Seq<char>, last: Seq<char>)
    requires
        !last.contains('\r'),
    ensures
        visible(front.push('\r') + last) == last,
        visible(last) == last,
{
    last_piece(front, '\r', last);
    pieces_follow(last, '\r', seq![]);
}

/// A conflict in the output of a managed command is noticed, and stays noticed.
pub proof fn conflicts_are_noticed(m: SessionModel, output: Seq<char>, now: u64)
    ensures
        m.escalated ==> session_after(m, output, now).escalated,
        m.managed && plain(output).len() > 0 && (holds(lowered(plain(output)), "conflicting files"@)
            || holds(lowered(plain(output)), "are in conflict"@) || holds(
            lowered(plain(output)),
            "exists in filesystem"@,
        ) || holds(lowered(plain(output)), "breaks dependency"@) || holds(
            lowered(plain(output)),
            "could not satisfy dependencies"@,
        ) || holds(lowered(plain(output)), "failed to commit transaction"@)) ==> session_after(
            m,
            output,
            now,
        ).escalated,
        !m.managed && !m.escalated ==> !session_after(m, output, now).escalated,
{
}

/// A command that has failed over a conflict ends with the conflict, with the choice to overwrite
/// files only where files are in the way; any other command ends with its outcome.
pub proof fn outcomes_are_told(m: SessionModel, success: bool)
    ensures
        success ==> outcome_messages(m, success) == seq![MessageModel::OperationDone(true)],
        !success && !(m.managed && m.escalated) ==> outcome_messages(m, success).last()
            == MessageModel::OperationDone(false),
        !success && m.managed && m.escalated ==> outcome_messages(m, success).len() == 1
            && outcome_messages(m, success)[0] is ShowConflict && (outcome_messages(
            m,
            success,
        )[0]->can_force == exists|i: int|
            0 <= i < lines_of(m.log).len() && (holds(
                lowered(#[trigger] lines_of(m.log)[i]),
                "exists in filesystem"@,
            ) || holds(lowered(lines_of(m.log)[i]), "conflicting files"@))),
        !success ==> !outcome_messages(m, success).contains(MessageModel::OperationDone(true)),
{
    let list = lines_of(m.log);
    if exists|i: int|
        0 <= i < list.len() && (holds(lowered(#[trigger] list[i]), "exists in filesystem"@)
            || holds(lowered(list[i]), "conflicting files"@)) {
        let i = choose|i: int|
            0 <= i < list.len() && (holds(lowered(#[trigger] list[i]), "exists in filesystem"@)
                || holds(lowered(list[i]), "conflicting files"@));
        assert(is_file_conflict(list[i]));
    }
    if can_overwrite(m.log) {
        let i = choose|i: int| 0 <= i < list.len() && is_file_conflict(#[trigger] list[i]);
        assert(holds(lowered(list[i]), "exists in filesystem"@) || holds(
            lowered(list[i]),
            "conflicting files"@,
        ));
    }
}

/// A yes-or-no question gets buttons, unless everything is typed; then, and for any other question, a
/// text field comes with the question. Output that asks nothing gets neither.
pub proof fn questions_are_asked(s: Seq<char>, always_input: bool)
    ensures
        (holds(s, "[Y/n]"@) || holds(s, "[y/n]"@) || holds(s, "[y/N]"@)) && !always_input
            ==> prompt_messages(s, always_input).contains(MessageModel::ProgressPromptButtons),
        (holds(s, "[Y/n]"@) || holds(s, "[y/n]"@) || holds(s, "[y/N]"@)) && always_input
            ==> prompt_messages(s, always_input).contains(
            MessageModel::ProgressPrompt(question_of(s)),
        ) && !prompt_messages(s, always_input).contains(MessageModel::ProgressPromptButtons),
        !asks_user(s) && !asks_yes_no(s) ==> prompt_messages(s, always_input).len() == 0,
        asks_user(s) ==> prompt_messages(s, always_input).len() > 0,
{
    let list = prompt_messages(s, always_input);
    if asks_yes_no(s) && !always_input {
        assert(list[0] == MessageModel::ProgressPromptButtons);
    } else if asks_user(s) || asks_yes_no(s) {
        assert(list[0] == MessageModel::ProgressPrompt(question_of(s)));
    }
}

/// The question is the last line of the output that is not blank.
pub proof fn questions_stand_last(list: Seq<Seq<char>>, i: int)
    requires
        0 <= i < list.len(),
        trimmed(list[i]).len() > 0,
        forall|j: int| i < j < list.len() ==> trimmed(#[trigger] list[j]).len() == 0,
    ensures
        last_filled(list) == Some(list[i]),
    decreases list.len(),
{
    if i < list.len() - 1 {
        assert(trimmed(list[list.len() - 1]).len() == 0);
        let front = list.drop_last();
        assert forall|j: int| i < j < front.len() implies trimmed(#[trigger] front[j]).len() == 0 by {
            assert(front[j] == list[j]);
        }
        questions_stand_last(front, i);
    }
}

/// What was written is kept for the summary of a conflict until 64 KiB are there, and nothing of it is
/// lost.
pub proof fn output_is_kept(m: SessionModel, output: Seq<char>, now: u64)
    ensures
        m.managed && encode_utf8(m.log).len() < 65536 ==> session_after(m, output, now).log == m.log
            + plain(output),
        !m.managed ==> session_after(m, output, now).log == m.log,
{
    if plain(output).len() == 0 {
        assert(m.log + plain(output) =~= m.log);
    }
}

/// Nothing is said of the time left at the start; later it is given in seconds, or in minutes and
/// seconds.
pub proof fn time_left_is_told(percent: i32, elapsed: nat)
    ensures
        percent <= 5 ==> eta_of(percent, elapsed) is None,
        eta_of(percent, elapsed) matches Some(s) ==> s.len() > 0 && s[0] == '~' && s.last() == 's',
{
    reveal_strlit("~");
    reveal_strlit("s");
    reveal_strlit("m ");
}

/// What an operation is doing is told by the words in its output: a line with one of them announces
/// that stage, where it has none of those of an earlier stage.
pub proof fn stages_are_announced(line: Seq<char>, lower: Seq<char>)
    requires
        !holds(lower, "resolving dependencies"@),
        !holds(lower, "looking for conflicting"@),
    ensures
        holds(lower, "downloading"@) ==> stage_of(line, lower) is Some && (stage_of(line, lower)->0).0
            == "Downloading packages..."@,
        !holds(lower, "downloading"@) && !holds(lower, "checking keyring"@) && !holds(
            lower,
            "checking integrity"@,
        ) && !holds(lower, "checking package integrity"@) && !holds(
            lower,
            "loading package files"@,
        ) ==> {
            &&& holds(lower, "installing"@) || holds(lower, "upgrading"@) ==> stage_of(
                line,
                lower,
            ) is Some && (stage_of(line, lower)->0).0 == "Installing packages..."@
            &&& !holds(lower, "installing"@) && !holds(lower, "upgrading"@) && holds(
                lower,
                "removing"@,
            ) ==> stage_of(line, lower) is Some && (stage_of(line, lower)->0).0
                == "Removing packages..."@
        },
{
}

/// Stages come in the order of their percentages, and a counter moves only within its stage: a
/// download between 20 and 50, installing and removing between 60 and 85.
pub proof fn stages_have_their_ranges(line: Seq<char>, lower: Seq<char>, current: i32, total: i32)
    requires
        0 <= current <= total,
        total > 0,
    ensures
        stage_of(line, lower) matches Some((text, p)) ==> progress_fraction(line, 20, 50) is None
            && progress_fraction(line, 60, 85) is None ==> {
            &&& 10 <= p <= 97
            &&& text == "Downloading packages..."@ ==> p == 35
            &&& text == "Installing packages..."@ || text == "Removing packages..."@ ==> p == 72
        },
        20 <= point_in_range(20, 50, current, total) <= 50,
        60 <= point_in_range(60, 85, current, total) <= 85,
{
    counters_stay_in_range(20, 50, current, total, total);
    counters_stay_in_range(60, 85, current, total, total);
    stage_texts_differ();
}

proof fn stage_texts_differ()
    ensures
        "Downloading packages..."@ != "Resolving dependencies..."@,
        "Downloading packages..."@ != "Checking for conflicts..."@,
        "Downloading packages..."@ != "Verifying signatures..."@,
        "Downloading packages..."@ != "Loading package files..."@,
        "Downloading packages..."@ != "Installing packages..."@,
        "Downloading packages..."@ != "Removing packages..."@,
        "Downloading packages..."@ != "Running post-install hooks..."@,
        "Downloading packages..."@ != "Rebuilding initramfs..."@,
        "Downloading packages..."@ != "Updating bootloader..."@,
        "Downloading packages..."@ != "Updating system databases..."@,
        "Installing packages..."@ != "Resolving dependencies..."@,
        "Installing packages..."@ != "Checking for conflicts..."@,
        "Installing packages..."@ != "Verifying signatures..."@,
        "Installing packages..."@ != "Loading package files..."@,
        "Installing packages..."@ != "Running post-install hooks..."@,
        "Installing packages..."@ != "Rebuilding initramfs..."@,
        "Installing packages..."@ != "Updating bootloader..."@,
        "Installing packages..."@ != "Updating system databases..."@,
        "Removing packages..."@ != "Resolving dependencies..."@,
        "Removing packages..."@ != "Checking for conflicts..."@,
        "Removing packages..."@ != "Verifying signatures..."@,
        "Removing packages..."@ != "Loading package files..."@,
        "Removing packages..."@ != "Running post-install hooks..."@,
        "Removing packages..."@ != "Rebuilding initramfs..."@,
        "Removing packages..."@ != "Updating bootloader..."@,
        "Removing packages..."@ != "Updating system databases..."@,
{
    reveal_strlit("Downloading packages...");
    reveal_strlit("Installing packages...");
    reveal_strlit("Removing packages...");
    reveal_strlit("Resolving dependencies...");
    reveal_strlit("Checking for conflicts...");
    reveal_strlit("Verifying signatures...");
    reveal_strlit("Loading package files...");
    reveal_strlit("Running post-install hooks...");
    reveal_strlit("Rebuilding initramfs...");
    reveal_strlit("Updating bootloader...");
    reveal_strlit("Updating system databases...");
    let (d, i, r) = (
        "Downloading packages..."@,
        "Installing packages..."@,
        "Removing packages..."@,
    );
    assert(d[0] == 'D' && i[0] == 'I' && r[0] == 'R');
    assert("Resolving dependencies..."@[0] == 'R' && "Resolving dependencies..."@[2] == 's');
    assert(r[2] == 'm');
    assert("Checking for conflicts..."@[0] == 'C');
    assert("Verifying signatures..."@[0] == 'V');
    assert("Loading package files..."@[0] == 'L');
    assert("Running post-install hooks..."@[0] == 'R' && "Running post-install hooks..."@[1] == 'u');
    assert(r[1] == 'e');
    assert("Rebuilding initramfs..."@[2] == 'b' && "Rebuilding initramfs..."@[0] == 'R');
    assert("Updating bootloader..."@[0] == 'U');
    assert("Updating system databases..."@[0] == 'U');
}

/// The terminal is sent at once where the output asks something or nothing was sent before, and else
/// not sooner than fifty milliseconds after the last time.
pub proof fn terminal_is_sent_in_time(m: SessionModel, text: Seq<char>, last: u64, now: u64)
    ensures
        asks_user(text) ==> sends_terminal(m, text, now),
        m.last_flush is None ==> sends_terminal(m, text, now),
        m.last_flush == Some(last) && now >= last + 50_000_000 ==> sends_terminal(m, text, now),
        m.last_flush == Some(last) && now < last + 50_000_000 && !asks_user(text) && !asks_yes_no(text)
            ==> !sends_terminal(m, text, now),
{
}

/// A line belongs to the summary of a conflict where it speaks of an error, a warning or a conflict,
/// whatever the case of its letters; a blank line never does.
pub proof fn conflicts_are_explained(line: Seq<char>)
    ensures
        trimmed(line).len() == 0 ==> !explains_conflict(line),
        trimmed(line).len() > 0 && (holds(lowered(line), "error:"@) || holds(
            lowered(line),
            "warning:"@,
        ) || holds(lowered(line), "exists in filesystem"@) || holds(
            lowered(line),
            "are in conflict"@,
        ) || holds(lowered(line), "breaks dependency"@)) ==> explains_conflict(line),
        holds(lowered(line), "exists in filesystem"@) ==> is_file_conflict(line),
        !holds(lowered(line), "exists in filesystem"@) && !holds(lowered(line), "conflicting files"@)
            ==> !is_file_conflict(line),
{
}

} // verus!
