//! The terminal in the window: what it shows, and what the user types.
use vstd::prelude::*;
use vstd::utf8::{encode_utf8, is_char_boundary};

use crate::command::{default_option, detect_prompt_default, options_stand_in_brackets,
    prompt_default};
use crate::screen::{applied, apply_terminal_text, keep_lines, last_lines, last_lines_count,
    line_count};
use crate::text::{filled, from_chars, lines, lines_of, lines_on_both_sides, own, pieces,
    single_line, spaces, tail_run_len_is, to_chars, trim_end, trimmed_end};

verus! {

/// The number of bytes beyond which output that is not shown yet is cut.
pub const MOST_PENDING: usize = 524_288;

/// The number of bytes to which it is cut.
pub const KEPT_PENDING: usize = 262_144;

/// The number of lines that the terminal keeps.
pub const MOST_LINES: usize = 500;

/// The terminal.
#[derive(Debug, Clone)]
pub struct TerminalPane {
    pub title: String,
    pub output: String,
    /// Output that is not shown yet.
    pub pending: String,
    pub shown: bool,
    pub done: bool,
    pub success: bool,
    /// Whether a password is typed.
    pub show_password: bool,
    /// Whether the terminal is to get the focus.
    pub focus_pending: bool,
    /// Whether the command needs a restart when it is done.
    pub is_upgrade: bool,
}

/// The terminal.
pub struct PaneModel {
    pub title: Seq<char>,
    pub output: Seq<char>,
    pub pending: Seq<char>,
    pub shown: bool,
    pub done: bool,
    pub success: bool,
    pub show_password: bool,
    pub focus_pending: bool,
    pub is_upgrade: bool,
}

impl View for TerminalPane {
    type V = PaneModel;

    open spec fn view(&self) -> PaneModel {
        PaneModel {
            title: self.title@,
            output: self.output@,
            pending: self.pending@,
            shown: self.shown,
            done: self.done,
            success: self.success,
            show_password: self.show_password,
            focus_pending: self.focus_pending,
            is_upgrade: self.is_upgrade,
        }
    }
}

/// Whether output with this text is cut at the edge of a character, where it is cut at all.
pub open spec fn cuts_cleanly(s: Seq<char>) -> bool {
    let bytes = encode_utf8(s);
    bytes.len() > MOST_PENDING ==> is_char_boundary(bytes, bytes.len() - KEPT_PENDING)
}

/// Whether some output is what is kept of other output: all of it, or its last bytes.
pub open spec fn is_kept_of(kept: Seq<char>, s: Seq<char>) -> bool {
    let bytes = encode_utf8(s);
    if bytes.len() > MOST_PENDING {
        encode_utf8(kept) == bytes.skip(bytes.len() - KEPT_PENDING)
    } else {
        kept == s
    }
}

/// What the terminal shows after more output.
pub open spec fn output_after(output: Seq<char>, text: Seq<char>) -> Seq<char> {
    last_lines(applied(output, text), MOST_LINES as nat)
}

impl TerminalPane {
    /// A terminal that is not shown.
    pub fn new() -> (t: TerminalPane)
        ensures
            t@ == (PaneModel {
                title: seq![],
                output: seq![],
                pending: seq![],
                shown: false,
                done: false,
                success: false,
                show_password: false,
                focus_pending: false,
                is_upgrade: false,
            }),
    {
        let t = TerminalPane {
            title: String::new(),
            output: String::new(),
            pending: String::new(),
            shown: false,
            done: false,
            success: false,
            show_password: false,
            focus_pending: false,
            is_upgrade: false,
        };
        proof {
            assert(t.title@ =~= seq![]);
            assert(t.output@ =~= seq![]);
            assert(t.pending@ =~= seq![]);
        }
        t
    }

    /// Shows an empty terminal for a command.
    pub fn show(&mut self, title: &str)
        ensures
            final(self)@ == (PaneModel {
                title: title@,
                output: seq![],
                pending: seq![],
                shown: true,
                done: false,
                success: false,
                show_password: false,
                focus_pending: true,
                is_upgrade: old(self)@.is_upgrade,
            }),
    {
        self.title = own(title);
        self.output = String::new();
        self.pending = String::new();
        self.shown = true;
        self.done = false;
        self.success = false;
        self.show_password = false;
        self.focus_pending = true;
        proof {
            assert(self.output@ =~= seq![]);
            assert(self.pending@ =~= seq![]);
        }
    }

    /// Takes more output. Where more than 512 KiB wait to be shown, only the last 256 KiB are kept.
    pub fn receive(&mut self, text: &str)
        requires
            cuts_cleanly(old(self)@.pending + text@),
        ensures
            is_kept_of(final(self)@.pending, old(self)@.pending + text@),
            final(self)@ == (PaneModel { pending: final(self)@.pending, ..old(self)@ }),
            encode_utf8(final(self)@.pending).len() <= MOST_PENDING,
    {
        let mut all = own(self.pending.as_str());
        all.append(text);
        let n: usize = all.as_str().as_bytes().len();
        if n > MOST_PENDING {
            let (_, kept) = all.as_str().split_at(n - KEPT_PENDING);
            proof {
                let bytes = encode_utf8(all@);
                assert(encode_utf8(kept@) =~= bytes.skip(bytes.len() - KEPT_PENDING));
            }
            self.pending = own(kept);
        } else {
            self.pending = all;
        }
    }

    /// Marks the command as done.
    pub fn finish(&mut self, success: bool)
        ensures
            final(self)@ == (PaneModel { done: true, success, ..old(self)@ }),
    {
        self.done = true;
        self.success = success;
    }

    /// Shows the output that waits, where it is time to.
    pub fn flush(&mut self, due: bool)
        ensures
            final(self)@ == (if due && old(self)@.pending.len() > 0 {
                PaneModel {
                    output: output_after(old(self)@.output, old(self)@.pending),
                    pending: seq![],
                    ..old(self)@
                }
            } else {
                old(self)@
            }),
    {
        if due && filled(self.pending.as_str()) {
            let all = apply_terminal_text(self.output.as_str(), self.pending.as_str());
            self.output = keep_lines(all.as_str(), MOST_LINES);
            self.pending = String::new();
            proof {
                assert(self.pending@ =~= seq![]);
            }
        }
    }

    /// Puts the terminal away.
    pub fn put_away(&mut self)
        ensures
            final(self)@ == (PaneModel { shown: false, is_upgrade: false, ..old(self)@ }),
    {
        self.shown = false;
        self.is_upgrade = false;
    }
}

/// The terminal never shows more than 500 lines.
pub proof fn shown_lines_are_bounded(output: Seq<char>, text: Seq<char>)
    ensures
        line_count(output_after(output, text)) <= MOST_LINES,
{
    last_lines_count(applied(output, text), MOST_LINES as nat);
}

// ---------------------------------------------------------------------------
// Echo

/// The line on which a prompt may stand: the last one, without the white space at its end.
pub open spec fn prompt_line(output: Seq<char>) -> Seq<char> {
    let all = lines_of(output);
    if all.len() > 0 {
        trimmed_end(all.last())
    } else {
        seq![]
    }
}

/// What is shown of what the user types: nothing of a password, the text itself, and for an empty
/// line the default of the prompt, where it has one.
pub open spec fn echo_of(text: Seq<char>, is_password: bool, output: Seq<char>) -> Option<Seq<char>> {
    if is_password {
        None
    } else if text.len() > 0 {
        Some(text + "\n"@)
    } else {
        match prompt_default(prompt_line(output)) {
            Some(default) => Some(default + "\n"@),
            None => None,
        }
    }
}

fn line_of_prompt(output: &str) -> (out: String)
    ensures
        out@ == prompt_line(output@),
{
    let chars = to_chars(output);
    let list = lines(chars.as_slice());
    let n: usize = list.len();
    if n > 0 {
        proof {
            assert(pieces(list@).last() == list@[n - 1]@);
        }
        from_chars(trim_end(list[n - 1].as_slice()))
    } else {
        let out = String::new();
        proof {
            assert(out@ =~= seq![]);
        }
        out
    }
}

/// What is shown of what the user types.
pub fn terminal_echo(text: &str, is_password: bool, output: &str) -> (r: Option<String>)
    ensures
        match r {
            Some(t) => echo_of(text@, is_password, output@) == Some(t@),
            None => echo_of(text@, is_password, output@) is None,
        },
{
    if is_password {
        return None;
    }
    if filled(text) {
        let mut out = own(text);
        out.append("\n");
        return Some(out);
    }
    let line = line_of_prompt(output);
    match detect_prompt_default(line.as_str()) {
        Some(default) => {
            let mut out = default;
            out.append("\n");
            Some(out)
        },
        None => None,
    }
}

/// A password is never shown.
pub proof fn passwords_are_not_shown(text: Seq<char>, output: Seq<char>)
    ensures
        echo_of(text, true, output) is None,
{
}

/// Where the user only presses return, what is shown is the default in the brackets at the end of
/// the last line, whatever stands above and before it; where the user types something, that is
/// shown.
pub proof fn defaults_are_shown(
    above: Seq<char>,
    front: Seq<char>,
    inner: Seq<char>,
    blanks: Seq<char>,
    text: Seq<char>,
)
    requires
        !front.contains('\n'),
        !inner.contains('\n'),
        !inner.contains('['),
        !inner.contains(']'),
        forall|i: int| 0 <= i < blanks.len() ==> #[trigger] blanks[i] == ' ',
        default_option(inner) is Some,
        text.len() > 0,
    ensures
        ({
            let line = front.push('[') + inner.push(']') + blanks;
            &&& echo_of(seq![], false, above.push('\n') + line) == Some(
                default_option(inner)->0 + "\n"@,
            )
            &&& echo_of(text, false, above.push('\n') + line) == Some(text + "\n"@)
        }),
{
    let s = front.push('[') + inner.push(']');
    let line = s + blanks;
    assert(!line.contains('\n')) by {
        if line.contains('\n') {
            let i = choose|i: int| 0 <= i < line.len() && line[i] == '\n';
            if i < front.len() {
                assert(front[i] == '\n');
            } else if front.len() < i && i < s.len() - 1 {
                assert(inner[i - front.len() - 1] == '\n');
            } else if i >= s.len() {
                assert(blanks[i - s.len()] == '\n');
            }
        }
    }
    lines_on_both_sides(above, line);
    single_line(line);
    assert(lines_of(above.push('\n') + line).last() == line);
    assert forall|i: int| line.len() - blanks.len() <= i < line.len() implies spaces()(
        #[trigger] line[i],
    ) by {
        assert(line[i] == blanks[i - s.len()]);
    }
    assert(line[s.len() - 1] == ']');
    tail_run_len_is(line, spaces(), blanks.len());
    assert(line.take(s.len() as int) =~= s);
    let none = Seq::<char>::empty();
    options_stand_in_brackets(front, inner, none);
    assert(s + none =~= s);
}

} // verus!
