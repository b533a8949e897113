//! Terminal output: escape sequences, carriage returns and the lines that are kept.
use vstd::prelude::*;
use vstd::slice::slice_subrange;

use crate::text::{find_char, from_chars, index_of, other_than, push_all, run_len, run_len_bound,
    run_len_is, split_on, tail_run_len, tail_run_len_bound, to_chars};
use crate::version::{find_last_char, last_index_of};

verus! {

// ---------------------------------------------------------------------------
// Escape sequences

/// The escape character.
pub open spec fn is_escape(c: char) -> bool {
    c as u32 == 0x1b
}

fn escape(c: char) -> (r: bool)
    ensures
        r == is_escape(c),
{
    c as u32 == 0x1b
}

/// The parameter characters of a control sequence.
pub open spec fn parameters() -> spec_fn(char) -> bool {
    |c: char| '0' <= c <= '?'
}

/// The intermediate characters of a control sequence.
pub open spec fn intermediates() -> spec_fn(char) -> bool {
    |c: char| ' ' <= c <= '/'
}

/// How many characters of `s`, which follows `ESC [`, belong to the control sequence: parameters,
/// intermediates and a final character, where there is one.
pub open spec fn control_len(s: Seq<char>) -> nat {
    let a = run_len(s, parameters());
    let b = a + run_len(s.skip(a as int), intermediates());
    if b < s.len() && '@' <= s[b as int] <= '~' {
        b + 1
    } else {
        b
    }
}

/// How many characters of `s`, which follows `ESC ]`, belong to the command: up to a bell or
/// `ESC \`, or all.
pub open spec fn command_len(s: Seq<char>) -> nat
    decreases s.len(),
{
    if s.len() == 0 {
        0
    } else if s[0] as u32 == 7 {
        1
    } else if is_escape(s[0]) && s.len() > 1 && s[1] == '\\' {
        2
    } else {
        1 + command_len(s.skip(1))
    }
}

/// The length of the escape sequence at the front of `s`, which starts with an escape character.
pub open spec fn escape_len(s: Seq<char>) -> nat {
    if s.len() < 2 {
        1
    } else if s[1] == '[' {
        2 + control_len(s.skip(2))
    } else if s[1] == ']' {
        2 + command_len(s.skip(2))
    } else if (s[1] == '(' || s[1] == ')' || s[1] == '*' || s[1] == '+') && s.len() > 2 {
        3
    } else {
        2
    }
}

/// `s` without escape sequences.
pub open spec fn plain(s: Seq<char>) -> Seq<char>
    decreases s.len(),
    via plain_decreases
{
    if s.len() == 0 {
        seq![]
    } else if is_escape(s[0]) {
        plain(s.skip(escape_len(s) as int))
    } else {
        seq![s[0]] + plain(s.skip(1))
    }
}

proof fn control_len_bound(s: Seq<char>)
    ensures
        control_len(s) <= s.len(),
{
    run_len_bound(s, parameters());
    run_len_bound(s.skip(run_len(s, parameters()) as int), intermediates());
}

proof fn command_len_bound(s: Seq<char>)
    ensures
        command_len(s) <= s.len(),
    decreases s.len(),
{
    if s.len() > 0 {
        command_len_bound(s.skip(1));
    }
}

proof fn escape_len_bound(s: Seq<char>)
    requires
        s.len() > 0,
    ensures
        1 <= escape_len(s) <= s.len(),
{
    if s.len() >= 2 {
        control_len_bound(s.skip(2));
        command_len_bound(s.skip(2));
    }
}

#[via_fn]
proof fn plain_decreases(s: Seq<char>) {
    if s.len() > 0 {
        escape_len_bound(s);
    }
}

fn skip_control(s: &[char], from: usize) -> (k: usize)
    requires
        from <= s@.len(),
    ensures
        from <= k <= s@.len(),
        k == from + control_len(s@.skip(from as int)),
{
    let ghost rest = s@.skip(from as int);
    let mut a: usize = from;
    while a < s.len() && '0' <= s[a] && s[a] <= '?'
        invariant
            from <= a <= s@.len(),
            forall|j: int| from <= j < a ==> '0' <= #[trigger] s@[j] <= '?',
        ensures
            a < s@.len() ==> !('0' <= s@[a as int] <= '?'),
        decreases s@.len() - a,
    {
        a = a + 1;
    }
    proof {
        run_len_is(rest, parameters(), (a - from) as nat);
        assert(rest.skip(a - from) =~= s@.skip(a as int));
    }
    let mut b: usize = a;
    while b < s.len() && ' ' <= s[b] && s[b] <= '/'
        invariant
            a <= b <= s@.len(),
            forall|j: int| a <= j < b ==> ' ' <= #[trigger] s@[j] <= '/',
        ensures
            b < s@.len() ==> !(' ' <= s@[b as int] <= '/'),
        decreases s@.len() - b,
    {
        b = b + 1;
    }
    proof {
        run_len_is(s@.skip(a as int), intermediates(), (b - a) as nat);
    }
    if b < s.len() && '@' <= s[b] && s[b] <= '~' {
        b + 1
    } else {
        b
    }
}

fn skip_command(s: &[char], from: usize) -> (k: usize)
    requires
        from <= s@.len(),
    ensures
        from <= k <= s@.len(),
        k == from + command_len(s@.skip(from as int)),
{
    let mut i: usize = from;
    while i < s.len()
        invariant
            from <= i <= s@.len(),
            from + command_len(s@.skip(from as int)) == i + command_len(s@.skip(i as int)),
        decreases s@.len() - i,
    {
        let c = s[i];
        proof {
            assert(s@.skip(i as int).skip(1) =~= s@.skip(i + 1));
        }
        if c as u32 == 7 {
            return i + 1;
        }
        if escape(c) && s.len() - i > 1 && s[i + 1] == '\\' {
            return i + 2;
        }
        i = i + 1;
    }
    i
}

/// Strips escape sequences and keeps all other characters, carriage returns and line feeds too.
pub fn strip_ansi(input: &str) -> (out: String)
    ensures
        out@ == plain(input@),
{
    let chars = to_chars(input);
    let s = chars.as_slice();
    let mut out: Vec<char> = Vec::new();
    let mut i: usize = 0;
    proof {
        assert(s@.skip(0) =~= s@);
        assert(out@ + plain(s@) =~= plain(s@));
    }
    while i < s.len()
        invariant
            i <= s@.len(),
            s@ == input@,
            out@ + plain(s@.skip(i as int)) == plain(input@),
        decreases s@.len() - i,
    {
        let c = s[i];
        let ghost rest = s@.skip(i as int);
        let ghost before = out@;
        if escape(c) {
            proof {
                escape_len_bound(rest);
                if rest.len() >= 2 {
                    assert(rest.skip(2) =~= s@.skip(i + 2));
                }
            }
            let mut k: usize = i + 1;
            if k < s.len() {
                let d = s[k];
                k = k + 1;
                if d == '[' {
                    k = skip_control(s, k);
                } else if d == ']' {
                    k = skip_command(s, k);
                } else if (d == '(' || d == ')' || d == '*' || d == '+') && k < s.len() {
                    k = k + 1;
                }
            }
            proof {
                assert(k == i + escape_len(rest));
                assert(rest.skip(k - i) =~= s@.skip(k as int));
            }
            i = k;
        } else {
            out.push(c);
            proof {
                assert(rest.skip(1) =~= s@.skip(i + 1));
                assert(out@ + plain(s@.skip(i + 1)) =~= before + plain(rest));
            }
            i = i + 1;
        }
    }
    proof {
        assert(s@.skip(i as int) =~= Seq::<char>::empty());
        assert(out@ + plain(s@.skip(i as int)) =~= out@);
    }
    from_chars(out.as_slice())
}

/// Whether `s` holds no escape character.
pub open spec fn no_escape(s: Seq<char>) -> bool {
    forall|i: int| 0 <= i < s.len() ==> !is_escape(#[trigger] s[i])
}

/// Nothing of an escape sequence is left, and text without one is kept as it is.
pub proof fn plain_text_has_no_escape(s: Seq<char>)
    ensures
        no_escape(plain(s)),
        no_escape(s) ==> plain(s) == s,
    decreases s.len(),
{
    if s.len() > 0 {
        escape_len_bound(s);
        if is_escape(s[0]) {
            plain_text_has_no_escape(s.skip(escape_len(s) as int));
        } else {
            let rest = plain(s.skip(1));
            plain_text_has_no_escape(s.skip(1));
            assert forall|i: int| 0 <= i < plain(s).len() implies !is_escape(
                #[trigger] plain(s)[i],
            ) by {
                if i > 0 {
                    assert(plain(s)[i] == rest[i - 1]);
                }
            }
            if no_escape(s) {
                assert forall|i: int| 0 <= i < s.skip(1).len() implies !is_escape(
                    #[trigger] s.skip(1)[i],
                ) by {
                    assert(s.skip(1)[i] == s[i + 1]);
                }
                assert(seq![s[0]] + s.skip(1) =~= s);
            }
        }
    }
}

// ---------------------------------------------------------------------------
// Carriage returns

/// What a terminal shows: the lines that are finished and the line that is being written.
pub struct Screen {
    pub done: Seq<char>,
    pub line: Seq<char>,
}

/// The screen after `text`: a line feed, alone or after a carriage return, finishes the line; a
/// carriage return alone starts it over.
pub open spec fn written(screen: Screen, text: Seq<char>) -> Screen
    decreases text.len(),
{
    if text.len() == 0 {
        screen
    } else if text[0] == '\r' && text.len() > 1 && text[1] == '\n' {
        written(
            Screen { done: screen.done + screen.line.push('\n'), line: seq![] },
            text.skip(2),
        )
    } else if text[0] == '\r' {
        written(Screen { done: screen.done, line: seq![] }, text.skip(1))
    } else if text[0] == '\n' {
        written(
            Screen { done: screen.done + screen.line.push('\n'), line: seq![] },
            text.skip(1),
        )
    } else {
        written(Screen { done: screen.done, line: screen.line.push(text[0]) }, text.skip(1))
    }
}

/// The screen that shows `buffer`: its last line is being written.
pub open spec fn screen_of(buffer: Seq<char>) -> Screen {
    match last_index_of(buffer, '\n') {
        Some(k) => Screen { done: buffer.take(k + 1), line: buffer.skip(k + 1) },
        None => Screen { done: seq![], line: buffer },
    }
}

/// The text on a screen.
pub open spec fn shown(screen: Screen) -> Seq<char> {
    screen.done + screen.line
}

/// The buffer after new text has been written to it.
pub open spec fn applied(buffer: Seq<char>, text: Seq<char>) -> Seq<char> {
    shown(written(screen_of(buffer), text))
}

/// Merges new text into a buffer the way a terminal shows it.
pub fn apply_terminal_text(buffer: &str, new_text: &str) -> (out: String)
    ensures
        out@ == applied(buffer@, new_text@),
{
    let old_chars = to_chars(buffer);
    let old_text = old_chars.as_slice();
    let new_chars = to_chars(new_text);
    let s = new_chars.as_slice();
    let end: usize = old_text.len();
    let cut: usize = match find_last_char(old_text, '\n') {
        Some(k) => k + 1,
        None => 0,
    };
    let mut done: Vec<char> = Vec::new();
    push_all(&mut done, slice_subrange(old_text, 0, cut));
    let mut line: Vec<char> = Vec::new();
    push_all(&mut line, slice_subrange(old_text, cut, end));
    let ghost want = written(screen_of(buffer@), new_text@);
    proof {
        assert(done@ =~= screen_of(buffer@).done);
        assert(line@ =~= screen_of(buffer@).line);
        assert(s@.skip(0) =~= s@);
    }
    let mut i: usize = 0;
    while i < s.len()
        invariant
            i <= s@.len(),
            want == written(Screen { done: done@, line: line@ }, s@.skip(i as int)),
        decreases s@.len() - i,
    {
        let ghost rest = s@.skip(i as int);
        let c = s[i];
        proof {
            assert(rest.skip(1) =~= s@.skip(i + 1));
            if rest.len() > 1 {
                assert(rest.skip(2) =~= s@.skip(i + 2));
            }
        }
        if c == '\r' && s.len() - i > 1 && s[i + 1] == '\n' {
            let ghost before = done@;
            push_all(&mut done, line.as_slice());
            done.push('\n');
            proof {
                assert(done@ =~= before + line@.push('\n'));
            }
            line = Vec::new();
            proof {
                assert(line@ =~= seq![]);
            }
            i = i + 2;
        } else if c == '\r' {
            line = Vec::new();
            proof {
                assert(line@ =~= seq![]);
            }
            i = i + 1;
        } else if c == '\n' {
            let ghost before = done@;
            push_all(&mut done, line.as_slice());
            done.push('\n');
            proof {
                assert(done@ =~= before + line@.push('\n'));
            }
            line = Vec::new();
            proof {
                assert(line@ =~= seq![]);
            }
            i = i + 1;
        } else {
            line.push(c);
            i = i + 1;
        }
    }
    push_all(&mut done, line.as_slice());
    from_chars(done.as_slice())
}

/// Writing a text in two pieces shows the same as writing it whole, unless the cut falls between
/// a carriage return and its line feed.
pub proof fn writing_in_pieces(screen: Screen, a: Seq<char>, b: Seq<char>)
    requires
        !(a.len() > 0 && a.last() == '\r' && b.len() > 0 && b[0] == '\n'),
    ensures
        written(written(screen, a), b) == written(screen, a + b),
    decreases a.len(),
{
    let all = a + b;
    if a.len() == 0 {
        assert(all =~= b);
    } else {
        assert(all[0] == a[0]);
        assert(all.skip(1) =~= a.skip(1) + b);
        if a.len() > 1 {
            assert(all[1] == a[1]);
            assert(all.skip(2) =~= a.skip(2) + b);
        }
        if a[0] == '\r' && a.len() > 1 && a[1] == '\n' {
            let next = Screen { done: screen.done + screen.line.push('\n'), line: seq![] };
            writing_in_pieces(next, a.skip(2), b);
        } else if a[0] == '\r' {
            if a.len() == 1 && b.len() > 0 {
                assert(all[1] == b[0]);
            }
            writing_in_pieces(Screen { done: screen.done, line: seq![] }, a.skip(1), b);
        } else if a[0] == '\n' {
            let next = Screen { done: screen.done + screen.line.push('\n'), line: seq![] };
            writing_in_pieces(next, a.skip(1), b);
        } else {
            let next = Screen { done: screen.done, line: screen.line.push(a[0]) };
            writing_in_pieces(next, a.skip(1), b);
        }
    }
}

/// Whether a text stays within its line.
pub open spec fn within_line(s: Seq<char>) -> bool {
    forall|i: int| 0 <= i < s.len() ==> #[trigger] s[i] != '\r' && s[i] != '\n'
}

proof fn written_within_line(screen: Screen, s: Seq<char>)
    requires
        within_line(s),
    ensures
        written(screen, s) == (Screen { done: screen.done, line: screen.line + s }),
    decreases s.len(),
{
    if s.len() == 0 {
        assert(screen.line + s =~= screen.line);
    } else {
        let next = Screen { done: screen.done, line: screen.line.push(s[0]) };
        assert(s.skip(1).len() < s.len());
        written_within_line(next, s.skip(1));
        assert(next.line + s.skip(1) =~= screen.line + s);
    }
}

/// A line that is drawn again over itself, as a progress bar is, is shown once, in its last form.
pub proof fn redrawn_lines_are_shown_once(buffer: Seq<char>, before: Seq<char>, last: Seq<char>)
    requires
        within_line(before),
        within_line(last),
    ensures
        applied(buffer, before.push('\r') + last) == screen_of(buffer).done + last,
{
    let screen = screen_of(buffer);
    let first = Screen { done: screen.done, line: screen.line + before };
    let cleared = Screen { done: screen.done, line: seq![] };
    let cr = seq!['\r'];
    written_within_line(screen, before);
    assert(before.push('\r') =~= before + cr);
    writing_in_pieces(screen, before, cr);
    assert(written(first, cr) == cleared) by {
        reveal_with_fuel(written, 2);
        assert(cr.skip(1) =~= seq![]);
    }
    writing_in_pieces(screen, before.push('\r'), last);
    written_within_line(cleared, last);
    assert(cleared.line + last =~= last);
}

// ---------------------------------------------------------------------------
// The lines that are kept

/// How many lines `s` has: one more than line feeds.
pub open spec fn line_count(s: Seq<char>) -> nat {
    split_on(s, '\n').len()
}

/// `s` without its first `k` lines.
pub open spec fn without_lines(s: Seq<char>, k: nat) -> Seq<char>
    decreases k,
{
    let n = index_of(s, '\n');
    if k == 0 {
        s
    } else if n < s.len() {
        without_lines(s.skip(n as int + 1), (k - 1) as nat)
    } else {
        seq![]
    }
}

/// The last `most` lines of `s`.
pub open spec fn last_lines(s: Seq<char>, most: nat) -> Seq<char> {
    if line_count(s) > most {
        without_lines(s, (line_count(s) - most) as nat)
    } else {
        s
    }
}

/// Dropping lines leaves so many fewer.
pub proof fn without_lines_count(s: Seq<char>, k: nat)
    requires
        k < line_count(s),
    ensures
        line_count(without_lines(s, k)) == line_count(s) - k,
    decreases k,
{
    if k > 0 {
        let n = index_of(s, '\n');
        run_len_bound(s, other_than('\n'));
        if n < s.len() {
            without_lines_count(s.skip(n as int + 1), (k - 1) as nat);
        }
    }
}

/// No more lines are kept than asked for.
pub proof fn last_lines_count(s: Seq<char>, most: nat)
    requires
        most > 0,
    ensures
        line_count(last_lines(s, most)) <= most,
{
    if line_count(s) > most {
        without_lines_count(s, (line_count(s) - most) as nat);
    }
}

/// Keeps the last `most` lines.
pub fn keep_lines(text: &str, most: usize) -> (out: String)
    ensures
        out@ == last_lines(text@, most as nat),
{
    let chars = to_chars(text);
    let s = chars.as_slice();
    let pieces = crate::text::split_char(s, '\n');
    proof {
        assert(pieces@.len() == line_count(s@));
        assert(s@.skip(0) =~= s@);
    }
    if pieces.len() <= most {
        return from_chars(s);
    }
    let skip: usize = pieces.len() - most;
    let mut start: usize = 0;
    let mut k: usize = 0;
    while k < skip
        invariant
            k <= skip,
            start <= s@.len(),
            without_lines(s@, skip as nat) == without_lines(
                s@.skip(start as int),
                (skip - k) as nat,
            ),
        decreases skip - k,
    {
        let ghost rest = s@.skip(start as int);
        let n = find_char(s, start, '\n');
        if n == s.len() {
            proof {
                assert(s@.skip(n as int) =~= Seq::<char>::empty());
                without_no_lines((skip - k - 1) as nat);
            }
            start = n;
        } else {
            proof {
                assert(rest.skip(n - start + 1) =~= s@.skip(n + 1));
            }
            start = n + 1;
        }
        k = k + 1;
    }
    let rest = slice_subrange(s, start, s.len());
    proof {
        assert(rest@ =~= s@.skip(start as int));
    }
    from_chars(rest)
}

proof fn without_no_lines(k: nat)
    ensures
        without_lines(Seq::<char>::empty(), k) == Seq::<char>::empty(),
{
}

// ---------------------------------------------------------------------------
// Laws on what is shown

/// A control sequence vanishes; the text before it stays, and so does what is left of the text
/// behind it.
pub proof fn control_sequences_vanish(
    before: Seq<char>,
    numbers: Seq<char>,
    last: char,
    behind: Seq<char>,
)
    requires
        no_escape(before),
        forall|i: int| 0 <= i < numbers.len() ==> '0' <= #[trigger] numbers[i] <= '?',
        '@' <= last <= '~',
    ensures
        plain(before + seq!['\u{1b}', '['] + numbers + seq![last] + behind) == before + plain(behind),
    decreases before.len(),
{
    let s = before + seq!['\u{1b}', '['] + numbers + seq![last] + behind;
    if before.len() == 0 {
        let inner = numbers + seq![last] + behind;
        let n = numbers.len();
        assert(s[0] == '\u{1b}');
        assert(s[1] == '[');
        assert(s.skip(2) =~= inner);
        assert forall|i: int| 0 <= i < n implies parameters()(#[trigger] inner[i]) by {
            assert(inner[i] == numbers[i]);
        }
        assert(inner[n as int] == last);
        run_len_is(inner, parameters(), n);
        let tail = inner.skip(n as int);
        assert(tail[0] == last);
        run_len_is(tail, intermediates(), 0);
        assert(control_len(inner) == n + 1);
        assert(s.skip(escape_len(s) as int) =~= behind);
        assert(before + plain(behind) =~= plain(behind));
    } else {
        let more = before.skip(1);
        assert forall|i: int| 0 <= i < more.len() implies !is_escape(#[trigger] more[i]) by {
            assert(more[i] == before[i + 1]);
        }
        control_sequences_vanish(more, numbers, last, behind);
        assert(!is_escape(before[0]));
        assert(s[0] == before[0]);
        assert(s.skip(1) =~= more + seq!['\u{1b}', '['] + numbers + seq![last] + behind);
        assert(seq![before[0]] + (more + plain(behind)) =~= before + plain(behind));
    }
}

/// A command to the terminal, as one that sets its title, vanishes up to its bell.
pub proof fn commands_vanish(command: Seq<char>, behind: Seq<char>)
    requires
        no_escape(command),
        forall|i: int| 0 <= i < command.len() ==> #[trigger] command[i] as u32 != 7,
    ensures
        plain(seq!['\u{1b}', ']'] + command + seq!['\u{7}'] + behind) == plain(behind),
{
    let s = seq!['\u{1b}', ']'] + command + seq!['\u{7}'] + behind;
    let inner = command + seq!['\u{7}'] + behind;
    assert(s[0] == '\u{1b}');
    assert(s[1] == ']');
    assert(s.skip(2) =~= inner);
    command_ends(command, behind);
    assert(s.skip(escape_len(s) as int) =~= behind);
}

proof fn command_ends(command: Seq<char>, behind: Seq<char>)
    requires
        no_escape(command),
        forall|i: int| 0 <= i < command.len() ==> #[trigger] command[i] as u32 != 7,
    ensures
        command_len(command + seq!['\u{7}'] + behind) == command.len() + 1,
    decreases command.len(),
{
    let s = command + seq!['\u{7}'] + behind;
    if command.len() == 0 {
        assert(s[0] == '\u{7}');
    } else {
        let more = command.skip(1);
        assert forall|i: int| 0 <= i < more.len() implies !is_escape(#[trigger] more[i]) by {
            assert(more[i] == command[i + 1]);
        }
        assert forall|i: int| 0 <= i < more.len() implies #[trigger] more[i] as u32 != 7 by {
            assert(more[i] == command[i + 1]);
        }
        command_ends(more, behind);
        assert(!is_escape(command[0]));
        assert(s[0] == command[0]);
        assert(s.skip(1) =~= more + seq!['\u{7}'] + behind);
    }
}

/// Text within a line is shown behind what is there; a line feed, alone or after a carriage return,
/// ends the line, and nothing above it changes any more.
pub proof fn text_is_appended(buffer: Seq<char>, text: Seq<char>)
    requires
        within_line(text),
    ensures
        applied(buffer, text) == buffer + text,
        applied(buffer, text.push('\n')) == (buffer + text).push('\n'),
        applied(buffer, text + seq!['\r', '\n']) == (buffer + text).push('\n'),
{
    let screen = screen_of(buffer);
    assert(shown(screen) =~= buffer) by {
        let n = tail_run_len(buffer, other_than('\n'));
        tail_run_len_bound(buffer, other_than('\n'));
    }
    written_within_line(screen, text);
    let next = Screen { done: screen.done, line: screen.line + text };
    assert(applied(buffer, text) =~= buffer + text);
    let ended = Screen { done: screen.done + next.line.push('\n'), line: seq![] };
    let lf = seq!['\n'];
    assert(written(next, lf) == ended) by {
        reveal_with_fuel(written, 2);
        assert(lf.skip(1) =~= seq![]);
    }
    writing_in_pieces(screen, text, lf);
    assert(text.push('\n') =~= text + lf);
    assert(shown(ended) =~= (buffer + text).push('\n'));
    let crlf = seq!['\r', '\n'];
    assert(written(next, crlf) == ended) by {
        reveal_with_fuel(written, 2);
        assert(crlf.skip(2) =~= seq![]);
    }
    writing_in_pieces(screen, text, crlf);
}

/// The lines that are kept are the last ones, unchanged.
pub proof fn last_lines_are_kept(s: Seq<char>, most: nat)
    requires
        most > 0,
    ensures
        line_count(s) <= most ==> last_lines(s, most) == s,
        line_count(s) > most ==> split_on(last_lines(s, most), '\n') == split_on(s, '\n').skip(
            line_count(s) - most,
        ),
{
    if line_count(s) > most {
        later_lines(s, (line_count(s) - most) as nat);
    }
}

proof fn later_lines(s: Seq<char>, k: nat)
    requires
        k < line_count(s),
    ensures
        split_on(without_lines(s, k), '\n') == split_on(s, '\n').skip(k as int),
    decreases k,
{
    let all = split_on(s, '\n');
    if k == 0 {
        assert(all.skip(0) =~= all);
    } else {
        let n = index_of(s, '\n');
        run_len_bound(s, other_than('\n'));
        if n < s.len() {
            let rest = s.skip(n as int + 1);
            later_lines(rest, (k - 1) as nat);
            assert(all.skip(k as int) =~= split_on(rest, '\n').skip(k - 1));
        }
    }
}

/// A command to the terminal vanishes also up to the other mark that ends one.
pub proof fn marked_commands_vanish(command: Seq<char>, behind: Seq<char>)
    requires
        no_escape(command),
        forall|i: int| 0 <= i < command.len() ==> #[trigger] command[i] as u32 != 7,
    ensures
        plain(seq!['\u{1b}', ']'] + command + seq!['\u{1b}', '\\'] + behind) == plain(behind),
{
    let s = seq!['\u{1b}', ']'] + command + seq!['\u{1b}', '\\'] + behind;
    let inner = command + seq!['\u{1b}', '\\'] + behind;
    assert(s[0] == '\u{1b}');
    assert(s[1] == ']');
    assert(s.skip(2) =~= inner);
    marked_command_ends(command, behind);
    assert(s.skip(escape_len(s) as int) =~= behind);
}

proof fn marked_command_ends(command: Seq<char>, behind: Seq<char>)
    requires
        no_escape(command),
        forall|i: int| 0 <= i < command.len() ==> #[trigger] command[i] as u32 != 7,
    ensures
        command_len(command + seq!['\u{1b}', '\\'] + behind) == command.len() + 2,
    decreases command.len(),
{
    let s = command + seq!['\u{1b}', '\\'] + behind;
    if command.len() == 0 {
        assert(s[0] == '\u{1b}' && s[1] == '\\');
    } else {
        let more = command.skip(1);
        assert forall|i: int| 0 <= i < more.len() implies !is_escape(#[trigger] more[i]) by {
            assert(more[i] == command[i + 1]);
        }
        assert forall|i: int| 0 <= i < more.len() implies #[trigger] more[i] as u32 != 7 by {
            assert(more[i] == command[i + 1]);
        }
        marked_command_ends(more, behind);
        assert(!is_escape(command[0]));
        assert(s[0] == command[0]);
        assert(s.skip(1) =~= more + seq!['\u{1b}', '\\'] + behind);
    }
}

} // verus!
