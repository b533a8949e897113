//! The daemon that notifies of updates.
use vstd::prelude::*;
use vstd::slice::slice_subrange;

use crate::number::{decimal, decimal_parses, decimal_reads_back, decimal_text, parse_u32, parse_u64,
    parsed_u32, parsed_u64};
use crate::text::{begins, ends, find_char, find_word, first_at, found_behind, from_chars, index_of,
    is_space, lines, lines_of, not_found, other_than, own, pieces, run_len, run_len_is, texts,
    to_chars, trim, trimmed, trimming_takes_outer_space};
use crate::version::{digit, digits, is_digit};

verus! {

/// Minutes between checks, unless configured otherwise.
pub const DEFAULT_INTERVAL_MINS: u64 = 30;

/// Seconds after the login until the first check.
pub const INITIAL_DELAY_SECS: u64 = 60;

/// The number behind the key of the interval in a configuration.
pub open spec fn interval_in(content: Seq<char>) -> Option<u64> {
    let key = "\"notify_interval_minutes\""@;
    match first_at(content, key) {
        Some(k) => {
            let after = content.skip((k + key.len()) as int);
            let colon = index_of(after, ':');
            if colon < after.len() {
                let value = trimmed(after.skip(colon as int + 1));
                parsed_u64(value.take(run_len(value, digits()) as int))
            } else {
                None
            }
        },
        None => None,
    }
}

fn find_interval(content: &str) -> (r: Option<u64>)
    ensures
        r == interval_in(content@),
{
    let chars = to_chars(content);
    let s = chars.as_slice();
    let n: usize = s.len();
    let key = to_chars("\"notify_interval_minutes\"");
    match find_word(s, "\"notify_interval_minutes\"") {
        Some(k) => {
            let after = slice_subrange(s, k + key.len(), n);
            proof {
                assert(after@ =~= s@.skip(k + key@.len()));
                assert(after@.skip(0) =~= after@);
            }
            let colon = find_char(after, 0, ':');
            if colon == after.len() {
                return None;
            }
            let tail = slice_subrange(after, colon + 1, after.len());
            proof {
                assert(tail@ =~= after@.skip(colon + 1));
            }
            let value = trim(tail);
            let mut e: usize = 0;
            while e < value.len() && digit(value[e])
                invariant
                    e <= value@.len(),
                    forall|j: int| 0 <= j < e ==> is_digit(#[trigger] value@[j]),
                ensures
                    e < value@.len() ==> !is_digit(value@[e as int]),
                decreases value@.len() - e,
            {
                e = e + 1;
            }
            let number = slice_subrange(value, 0, e);
            proof {
                run_len_is(value@, digits(), e as nat);
                assert(number@ =~= value@.take(e as int));
            }
            parse_u64(number)
        },
        None => None,
    }
}

/// The minutes between checks: those in the configuration, where it gives a positive number.
pub fn load_interval_minutes(content: Option<&str>) -> (n: u64)
    ensures
        n == (match content {
            Some(text) => match interval_in(text@) {
                Some(m) => if m > 0 {
                    m
                } else {
                    DEFAULT_INTERVAL_MINS
                },
                None => DEFAULT_INTERVAL_MINS,
            },
            None => DEFAULT_INTERVAL_MINS,
        }),
        n > 0,
{
    if let Some(text) = content {
        if let Some(m) = find_interval(text) {
            if m > 0 {
                return m;
            }
        }
    }
    DEFAULT_INTERVAL_MINS
}

/// The seconds to sleep between checks. The product wraps around.
pub fn sleep_secs(minutes: u64) -> (n: u64)
    ensures
        n == minutes.wrapping_mul(60),
{
    minutes.wrapping_mul(60)
}

/// The process that a pid file names.
pub fn pid_in(content: &str) -> (r: Option<u32>)
    ensures
        r == parsed_u32(trimmed(content@)),
{
    let chars = to_chars(content);
    parse_u32(trim(chars.as_slice()))
}

/// The file in which the notifier keeps the number of its process.
pub fn pidfile_path(home: &str) -> (out: String)
    ensures
        out@ == home@ + "/.local/share/xpm/notify.pid"@,
{
    let mut out = own(home);
    out.append("/.local/share/xpm/notify.pid");
    out
}

/// The directory that exists while a process is alive.
pub fn process_dir(pid: u32) -> (out: String)
    ensures
        out@ == "/proc/"@ + decimal(pid as nat),
{
    let mut out = own("/proc/");
    out.append(decimal_text(pid as u64).as_str());
    out
}

/// The lines that are not blank, without the white space around them.
pub open spec fn filled_lines(list: Seq<Seq<char>>) -> Seq<Seq<char>>
    decreases list.len(),
{
    if list.len() == 0 {
        seq![]
    } else {
        let front = filled_lines(list.drop_last());
        if trimmed(list.last()).len() > 0 {
            front.push(trimmed(list.last()))
        } else {
            front
        }
    }
}

/// The updates that a check printed, a line each.
pub fn check_updates(output: &str) -> (out: Vec<String>)
    ensures
        texts(out@) == filled_lines(lines_of(output@)),
{
    let chars = to_chars(output);
    let list = lines(chars.as_slice());
    let ghost all = pieces(list@);
    let mut out: Vec<String> = Vec::new();
    proof {
        assert(texts(out@) =~= filled_lines(all.take(0)));
    }
    for i in 0..list.len()
        invariant
            all == pieces(list@),
            texts(out@) == filled_lines(all.take(i as int)),
    {
        let ghost had = out@;
        proof {
            assert(all.take(i + 1).last() == list@[i as int]@);
            assert(all.take(i + 1).drop_last() =~= all.take(i as int));
        }
        let t = trim(list[i].as_slice());
        if t.len() > 0 {
            out.push(from_chars(t));
            proof {
                assert(texts(out@) =~= texts(had).push(t@));
            }
        }
    }
    proof {
        assert(all.take(all.len() as int) =~= all);
    }
    out
}

/// How many updates of Flatpaks were printed; none where the command failed.
pub fn check_flatpak_updates(output: Option<&str>) -> (n: usize)
    ensures
        n == (match output {
            Some(text) => filled_lines(lines_of(text@)).len(),
            None => 0,
        }),
{
    match output {
        Some(text) => {
            let list = check_updates(text);
            proof {
                assert(texts(list@).len() == list@.len());
            }
            list.len()
        },
        None => 0,
    }
}

/// A count and a word, with an `s` unless it is one.
pub open spec fn counted_word(n: nat, word: Seq<char>) -> Seq<char> {
    decimal(n) + word + (if n == 1 {
        ""@
    } else {
        "s"@
    })
}

fn count_word(n: u64, word: &str) -> (out: String)
    ensures
        out@ == counted_word(n as nat, word@),
{
    let mut out = decimal_text(n);
    out.append(word);
    out.append(
        if n == 1 {
            ""
        } else {
            "s"
        },
    );
    out
}

/// The body of the notification: the updates of pacman and of Flatpak, each where there are any.
pub open spec fn notification_body(pacman: nat, flatpak: nat) -> Seq<char> {
    if pacman > 0 && flatpak > 0 {
        counted_word(pacman, " pacman package"@) + ", "@ + counted_word(flatpak, " flatpak app"@)
    } else if pacman > 0 {
        counted_word(pacman, " pacman package"@)
    } else {
        counted_word(flatpak, " flatpak app"@)
    }
}

/// The notification of updates, its summary and its body; none without updates.
pub fn notification(pacman_count: usize, flatpak_count: usize) -> (r: Option<(String, String)>)
    requires
        pacman_count + flatpak_count <= usize::MAX,
    ensures
        match r {
            Some((summary, body)) => {
                &&& pacman_count + flatpak_count > 0
                &&& summary@ == counted_word((pacman_count + flatpak_count) as nat, " update"@)
                    + " available"@
                &&& body@ == notification_body(pacman_count as nat, flatpak_count as nat)
            },
            None => pacman_count + flatpak_count == 0,
        },
{
    let total: usize = pacman_count + flatpak_count;
    if total == 0 {
        return None;
    }
    let mut summary = count_word(total as u64, " update");
    summary.append(" available");
    let body = if pacman_count > 0 {
        let mut body = count_word(pacman_count as u64, " pacman package");
        if flatpak_count > 0 {
            body.append(", ");
            body.append(count_word(flatpak_count as u64, " flatpak app").as_str());
        }
        body
    } else {
        count_word(flatpak_count as u64, " flatpak app")
    };
    Some((summary, body))
}

// ---------------------------------------------------------------------------
// Laws

/// Every line that is not blank counts as an update, in order.
pub proof fn filled_lines_count(list: Seq<Seq<char>>, line: Seq<char>)
    ensures
        trimmed(line).len() > 0 ==> filled_lines(list.push(line)) == filled_lines(list).push(
            trimmed(line),
        ),
        trimmed(line).len() == 0 ==> filled_lines(list.push(line)) == filled_lines(list),
        filled_lines(Seq::<Seq<char>>::empty()).len() == 0,
{
    assert(list.push(line).drop_last() =~= list);
}

/// A number at the front of a value is read.
proof fn value_is_read(n: nat, behind: Seq<char>)
    requires
        n <= u64::MAX,
        behind.len() > 0,
        !is_digit(behind[0]),
        !is_space(behind.last()),
    ensures
        ({
            let value = trimmed(seq![' '] + (decimal(n) + behind));
            parsed_u64(value.take(run_len(value, digits()) as int)) == Some(n as u64)
        }),
{
    let d = decimal(n);
    let value = d + behind;
    decimal_reads_back(n);
    assert('0' <= d[0] <= '9');
    assert(value[0] == d[0] && value.last() == behind.last());
    trimming_takes_outer_space(seq![' '], value, seq![]);
    assert(seq![' '] + value + Seq::<char>::empty() =~= seq![' '] + value);
    assert forall|i: int| 0 <= i < d.len() implies digits()(#[trigger] value[i]) by {
        assert('0' <= d[i] <= '9');
    }
    assert(value[d.len() as int] == behind[0]);
    run_len_is(value, digits(), d.len());
    assert(value.take(d.len() as int) =~= d);
    decimal_parses(n, u64::MAX as int);
}

/// The interval is the number behind its key in the configuration.
pub proof fn intervals_are_read(front: Seq<char>, n: nat, behind: Seq<char>)
    requires
        n <= u64::MAX,
        !front.contains('"'),
        behind.len() > 0,
        !is_digit(behind[0]),
        !is_space(behind.last()),
    ensures
        interval_in(
            front + "\"notify_interval_minutes\""@ + (seq![':', ' '] + (decimal(n) + behind)),
        ) == Some(n as u64),
        interval_in(front) is None,
{
    reveal_strlit("\"notify_interval_minutes\"");
    let key = "\"notify_interval_minutes\""@;
    assert(key.len() == 25 && key[0] == '"');
    let tail = seq![':', ' '] + (decimal(n) + behind);
    found_behind(front, key, tail);
    not_found(front, key);
    let s = front + key + tail;
    let after = s.skip((front.len() + key.len()) as int);
    assert(after =~= tail);
    assert(after[0] == ':');
    run_len_is(after, other_than(':'), 0);
    assert(after.skip(1) =~= seq![' '] + (decimal(n) + behind));
    value_is_read(n, behind);
}

/// A count is followed by its word, in the plural unless it is one.
pub proof fn plurals_are_right(n: nat, word: Seq<char>)
    ensures
        n == 1 ==> counted_word(n, word) == decimal(1) + word,
        n != 1 ==> counted_word(n, word) == (decimal(n) + word).push('s'),
{
    reveal_strlit("");
    reveal_strlit("s");
    if n == 1 {
        assert(counted_word(n, word) =~= decimal(1) + word);
    } else {
        assert(counted_word(n, word) =~= (decimal(n) + word).push('s'));
    }
}

/// The notification speaks of pacman where it has updates, and of Flatpak where it has.
pub proof fn notifications_tell_both(pacman: nat, flatpak: nat)
    ensures
        pacman > 0 ==> begins(
            notification_body(pacman, flatpak),
            counted_word(pacman, " pacman package"@),
        ),
        flatpak > 0 ==> ends(
            notification_body(pacman, flatpak),
            counted_word(flatpak, " flatpak app"@),
        ),
        flatpak == 0 && pacman > 0 ==> notification_body(pacman, flatpak) == counted_word(
            pacman,
            " pacman package"@,
        ),
{
    let t = notification_body(pacman, flatpak);
    let (a, b) = (counted_word(pacman, " pacman package"@), counted_word(flatpak, " flatpak app"@));
    if pacman > 0 {
        assert(t.take(a.len() as int) =~= a);
    }
    if flatpak > 0 {
        assert(t.skip(t.len() - b.len()) =~= b);
    }
}

} // verus!
