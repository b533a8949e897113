//! The facts on the home page: the system, and what has been done to its packages lately.
use vstd::prelude::*;
use vstd::slice::slice_subrange;

use crate::deps::{first_line, first_line_is_first};
use crate::float::{units_notation, units_text, whole_units_are_told};
use crate::number::{decimal, decimal_is_one_word, decimal_parses, decimal_text, parse_u64,
    parsed_u64};
use crate::text::{begins, find_char, find_word, first_at, found_behind, from_chars, has_word,
    held_within, holds, index_of, is_ascii_text, is_one_word, is_space, is_word, lines, lines_of,
    lowered, other_than, own, pieces, pieces_follow, replace, replaced,
    replacing_starts_at_the_pattern, run_len, run_len_is, single_word, split_char, split_on,
    starts_with_word, tail_run_len, tail_run_len_is, to_chars, to_lower, trim, trim_text, trimmed,
    trimming_takes_outer_space, words, words_of, words_on_both_sides};

verus! {

// ---------------------------------------------------------------------------
// The system

/// What is shown of the system.
#[derive(Debug, Clone)]
pub struct SysInfo {
    pub kernel: String,
    pub uptime: String,
    pub cpu: String,
    pub ram_used: String,
    pub ram_total: String,
    pub gpu: String,
    pub disk_used: String,
    pub disk_total: String,
    pub hostname: String,
    pub distro: String,
}

/// The files of a graphics device.
#[derive(Debug, Clone)]
pub struct GpuFiles {
    /// The name of its directory.
    pub name: String,
    /// Its vendor and its device number, where both could be read.
    pub ids: Option<(String, String)>,
    /// Its properties, where they could be read.
    pub uevent: Option<String>,
}

/// What was read from the system; a file that could not be read is empty.
#[derive(Debug, Clone)]
pub struct SysSources {
    pub version: String,
    pub uptime_secs: u64,
    pub cpuinfo: String,
    pub meminfo: String,
    pub gpus: Vec<GpuFiles>,
    pub df: Option<String>,
    pub hostname: String,
    pub os_release: String,
}

/// The `n`-th word of a text.
pub open spec fn word_at(s: Seq<char>, n: int) -> Option<Seq<char>> {
    if 0 <= n < words_of(s).len() {
        Some(words_of(s)[n])
    } else {
        None
    }
}

fn nth_word(s: &[char], n: usize) -> (r: Option<String>)
    ensures
        match r {
            Some(w) => word_at(s@, n as int) == Some(w@),
            None => word_at(s@, n as int) is None,
        },
{
    let list = words(s);
    if n < list.len() {
        proof {
            assert(pieces(list@)[n as int] == list@[n as int]@);
        }
        Some(from_chars(list[n].as_slice()))
    } else {
        None
    }
}

/// The first word of a text: of `/proc/uptime`, the seconds since the start.
pub fn first_word(text: &str) -> (r: Option<String>)
    ensures
        match r {
            Some(w) => word_at(text@, 0) == Some(w@),
            None => word_at(text@, 0) is None,
        },
{
    let chars = to_chars(text);
    nth_word(chars.as_slice(), 0)
}

/// The version of the kernel: the third word of `/proc/version`.
pub open spec fn kernel_in(text: Seq<char>) -> Seq<char> {
    match word_at(text, 2) {
        Some(w) => w,
        None => "unknown"@,
    }
}

/// The time since the start in days, hours and minutes.
pub open spec fn uptime_of(secs: nat) -> Seq<char> {
    if secs >= 86400 {
        decimal(secs / 86400) + "d "@ + decimal(secs % 86400 / 3600) + "h "@ + decimal(
            secs % 3600 / 60,
        ) + "m"@
    } else if secs >= 3600 {
        decimal(secs / 3600) + "h "@ + decimal(secs % 3600 / 60) + "m"@
    } else {
        decimal(secs / 60) + "m"@
    }
}

/// The time since the start in days, hours and minutes.
pub fn format_uptime(secs: u64) -> (out: String)
    ensures
        out@ == uptime_of(secs as nat),
{
    if secs >= 86400 {
        let mut out = decimal_text(secs / 86400);
        out.append("d ");
        out.append(decimal_text(secs % 86400 / 3600).as_str());
        out.append("h ");
        out.append(decimal_text(secs % 3600 / 60).as_str());
        out.append("m");
        out
    } else if secs >= 3600 {
        let mut out = decimal_text(secs / 3600);
        out.append("h ");
        out.append(decimal_text(secs % 3600 / 60).as_str());
        out.append("m");
        out
    } else {
        let mut out = decimal_text(secs / 60);
        out.append("m");
        out
    }
}

/// The name of a processor without marks and double spaces.
pub open spec fn tidy_cpu(s: Seq<char>) -> Seq<char> {
    trimmed(
        replaced(replaced(replaced(trimmed(s), "(R)"@, ""@), "(TM)"@, ""@), "  "@, " "@),
    )
}

/// The processor: the value of the first `model name` in `/proc/cpuinfo`.
pub open spec fn cpu_in(text: Seq<char>) -> Seq<char> {
    match first_line(lines_of(text), "model name"@) {
        Some(line) => if split_on(line, ':').len() >= 2 {
            tidy_cpu(split_on(line, ':')[1])
        } else {
            "unknown"@
        },
        None => "unknown"@,
    }
}

fn find_line(text: &str, key: &str) -> (r: Option<Vec<char>>)
    ensures
        match r {
            Some(line) => first_line(lines_of(text@), key@) == Some(line@),
            None => first_line(lines_of(text@), key@) is None,
        },
{
    let chars = to_chars(text);
    let list = lines(chars.as_slice());
    let ghost all = pieces(list@);
    proof {
        assert(all.skip(0) =~= all);
    }
    for i in 0..list.len()
        invariant
            all == pieces(list@),
            all == lines_of(text@),
            first_line(all, key@) == first_line(all.skip(i as int), key@),
    {
        proof {
            assert(all.skip(i as int)[0] == list@[i as int]@);
            assert(all.skip(i as int).skip(1) =~= all.skip(i + 1));
        }
        if starts_with_word(list[i].as_slice(), key) {
            return Some(vstd::slice::slice_to_vec(list[i].as_slice()));
        }
    }
    None
}

fn cpu_model(text: &str) -> (out: String)
    ensures
        out@ == cpu_in(text@),
{
    match find_line(text, "model name") {
        Some(line) => {
            let parts = split_char(line.as_slice(), ':');
            if parts.len() >= 2 {
                proof {
                    assert(pieces(parts@)[1] == parts@[1]@);
                }
                let a = replace(trim(parts[1].as_slice()), "(R)", "");
                let b = replace(a.as_slice(), "(TM)", "");
                let c = replace(b.as_slice(), "  ", " ");
                from_chars(trim(c.as_slice()))
            } else {
                own("unknown")
            }
        },
        None => own("unknown"),
    }
}

/// An amount of memory in `/proc/meminfo`, in KiB.
pub open spec fn memory_in(text: Seq<char>, key: Seq<char>) -> u64 {
    match first_line(lines_of(text), key) {
        Some(line) => match word_at(line, 1) {
            Some(w) => match parsed_u64(w) {
                Some(n) => n,
                None => 0,
            },
            None => 0,
        },
        None => 0,
    }
}

fn memory(text: &str, key: &str) -> (n: u64)
    ensures
        n == memory_in(text@, key@),
{
    match find_line(text, key) {
        Some(line) => match nth_word(line.as_slice(), 1) {
            Some(w) => {
                let chars = to_chars(w.as_str());
                match parse_u64(chars.as_slice()) {
                    Some(n) => n,
                    None => 0,
                }
            },
            None => 0,
        },
        None => 0,
    }
}

/// An amount of memory of `mb` MiB, in GiB where the whole memory has at least one.
pub open spec fn memory_text(mb: nat, whole_mb: nat) -> Seq<char> {
    if whole_mb >= 1024 {
        units_notation(mb, 1024, 1).push('G')
    } else {
        decimal(mb).push('M')
    }
}

fn show_memory(mb: u64, whole_mb: u64) -> (out: String)
    ensures
        out@ == memory_text(mb as nat, whole_mb as nat),
{
    if whole_mb >= 1024 {
        let mut out = units_text(mb, 1024, 1);
        out.push('G');
        from_chars(out.as_slice())
    } else {
        let mut out = decimal_text(mb);
        out.push('M');
        out
    }
}

/// The memory in use, in MiB.
pub open spec fn used_mb(total_kb: u64, available_kb: u64) -> nat {
    if total_kb >= available_kb {
        ((total_kb - available_kb) / 1024) as nat
    } else {
        0
    }
}

/// `s` without `pat` at its front, as often as it stands there.
pub open spec fn without_prefixes(s: Seq<char>, pat: Seq<char>) -> Seq<char>
    decreases s.len(),
{
    if pat.len() > 0 && begins(s, pat) {
        without_prefixes(s.skip(pat.len() as int), pat)
    } else {
        s
    }
}

fn strip_prefixes(s: &[char], pat: &str) -> (out: Vec<char>)
    ensures
        out@ == without_prefixes(s@, pat@),
{
    let p = to_chars(pat);
    let mut start: usize = 0;
    let n: usize = s.len();
    proof {
        assert(s@.skip(0) =~= s@);
    }
    if p.len() > 0 {
        loop
            invariant
                start <= n,
                n == s@.len(),
                p@ == pat@,
                p@.len() > 0,
                without_prefixes(s@, pat@) == without_prefixes(s@.skip(start as int), pat@),
            ensures
                without_prefixes(s@, pat@) == s@.skip(start as int),
            decreases n - start,
        {
            let rest = slice_subrange(s, start, n);
            proof {
                assert(rest@ =~= s@.skip(start as int));
            }
            if !starts_with_word(rest, pat) {
                break;
            }
            proof {
                assert(rest@.skip(p@.len() as int) =~= s@.skip(start + p@.len()));
            }
            start = start + p.len();
        }
    }
    let out = vstd::slice::slice_to_vec(slice_subrange(s, start, n));
    proof {
        assert(out@ =~= s@.skip(start as int));
    }
    out
}

/// Whether a directory is that of a graphics device and not of one of its connectors.
pub open spec fn is_card(name: Seq<char>) -> bool {
    begins(name, "card"@) && !holds(name, "-"@)
}

/// The maker of a graphics device.
pub open spec fn gpu_maker(vendor: Seq<char>) -> Seq<char> {
    let v = lowered(trimmed(vendor));
    if v == "0x10de"@ {
        "NVIDIA"@
    } else if v == "0x1002"@ {
        "AMD"@
    } else if v == "0x8086"@ {
        "Intel"@
    } else {
        "GPU"@
    }
}

/// The name of a graphics device; none for a directory that is not one or could not be read.
pub open spec fn gpu_of(files: GpuFiles) -> Option<Seq<char>> {
    if !is_card(files.name@) {
        None
    } else {
        match files.ids {
            Some((vendor, device)) => {
                let maker = gpu_maker(vendor@);
                let id = match files.uevent {
                    Some(text) => first_line(lines_of(text@), "PCI_ID="@),
                    None => None,
                };
                match id {
                    Some(line) => Some(
                        maker + " ("@ + without_prefixes(line, "PCI_ID="@) + ")"@,
                    ),
                    None => Some(maker + " "@ + trimmed(device@)),
                }
            },
            None => None,
        }
    }
}

/// The name of the first graphics device, empty where there is none.
pub open spec fn first_gpu(list: Seq<GpuFiles>) -> Seq<char>
    decreases list.len(),
{
    if list.len() == 0 {
        seq![]
    } else {
        match gpu_of(list[0]) {
            Some(name) => name,
            None => first_gpu(list.skip(1)),
        }
    }
}

fn gpu_name(files: &GpuFiles) -> (r: Option<String>)
    ensures
        match r {
            Some(name) => gpu_of(*files) == Some(name@),
            None => gpu_of(*files) is None,
        },
{
    let name = to_chars(files.name.as_str());
    if !starts_with_word(name.as_slice(), "card") || has_word(name.as_slice(), "-") {
        return None;
    }
    match &files.ids {
        Some((vendor, device)) => {
            let trimmed_vendor = trim_text(vendor.as_str());
            let v = to_lower(trimmed_vendor.as_str());
            let w = to_chars(v.as_str());
            let mut out = if is_word(w.as_slice(), "0x10de") {
                own("NVIDIA")
            } else if is_word(w.as_slice(), "0x1002") {
                own("AMD")
            } else if is_word(w.as_slice(), "0x8086") {
                own("Intel")
            } else {
                own("GPU")
            };
            let id = match &files.uevent {
                Some(text) => find_line(text.as_str(), "PCI_ID="),
                None => None,
            };
            match id {
                Some(line) => {
                    let number = strip_prefixes(line.as_slice(), "PCI_ID=");
                    out.append(" (");
                    out.append(from_chars(number.as_slice()).as_str());
                    out.append(")");
                },
                None => {
                    out.append(" ");
                    out.append(trim_text(device.as_str()).as_str());
                },
            }
            Some(out)
        },
        None => None,
    }
}

fn find_gpu(list: &Vec<GpuFiles>) -> (out: String)
    ensures
        out@ == first_gpu(list@),
{
    let ghost all = list@;
    proof {
        assert(all.skip(0) =~= all);
    }
    for i in 0..list.len()
        invariant
            all == list@,
            first_gpu(all) == first_gpu(all.skip(i as int)),
    {
        proof {
            assert(all.skip(i as int)[0] == list@[i as int]);
            assert(all.skip(i as int).skip(1) =~= all.skip(i + 1));
        }
        if let Some(name) = gpu_name(&list[i]) {
            return name;
        }
    }
    String::new()
}

/// The used and the whole size of the disk: the third and the second word of the second line of
/// `df -h`; both empty where there are none.
pub open spec fn disk_in(text: Option<Seq<char>>) -> (Seq<char>, Seq<char>) {
    match text {
        Some(t) => if lines_of(t).len() >= 2 && words_of(lines_of(t)[1]).len() >= 3 {
            (words_of(lines_of(t)[1])[2], words_of(lines_of(t)[1])[1])
        } else {
            (seq![], seq![])
        },
        None => (seq![], seq![]),
    }
}

fn disk_usage(text: &Option<String>) -> (r: (String, String))
    ensures
        (r.0@, r.1@) == disk_in(
            match *text {
                Some(t) => Some(t@),
                None => None,
            },
        ),
{
    if let Some(t) = text {
        let chars = to_chars(t.as_str());
        let list = lines(chars.as_slice());
        if list.len() >= 2 {
            proof {
                assert(pieces(list@)[1] == list@[1]@);
            }
            let w = words(list[1].as_slice());
            if w.len() >= 3 {
                proof {
                    assert(pieces(w@)[1] == w@[1]@ && pieces(w@)[2] == w@[2]@);
                }
                return (from_chars(w[2].as_slice()), from_chars(w[1].as_slice()));
            }
        }
    }
    (String::new(), String::new())
}

/// `s` without the quotation marks at either end.
pub open spec fn unquoted(s: Seq<char>) -> Seq<char> {
    let q = |c: char| c == '"';
    let t = s.skip(run_len(s, q) as int);
    t.take(t.len() - tail_run_len(t, q))
}

fn unquote(s: &[char]) -> (out: String)
    ensures
        out@ == unquoted(s@),
{
    let ghost q = |c: char| c == '"';
    let mut a: usize = 0;
    while a < s.len() && s[a] == '"'
        invariant
            a <= s@.len(),
            forall|j: int| 0 <= j < a ==> s@[j] == '"',
        ensures
            a < s@.len() ==> s@[a as int] != '"',
        decreases s@.len() - a,
    {
        a = a + 1;
    }
    let t = slice_subrange(s, a, s.len());
    proof {
        run_len_is(s@, q, a as nat);
        assert(t@ =~= s@.skip(a as int));
    }
    let mut b: usize = t.len();
    while b > 0 && t[b - 1] == '"'
        invariant
            b <= t@.len(),
            forall|j: int| b <= j < t@.len() ==> t@[j] == '"',
        ensures
            b > 0 ==> t@[b - 1] != '"',
        decreases b,
    {
        b = b - 1;
    }
    let u = slice_subrange(t, 0, b);
    proof {
        tail_run_len_is(t@, q, (t@.len() - b) as nat);
        assert(u@ =~= t@.take(b as int));
    }
    from_chars(u)
}

/// The name of the distribution in `/etc/os-release`.
pub open spec fn distro_in(text: Seq<char>) -> Seq<char> {
    match first_line(lines_of(text), "NAME="@) {
        Some(line) => unquoted(without_prefixes(line, "NAME="@)),
        None => seq![],
    }
}

fn distro_name(text: &str) -> (out: String)
    ensures
        out@ == distro_in(text@),
{
    match find_line(text, "NAME=") {
        Some(line) => {
            let rest = strip_prefixes(line.as_slice(), "NAME=");
            unquote(rest.as_slice())
        },
        None => String::new(),
    }
}

/// Puts together what is shown of the system.
pub fn load_sys_info(s: &SysSources) -> (info: SysInfo)
    ensures
        info.kernel@ == kernel_in(s.version@),
        info.uptime@ == uptime_of(s.uptime_secs as nat),
        info.cpu@ == cpu_in(s.cpuinfo@),
        ({
            let total = memory_in(s.meminfo@, "MemTotal:"@);
            let available = memory_in(s.meminfo@, "MemAvailable:"@);
            let whole = (total / 1024) as nat;
            &&& info.ram_used@ == memory_text(used_mb(total, available), whole)
            &&& info.ram_total@ == memory_text(whole, whole)
        }),
        info.gpu@ == first_gpu(s.gpus@),
        (info.disk_used@, info.disk_total@) == disk_in(
            match s.df {
                Some(t) => Some(t@),
                None => None,
            },
        ),
        info.hostname@ == trimmed(s.hostname@),
        info.distro@ == distro_in(s.os_release@),
{
    let version = to_chars(s.version.as_str());
    let kernel = match nth_word(version.as_slice(), 2) {
        Some(w) => w,
        None => own("unknown"),
    };
    let total: u64 = memory(s.meminfo.as_str(), "MemTotal:");
    let available: u64 = memory(s.meminfo.as_str(), "MemAvailable:");
    let used: u64 = if total >= available {
        (total - available) / 1024
    } else {
        0
    };
    let whole: u64 = total / 1024;
    let (disk_used, disk_total) = disk_usage(&s.df);
    SysInfo {
        kernel,
        uptime: format_uptime(s.uptime_secs),
        cpu: cpu_model(s.cpuinfo.as_str()),
        ram_used: show_memory(used, whole),
        ram_total: show_memory(whole, whole),
        gpu: find_gpu(&s.gpus),
        disk_used,
        disk_total,
        hostname: trim_text(s.hostname.as_str()),
        distro: distro_name(s.os_release.as_str()),
    }
}

/// Whether a line of `/etc/os-release` names the distribution XeroLinux.
pub open spec fn names_xero(line: Seq<char>) -> bool {
    let l = trimmed(line);
    (begins(l, "ID="@) || begins(l, "NAME="@)) && holds(lowered(l), "xero"@)
}

/// Whether `/etc/os-release` is that of XeroLinux.
pub fn is_xerolinux(os_release: &str) -> (r: bool)
    ensures
        r == exists|i: int|
            0 <= i < lines_of(os_release@).len() && names_xero(#[trigger] lines_of(os_release@)[i]),
{
    let chars = to_chars(os_release);
    let list = lines(chars.as_slice());
    let ghost all = pieces(list@);
    for i in 0..list.len()
        invariant
            all == pieces(list@),
            all == lines_of(os_release@),
            forall|j: int| 0 <= j < i ==> !names_xero(#[trigger] all[j]),
    {
        proof {
            assert(all[i as int] == list@[i as int]@);
        }
        let l = trim(list[i].as_slice());
        if starts_with_word(l, "ID=") || starts_with_word(l, "NAME=") {
            let text = from_chars(l);
            let lower = to_lower(text.as_str());
            let lower_chars = to_chars(lower.as_str());
            if has_word(lower_chars.as_slice(), "xero") {
                return true;
            }
        }
    }
    false
}

// ---------------------------------------------------------------------------
// Recent activity

/// Something that was done to a package.
#[derive(Debug, Clone)]
pub struct ActivityItem {
    pub action: String,
    pub package: String,
    pub date: String,
}

/// Something that was done to a package.
pub struct ActivityModel {
    pub action: Seq<char>,
    pub package: Seq<char>,
    pub date: Seq<char>,
}

impl View for ActivityItem {
    type V = ActivityModel;

    open spec fn view(&self) -> ActivityModel {
        ActivityModel { action: self.action@, package: self.package@, date: self.date@ }
    }
}

/// The contents of a list of activities.
pub open spec fn activity_models(list: Seq<ActivityItem>) -> Seq<ActivityModel> {
    list.map_values(|a: ActivityItem| a@)
}

/// The day of the time stamp at the front of a line: the first ten characters between the brackets,
/// where there are so many.
pub open spec fn day_of(line: Seq<char>) -> Seq<char> {
    if line.len() > 0 && line[0] == '[' {
        let s = line.skip(1);
        let e = index_of(s, ']');
        if e < s.len() {
            first_ten_bytes(s.take(e as int))
        } else {
            seq![]
        }
    } else {
        seq![]
    }
}

/// The longest front of `s` of ten bytes in UTF-8, empty where a character straddles that mark or
/// `s` is shorter.
pub open spec fn first_ten_bytes(s: Seq<char>) -> Seq<char> {
    match fitting(s, 10) {
        Some(n) => s.take(n as int),
        None => seq![],
    }
}

/// How many characters at the front of `s` take exactly `bytes` bytes in UTF-8.
pub open spec fn fitting(s: Seq<char>, bytes: int) -> Option<nat>
    decreases s.len(),
{
    if bytes == 0 {
        Some(0nat)
    } else if bytes < 0 || s.len() == 0 {
        None
    } else {
        match fitting(s.skip(1), bytes - utf8_len(s[0])) {
            Some(n) => Some(n + 1),
            None => None,
        }
    }
}

/// The length of a character in UTF-8.
pub open spec fn utf8_len(c: char) -> int {
    if (c as u32) < 0x80 {
        1
    } else if (c as u32) < 0x800 {
        2
    } else if (c as u32) < 0x10000 {
        3
    } else {
        4
    }
}

/// The activity that a line of the log of pacman records, as in
/// `[2024-01-15T10:30:00+0000] [ALPM] installed pkg (ver)`.
pub open spec fn activity_in(line: Seq<char>) -> Option<ActivityModel> {
    match first_at(line, "] [ALPM] "@) {
        Some(k) => {
            let rest = line.skip(k as int + 9);
            let found = if begins(rest, "installed "@) {
                Some(("installed"@, rest.skip(10)))
            } else if begins(rest, "removed "@) {
                Some(("removed"@, rest.skip(8)))
            } else if begins(rest, "upgraded "@) {
                Some(("upgraded"@, rest.skip(9)))
            } else {
                None
            };
            match found {
                Some((action, part)) => match word_at(part, 0) {
                    Some(package) => Some(
                        ActivityModel { action, package, date: day_of(line) },
                    ),
                    None => None,
                },
                None => None,
            }
        },
        None => None,
    }
}

/// The last `most` activities that lines record, the latest first.
pub open spec fn latest(list: Seq<Seq<char>>, most: nat) -> Seq<ActivityModel>
    decreases list.len(),
{
    if list.len() == 0 || most == 0 {
        seq![]
    } else {
        match activity_in(list.last()) {
            Some(a) => seq![a] + latest(list.drop_last(), (most - 1) as nat),
            None => latest(list.drop_last(), most),
        }
    }
}

fn byte_len(c: char) -> (n: i32)
    ensures
        n == utf8_len(c),
        1 <= n <= 4,
{
    let v: u32 = c as u32;
    if v < 0x80 {
        1
    } else if v < 0x800 {
        2
    } else if v < 0x10000 {
        3
    } else {
        4
    }
}

fn cut_ten_bytes(s: &[char]) -> (out: String)
    ensures
        out@ == first_ten_bytes(s@),
{
    let mut k: usize = 0;
    let mut left: i32 = 10;
    let n: usize = s.len();
    proof {
        assert(s@.skip(0) =~= s@);
    }
    while left > 0 && k < n
        invariant
            n == s@.len(),
            k <= n,
            -4 <= left <= 10,
            match fitting(s@.skip(k as int), left as int) {
                Some(m) => fitting(s@, 10) == Some((m + k) as nat),
                None => fitting(s@, 10) is None,
            },
        decreases n - k,
    {
        proof {
            assert(s@.skip(k as int).skip(1) =~= s@.skip(k + 1));
        }
        left = left - byte_len(s[k]);
        k = k + 1;
    }
    if left == 0 {
        let head = slice_subrange(s, 0, k);
        proof {
            assert(head@ =~= s@.take(k as int));
        }
        from_chars(head)
    } else {
        String::new()
    }
}

fn day(line: &[char]) -> (out: String)
    ensures
        out@ == day_of(line@),
{
    if line.len() == 0 || line[0] != '[' {
        return String::new();
    }
    let s = slice_subrange(line, 1, line.len());
    proof {
        assert(s@ =~= line@.skip(1));
        assert(s@.skip(0) =~= s@);
    }
    let e = find_char(s, 0, ']');
    if e == s.len() {
        return String::new();
    }
    let inner = slice_subrange(s, 0, e);
    proof {
        assert(inner@ =~= s@.take(e as int));
    }
    cut_ten_bytes(inner)
}

fn activity(line: &[char]) -> (r: Option<ActivityItem>)
    ensures
        match r {
            Some(a) => activity_in(line@) == Some(a@),
            None => activity_in(line@) is None,
        },
{
    let n: usize = line.len();
    proof {
        reveal_strlit("] [ALPM] ");
        reveal_strlit("installed ");
        reveal_strlit("removed ");
        reveal_strlit("upgraded ");
    }
    match find_word(line, "] [ALPM] ") {
        Some(k) => {
            let rest = slice_subrange(line, k + 9, n);
            proof {
                assert(rest@ =~= line@.skip(k + 9));
            }
            let (action, cut): (&str, usize) = if starts_with_word(rest, "installed ") {
                ("installed", 10)
            } else if starts_with_word(rest, "removed ") {
                ("removed", 8)
            } else if starts_with_word(rest, "upgraded ") {
                ("upgraded", 9)
            } else {
                return None;
            };
            let part = slice_subrange(rest, cut, rest.len());
            proof {
                assert(part@ =~= rest@.skip(cut as int));
            }
            match nth_word(part, 0) {
                Some(package) => Some(
                    ActivityItem { action: own(action), package, date: day(line) },
                ),
                None => None,
            }
        },
        None => None,
    }
}

/// The last fourteen activities that the log of pacman records, the latest first.
pub fn load_recent_activity(log: &str) -> (out: Vec<ActivityItem>)
    ensures
        activity_models(out@) == latest(lines_of(log@), 14),
{
    let chars = to_chars(log);
    let list = lines(chars.as_slice());
    let ghost all = pieces(list@);
    let mut out: Vec<ActivityItem> = Vec::new();
    let mut k: usize = list.len();
    proof {
        assert(all.take(all.len() as int) =~= all);
        assert(activity_models(out@) + latest(all, 14) =~= latest(all, 14));
    }
    while k > 0 && out.len() < 14
        invariant
            k <= list@.len(),
            out@.len() <= 14,
            all == pieces(list@),
            activity_models(out@) + latest(all.take(k as int), (14 - out@.len()) as nat) == latest(
                all,
                14,
            ),
        decreases k,
    {
        let ghost before = out@;
        let ghost upto = all.take(k as int);
        proof {
            assert(upto.last() == list@[k - 1]@);
            assert(upto.drop_last() =~= all.take(k - 1));
        }
        if let Some(a) = activity(list[k - 1].as_slice()) {
            out.push(a);
            proof {
                assert(activity_models(out@) =~= activity_models(before).push(a@));
                assert(activity_models(out@) + latest(
                    all.take(k - 1),
                    (14 - out@.len()) as nat,
                ) =~= activity_models(before) + latest(upto, (14 - before.len()) as nat));
            }
        }
        k = k - 1;
    }
    proof {
        assert(activity_models(out@) + latest(all.take(k as int), (14 - out@.len()) as nat)
            =~= activity_models(out@));
    }
    out
}

/// No more activities are listed than asked for.
pub proof fn latest_is_bounded(list: Seq<Seq<char>>, most: nat)
    ensures
        latest(list, most).len() <= most,
    decreases list.len(),
{
    if list.len() > 0 && most > 0 {
        latest_is_bounded(list.drop_last(), (most - 1) as nat);
        latest_is_bounded(list.drop_last(), most);
    }
}

/// The time since the start is told in days, hours and minutes; full units are left out where there
/// are none in front.
pub proof fn uptime_is_told(days: nat, hours: nat, minutes: nat, seconds: nat)
    requires
        hours < 24,
        minutes < 60,
        seconds < 60,
    ensures
        ({
            let text = uptime_of(days * 86400 + hours * 3600 + minutes * 60 + seconds);
            &&& days > 0 ==> text == decimal(days) + "d "@ + decimal(hours) + "h "@ + decimal(
                minutes,
            ) + "m"@
            &&& days == 0 && hours > 0 ==> text == decimal(hours) + "h "@ + decimal(minutes) + "m"@
            &&& days == 0 && hours == 0 ==> text == decimal(minutes) + "m"@
        }),
{
    let secs = days * 86400 + hours * 3600 + minutes * 60 + seconds;
    assert(secs / 86400 == days);
    assert(secs % 86400 / 3600 == hours);
    assert(secs % 3600 / 60 == minutes);
}

/// The version of the kernel is the third word.
pub proof fn kernels_are_read(a: Seq<char>, b: Seq<char>, version: Seq<char>, rest: Seq<char>)
    requires
        is_one_word(a),
        is_one_word(b),
        is_one_word(version),
    ensures
        kernel_in(a.push(' ') + (b.push(' ') + (version.push(' ') + rest))) == version,
{
    words_on_both_sides(a, ' ', b.push(' ') + (version.push(' ') + rest));
    words_on_both_sides(b, ' ', version.push(' ') + rest);
    words_on_both_sides(version, ' ', rest);
    single_word(a);
    single_word(b);
    single_word(version);
    let w = words_of(a.push(' ') + (b.push(' ') + (version.push(' ') + rest)));
    assert(w[2] == version);
}

/// The memory in use is what is not available, and none where more is available than there is.
pub proof fn memory_adds_up(total: u64, available: u64)
    ensures
        available <= total ==> used_mb(total, available) * 1024 <= total - available < used_mb(
            total,
            available,
        ) * 1024 + 1024,
        available > total ==> used_mb(total, available) == 0,
{
}

/// An amount of memory is the number behind its key on the first line with it.
pub proof fn memory_is_read(text: Seq<char>, key: Seq<char>, n: nat, unit: Seq<char>, i: int)
    requires
        n <= u64::MAX,
        is_one_word(key),
        0 <= i < lines_of(text).len(),
        lines_of(text)[i] == key.push(' ') + (decimal(n).push(' ') + unit),
        forall|j: int| 0 <= j < i ==> !begins(#[trigger] lines_of(text)[j], key),
    ensures
        memory_in(text, key) == n,
{
    let line = key.push(' ') + (decimal(n).push(' ') + unit);
    assert(line.take(key.len() as int) =~= key);
    first_line_is_first(lines_of(text), key, i);
    decimal_is_one_word(n);
    words_on_both_sides(key, ' ', decimal(n).push(' ') + unit);
    words_on_both_sides(decimal(n), ' ', unit);
    single_word(key);
    single_word(decimal(n));
    assert(words_of(line)[1] == decimal(n));
    decimal_parses(n, u64::MAX as int);
}

/// The sizes of the disk stand on the second line: the whole in front of what is used.
pub proof fn disks_are_read(text: Seq<char>)
    ensures
        lines_of(text).len() >= 2 && words_of(lines_of(text)[1]).len() >= 3 ==> disk_in(Some(text)).0
            == words_of(lines_of(text)[1])[2] && disk_in(Some(text)).1 == words_of(
            lines_of(text)[1],
        )[1],
        lines_of(text).len() < 2 ==> disk_in(Some(text)).0.len() == 0 && disk_in(Some(text)).1.len()
            == 0,
{
}

/// The maker of a graphics device is known from its number, whatever the case.
pub proof fn makers_are_known(vendor: Seq<char>)
    ensures
        lowered(trimmed(vendor)) == "0x10de"@ ==> gpu_maker(vendor) == "NVIDIA"@,
        lowered(trimmed(vendor)) == "0x1002"@ ==> gpu_maker(vendor) == "AMD"@,
        lowered(trimmed(vendor)) == "0x8086"@ ==> gpu_maker(vendor) == "Intel"@,
{
    reveal_strlit("0x10de");
    reveal_strlit("0x1002");
    reveal_strlit("0x8086");
    assert("0x10de"@[4] == 'd' && "0x1002"@[4] == '0' && "0x8086"@[2] == '8' && "0x1002"@[2] == '1'
        && "0x10de"@[2] == '1');
}

/// A line of the log tells what was done, to which package and on which day.
pub proof fn activities_are_read(
    day: Seq<char>,
    clock: Seq<char>,
    package: Seq<char>,
    rest: Seq<char>,
)
    requires
        day.len() == 10,
        is_ascii_text(day),
        !day.contains(']'),
        !clock.contains(']'),
        is_one_word(package),
    ensures
        activity_in(
            ((seq!['['] + day) + clock) + "] [ALPM] "@ + ("installed "@ + (package.push(' ') + rest)),
        ) == Some(ActivityModel { action: "installed"@, package, date: day }),
        activity_in(
            ((seq!['['] + day) + clock) + "] [ALPM] "@ + ("removed "@ + (package.push(' ') + rest)),
        ) == Some(ActivityModel { action: "removed"@, package, date: day }),
        activity_in(
            ((seq!['['] + day) + clock) + "] [ALPM] "@ + ("upgraded "@ + (package.push(' ') + rest)),
        ) == Some(ActivityModel { action: "upgraded"@, package, date: day }),
{
    reveal_strlit("] [ALPM] ");
    reveal_strlit("installed ");
    reveal_strlit("removed ");
    reveal_strlit("upgraded ");
    let mark = "] [ALPM] "@;
    assert(mark.len() == 9 && mark[0] == ']');
    let front = (seq!['['] + day) + clock;
    assert(!front.contains(']')) by {
        if front.contains(']') {
            let i = choose|i: int| 0 <= i < front.len() && front[i] == ']';
            if 1 <= i < 11 {
                assert(day[i - 1] == ']');
            } else if i >= 11 {
                assert(clock[i - 11] == ']');
            }
        }
    }
    let tail = package.push(' ') + rest;
    words_on_both_sides(package, ' ', rest);
    single_word(package);
    assert(words_of(tail)[0] == package);
    let (a, b, c) = ("installed "@, "removed "@, "upgraded "@);
    assert(a.len() == 10 && b.len() == 8 && c.len() == 9);
    assert(a[0] == 'i' && b[0] == 'r' && c[0] == 'u');
    found_behind(front, mark, a + tail);
    found_behind(front, mark, b + tail);
    found_behind(front, mark, c + tail);
    day_is_read(day, clock, a + tail);
    day_is_read(day, clock, b + tail);
    day_is_read(day, clock, c + tail);
    let n = front.len() as int + 9;
    assert((front + mark + (a + tail)).skip(n) =~= a + tail);
    assert((front + mark + (b + tail)).skip(n) =~= b + tail);
    assert((front + mark + (c + tail)).skip(n) =~= c + tail);
    assert((a + tail).take(10) =~= a && (a + tail).skip(10) =~= tail);
    assert((b + tail).take(8) =~= b && (b + tail).skip(8) =~= tail);
    assert((c + tail).take(9) =~= c && (c + tail).skip(9) =~= tail);
    assert(!begins(b + tail, a)) by {
        if begins(b + tail, a) {
            assert((b + tail).take(10)[0] == 'r');
        }
    }
    assert(!begins(c + tail, a)) by {
        if begins(c + tail, a) {
            assert((c + tail).take(10)[0] == 'u');
        }
    }
    assert(!begins(c + tail, b)) by {
        if begins(c + tail, b) {
            assert((c + tail).take(8)[0] == 'u');
        }
    }
}

proof fn day_is_read(day: Seq<char>, clock: Seq<char>, tail: Seq<char>)
    requires
        day.len() == 10,
        is_ascii_text(day),
        !day.contains(']'),
        !clock.contains(']'),
    ensures
        day_of(((seq!['['] + day) + clock) + "] [ALPM] "@ + tail) == day,
{
    reveal_strlit("] [ALPM] ");
    let line = ((seq!['['] + day) + clock) + "] [ALPM] "@ + tail;
    let s = line.skip(1);
    let e = 10 + clock.len();
    assert forall|i: int| 0 <= i < e implies other_than(']')(#[trigger] s[i]) by {
        if i < 10 {
            assert(s[i] == day[i]);
        } else {
            assert(s[i] == clock[i - 10]);
        }
    }
    assert(s[e as int] == ']');
    run_len_is(s, other_than(']'), e);
    let stamp = s.take(e as int);
    assert(stamp =~= day + clock);
    ten_ascii_fit(day, clock);
    assert((day + clock).take(10) =~= day);
}

proof fn ten_ascii_fit(day: Seq<char>, more: Seq<char>)
    requires
        is_ascii_text(day),
    ensures
        fitting(day + more, day.len() as int) == Some(day.len()),
    decreases day.len(),
{
    if day.len() > 0 {
        assert((day[0] as u32) < 0x80);
        let rest = day.skip(1);
        assert forall|i: int| 0 <= i < rest.len() implies (#[trigger] rest[i] as u32) < 0x80 by {
            assert(rest[i] == day[i + 1]);
        }
        assert((day + more).skip(1) =~= rest + more);
        assert((day + more)[0] == day[0]);
        ten_ascii_fit(rest, more);
    }
}

/// The latest activity stands first, and lines that record none are passed over.
pub proof fn latest_stands_first(list: Seq<Seq<char>>, line: Seq<char>, most: nat)
    requires
        most > 0,
    ensures
        activity_in(line) matches Some(a) ==> latest(list.push(line), most) == seq![a] + latest(
            list,
            (most - 1) as nat,
        ),
        activity_in(line) is None ==> latest(list.push(line), most) == latest(list, most),
{
    assert(list.push(line).drop_last() =~= list);
}

/// The processor is what stands behind the colon of the first line with its key, without the marks
/// of its maker.
pub proof fn processors_are_read(text: Seq<char>, gap: Seq<char>, value: Seq<char>, i: int)
    requires
        !gap.contains(':'),
        !value.contains(':'),
        0 <= i < lines_of(text).len(),
        lines_of(text)[i] == "model name"@ + (gap.push(':') + value),
        forall|j: int| 0 <= j < i ==> !begins(#[trigger] lines_of(text)[j], "model name"@),
    ensures
        cpu_in(text) == tidy_cpu(value),
{
    reveal_strlit("model name");
    let key = "model name"@;
    let line = lines_of(text)[i];
    let head = key + gap;
    assert(line.take(key.len() as int) =~= key);
    first_line_is_first(lines_of(text), key, i);
    assert(!head.contains(':')) by {
        if head.contains(':') {
            let k = choose|k: int| 0 <= k < head.len() && head[k] == ':';
            if k >= key.len() {
                assert(gap[k - key.len()] == ':');
            }
        }
    }
    assert(line =~= head.push(':') + value);
    pieces_follow(head, ':', value);
    pieces_follow(value, ':', seq![]);
}

/// The name of the distribution stands behind its key on the first line with it, without quotation
/// marks.
pub proof fn distributions_are_read(text: Seq<char>, name: Seq<char>, i: int)
    requires
        name.len() > 0,
        !name.contains('"'),
        !begins(name, "NAME="@),
        0 <= i < lines_of(text).len(),
        lines_of(text)[i] == "NAME="@ + name || lines_of(text)[i] == "NAME="@ + (seq!['"'] + name
            + seq!['"']),
        forall|j: int| 0 <= j < i ==> !begins(#[trigger] lines_of(text)[j], "NAME="@),
    ensures
        distro_in(text) == name,
{
    reveal_strlit("NAME=");
    let key = "NAME="@;
    let line = lines_of(text)[i];
    let quoted = seq!['"'] + name + seq!['"'];
    assert(line.take(key.len() as int) =~= key);
    first_line_is_first(lines_of(text), key, i);
    let q = |c: char| c == '"';
    let value = line.skip(key.len() as int);
    assert(!q(name[0]) && !q(name.last())) by {
        assert(name.contains(name[0]) && name.contains(name.last()));
    }
    if line == key + name {
        assert(value =~= name);
        run_len_is(name, q, 0);
        assert(name.skip(0) =~= name);
        tail_run_len_is(name, q, 0);
        assert(name.take(name.len() as int) =~= name);
    } else {
        assert(value =~= quoted);
        assert(!begins(quoted, key)) by {
            if begins(quoted, key) {
                assert(quoted.take(5)[0] == '"');
                assert(key[0] == 'N');
            }
        }
        assert(quoted[1] == name[0]);
        run_len_is(quoted, q, 1);
        let t = quoted.skip(1);
        assert(t =~= name + seq!['"']);
        assert(t[t.len() - 2] == name.last());
        tail_run_len_is(t, q, 1);
        assert(t.take(t.len() - 1) =~= name);
    }
    reveal_with_fuel(without_prefixes, 2);
}

/// A line that names the distribution does so with its key at the front, whatever the case of the
/// name and the space around the line.
pub proof fn distributions_are_recognised(front: Seq<char>, tail: Seq<char>)
    requires
        is_ascii_text(front),
        is_ascii_text(tail),
        tail.len() > 0 ==> !is_space(tail.last()),
    ensures
        names_xero("ID="@ + (front + "xero"@ + tail)),
        names_xero("NAME="@ + (front + "Xero"@ + tail)),
{
    reveal_strlit("ID=");
    reveal_strlit("NAME=");
    reveal_strlit("xero");
    reveal_strlit("Xero");
    recognised("ID="@, front, "xero"@, tail);
    recognised("NAME="@, front, "Xero"@, tail);
}

#[verifier::rlimit(60)]
#[verifier::spinoff_prover]
proof fn recognised(key: Seq<char>, front: Seq<char>, name: Seq<char>, tail: Seq<char>)
    requires
        key == "ID="@ || key == "NAME="@,
        name == "xero"@ || name == "Xero"@,
        is_ascii_text(front),
        is_ascii_text(tail),
        tail.len() > 0 ==> !is_space(tail.last()),
    ensures
        names_xero(key + (front + name + tail)),
{
    reveal_strlit("ID=");
    reveal_strlit("NAME=");
    reveal_strlit("xero");
    reveal_strlit("Xero");
    let line = key + (front + name + tail);
    let none = Seq::<char>::empty();
    assert(line[0] == key[0]);
    assert(!is_space(line[0]));
    assert(!is_space(line.last())) by {
        if tail.len() > 0 {
            assert(line.last() == tail.last());
        } else {
            assert(line.last() == 'o');
        }
    }
    trimming_takes_outer_space(none, line, none);
    assert(none + line + none =~= line);
    assert(line.take(key.len() as int) =~= key);
    assert(is_ascii_text(line)) by {
        assert forall|i: int| 0 <= i < line.len() implies (#[trigger] line[i] as u32) < 0x80 by {
            let (a, b, c) = (key.len() as int, front.len() as int, name.len() as int);
            if i < a {
                assert(line[i] == key[i]);
            } else if i < a + b {
                assert(line[i] == front[i - a]);
            } else if i < a + b + c {
                assert(line[i] == name[i - a - b]);
            } else {
                assert(line[i] == tail[i - a - b - c]);
            }
        }
    }
    let f = |c: char| crate::text::ascii_lower(c);
    let low = line.map_values(f);
    let n = (key.len() + front.len()) as int;
    assert(low.skip(n).take(4) =~= "xero"@) by {
        assert(line[n] == name[0] && line[n + 1] == name[1] && line[n + 2] == name[2] && line[n + 3]
            == name[3]);
    }
    assert(begins(low.skip(n), "xero"@));
}

/// The first graphics device that can be read is shown, whatever stands before and behind it.
pub proof fn first_device_is_shown(list: Seq<GpuFiles>, i: int)
    requires
        0 <= i < list.len(),
        gpu_of(list[i]) is Some,
        forall|j: int| 0 <= j < i ==> gpu_of(#[trigger] list[j]) is None,
    ensures
        first_gpu(list) == gpu_of(list[i])->0,
    decreases i,
{
    if i > 0 {
        assert(gpu_of(list[0]) is None);
        let rest = list.skip(1);
        assert forall|j: int| 0 <= j < i - 1 implies gpu_of(#[trigger] rest[j]) is None by {
            assert(rest[j] == list[j + 1]);
        }
        first_device_is_shown(rest, i - 1);
    }
}

/// The connectors of a graphics device are not devices, and a device is named by its maker.
pub proof fn devices_have_makers(files: GpuFiles, front: Seq<char>, tail: Seq<char>)
    ensures
        files.name@ == "card"@ + (front + "-"@ + tail) ==> gpu_of(files) is None,
        files.ids is None ==> gpu_of(files) is None,
        gpu_of(files) is Some ==> begins(gpu_of(files)->0, gpu_maker((files.ids->0).0@)),
{
    let name = "card"@ + (front + "-"@ + tail);
    held_within("card"@ + front, "-"@, tail);
    assert(("card"@ + front) + "-"@ + tail =~= name);
    if gpu_of(files) is Some {
        let maker = gpu_maker((files.ids->0).0@);
        let t = gpu_of(files)->0;
        assert(t.take(maker.len() as int) =~= maker);
    }
}

/// Memory is told in gibibytes where the whole memory has at least one, and in mebibytes otherwise.
pub proof fn memory_has_its_unit(mb: nat, whole: nat)
    ensures
        whole >= 1024 ==> memory_text(mb, whole).last() == 'G',
        whole < 1024 ==> memory_text(mb, whole) == decimal(mb).push('M'),
        whole >= 1024 && 0 < mb < 0x8_0000_0000 ==> memory_text(1024 * mb, whole) == decimal(mb).push(
            '.',
        ).push('0').push('G'),
{
    if 0 < mb < 0x8_0000_0000 {
        assert(mb * 1024 == 1024 * mb);
        whole_units_are_told(mb, 1024);
    }
}

/// The marks of its maker are taken out of the name of a processor, and nothing else is.
pub proof fn marks_are_taken_out(a: Seq<char>, b: Seq<char>, c: Seq<char>)
    requires
        is_one_word(a),
        is_one_word(c),
        forall|i: int| 0 <= i < b.len() ==> !is_space(#[trigger] b[i]),
        !a.contains('('),
        !b.contains('('),
        !c.contains('('),
    ensures
        tidy_cpu(a + ("(R)"@ + (b + ("(TM)"@ + c)))) == a + (b + c),
{
    reveal_strlit("(R)");
    reveal_strlit("(TM)");
    reveal_strlit("");
    reveal_strlit("  ");
    let (r, t, e) = ("(R)"@, "(TM)"@, ""@);
    let none = Seq::<char>::empty();
    assert(e =~= none);
    let tail = t + c;
    let s = a + (r + (b + tail));
    assert(s[0] == a[0] && s.last() == c.last());
    trimming_takes_outer_space(none, s, none);
    assert(none + s + none =~= s);
    // Without the first mark.
    replacing_starts_at_the_pattern(a, r + (b + tail), r, e);
    replacing_starts_at_the_pattern(none, b + tail, r, e);
    replacing_starts_at_the_pattern(b, tail, r, e);
    let inner = tail.skip(1);
    assert(!begins(tail, r)) by {
        if begins(tail, r) {
            assert(tail.take(3)[1] == 'T');
            assert(r[1] == 'R');
        }
    }
    assert(!inner.contains('(')) by {
        if inner.contains('(') {
            let i = choose|i: int| 0 <= i < inner.len() && inner[i] == '(';
            if i >= 3 {
                assert(inner[i] == c[i - 3]);
            }
        }
    }
    replacing_starts_at_the_pattern(inner, none, r, e);
    assert(seq![tail[0]] + inner =~= tail);
    let first = a + (b + tail);
    assert(replaced(s, r, e) =~= first);
    // Without the second one.
    replacing_starts_at_the_pattern(a, b + tail, t, e);
    replacing_starts_at_the_pattern(b, tail, t, e);
    replacing_starts_at_the_pattern(c, c, t, e);
    let second = a + (b + c);
    assert(replaced(first, t, e) =~= second);
    // There are no spaces.
    assert(!second.contains(' ')) by {
        if second.contains(' ') {
            let i = choose|i: int| 0 <= i < second.len() && second[i] == ' ';
            let (n, m) = (a.len() as int, b.len() as int);
            if i < n {
                assert(is_space(a[i]));
            } else if i < n + m {
                assert(is_space(b[i - n]));
            } else {
                assert(is_space(c[i - n - m]));
            }
        }
    }
    replacing_starts_at_the_pattern(second, none, "  "@, " "@);
    assert(second[0] == a[0] && second.last() == c.last());
    trimming_takes_outer_space(none, second, none);
    assert(none + second + none =~= second);
}

} // verus!
