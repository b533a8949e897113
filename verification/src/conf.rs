//! The configuration of pacman, and scripts that change it.
use vstd::prelude::*;
use vstd::slice::slice_subrange;

use crate::number::{decimal, decimal_parses, decimal_reads_back, decimal_text, parse_u32,
    parsed_u32};
use crate::text::{begins, find_char, from_chars, has_word, holds, index_of, is_space, is_word,
    join_texts, joined, lines, lines_of, list_has, lowered, other_than, own, pieces, push_text,
    run_len, run_len_is, same_text, space, starts_with_word, texts, to_chars, to_lower, trim,
    trim_text, trimmed, trimmed_has_no_outer_space, trimming_keeps, trimming_twice};

verus! {

// ---------------------------------------------------------------------------
// Where pacman keeps its files

/// Where pacman keeps its files.
#[derive(Debug, Clone)]
pub struct AlpmConfig {
    pub root: String,
    pub dbpath: String,
    pub cache_dirs: Vec<String>,
    pub hook_dirs: Vec<String>,
    pub gpgdir: String,
    pub logfile: String,
}

/// Where pacman keeps its files.
pub struct ConfigModel {
    pub root: Seq<char>,
    pub dbpath: Seq<char>,
    pub cache_dirs: Seq<Seq<char>>,
    pub hook_dirs: Seq<Seq<char>>,
    pub gpgdir: Seq<char>,
    pub logfile: Seq<char>,
}

impl View for AlpmConfig {
    type V = ConfigModel;

    open spec fn view(&self) -> ConfigModel {
        ConfigModel {
            root: self.root@,
            dbpath: self.dbpath@,
            cache_dirs: texts(self.cache_dirs@),
            hook_dirs: texts(self.hook_dirs@),
            gpgdir: self.gpgdir@,
            logfile: self.logfile@,
        }
    }
}

/// Where pacman keeps its files unless it is configured otherwise.
pub open spec fn default_config() -> ConfigModel {
    ConfigModel {
        root: "/"@,
        dbpath: "/var/lib/pacman"@,
        cache_dirs: seq!["/var/cache/pacman/pkg/"@],
        hook_dirs: seq!["/etc/pacman.d/hooks/"@, "/usr/share/libalpm/hooks/"@],
        gpgdir: "/etc/pacman.d/gnupg/"@,
        logfile: "/var/log/pacman.log"@,
    }
}

fn one(text: &str) -> (list: Vec<String>)
    ensures
        texts(list@) == seq![text@],
{
    let mut list: Vec<String> = Vec::new();
    list.push(own(text));
    proof {
        assert(texts(list@) =~= seq![text@]);
    }
    list
}

impl Default for AlpmConfig {
    fn default() -> (c: AlpmConfig)
        ensures
            c@ == default_config(),
    {
        let mut hook_dirs = one("/etc/pacman.d/hooks/");
        push_text(&mut hook_dirs, own("/usr/share/libalpm/hooks/"));
        proof {
            assert(texts(hook_dirs@) =~= default_config().hook_dirs);
        }
        AlpmConfig {
            root: own("/"),
            dbpath: own("/var/lib/pacman"),
            cache_dirs: one("/var/cache/pacman/pkg/"),
            hook_dirs,
            gpgdir: own("/etc/pacman.d/gnupg/"),
            logfile: own("/var/log/pacman.log"),
        }
    }
}

/// The name of the section that a trimmed line opens.
pub open spec fn section_of(t: Seq<char>) -> Option<Seq<char>> {
    if t.len() >= 2 && t[0] == '[' && t.last() == ']' {
        Some(t.subrange(1, t.len() - 1))
    } else {
        None
    }
}

fn section(t: &[char]) -> (r: Option<&[char]>)
    ensures
        match r {
            Some(name) => section_of(t@) == Some(name@),
            None => section_of(t@) is None,
        },
{
    if t.len() >= 2 && t[0] == '[' && t[t.len() - 1] == ']' {
        Some(slice_subrange(t, 1, t.len() - 1))
    } else {
        None
    }
}

/// The key and the value on a trimmed line: what stands before and after the first equals sign.
pub open spec fn setting_of(t: Seq<char>) -> Option<(Seq<char>, Seq<char>)> {
    let k = index_of(t, '=');
    if k < t.len() {
        Some((trimmed(t.take(k as int)), trimmed(t.skip(k as int + 1))))
    } else {
        None
    }
}

/// What has been read of the options.
pub struct OptionsModel {
    pub in_options: bool,
    pub config: ConfigModel,
    /// The cache and hook directories that are configured.
    pub caches: Seq<Seq<char>>,
    pub hooks: Seq<Seq<char>>,
}

/// After an option.
pub open spec fn with_option(m: OptionsModel, key: Seq<char>, value: Seq<char>) -> OptionsModel {
    if key == "RootDir"@ {
        OptionsModel { config: ConfigModel { root: value, ..m.config }, ..m }
    } else if key == "DBPath"@ {
        OptionsModel { config: ConfigModel { dbpath: value, ..m.config }, ..m }
    } else if key == "CacheDir"@ {
        OptionsModel { caches: m.caches.push(value), ..m }
    } else if key == "HookDir"@ {
        OptionsModel { hooks: m.hooks.push(value), ..m }
    } else if key == "GPGDir"@ {
        OptionsModel { config: ConfigModel { gpgdir: value, ..m.config }, ..m }
    } else if key == "LogFile"@ {
        OptionsModel { config: ConfigModel { logfile: value, ..m.config }, ..m }
    } else {
        m
    }
}

/// After a line. Comments and blank lines do not count, nor does what stands outside `[options]`.
pub open spec fn options_after(m: OptionsModel, line: Seq<char>) -> OptionsModel {
    let t = trimmed(line);
    if t.len() == 0 || t[0] == '#' {
        m
    } else {
        match section_of(t) {
            Some(name) => OptionsModel { in_options: name == "options"@, ..m },
            None => if m.in_options {
                match setting_of(t) {
                    Some((key, value)) => with_option(m, key, value),
                    None => m,
                }
            } else {
                m
            },
        }
    }
}

/// After a list of lines.
pub open spec fn options_after_lines(m: OptionsModel, list: Seq<Seq<char>>) -> OptionsModel
    decreases list.len(),
{
    if list.len() == 0 {
        m
    } else {
        options_after_lines(options_after(m, list[0]), list.skip(1))
    }
}

/// The list with one of each run of equal texts.
pub open spec fn without_repeats(list: Seq<Seq<char>>) -> Seq<Seq<char>>
    decreases list.len(),
{
    if list.len() < 2 {
        list
    } else {
        let front = without_repeats(list.drop_last());
        if front.len() > 0 && front.last() == list.last() {
            front
        } else {
            front.push(list.last())
        }
    }
}

/// Before any option has been read.
pub open spec fn no_options() -> OptionsModel {
    OptionsModel { in_options: false, config: default_config(), caches: seq![], hooks: seq![] }
}

/// Where pacman keeps its files, as `/etc/pacman.conf` says. The directory of the system's hooks is
/// always among those for hooks.
pub open spec fn config_in(content: Seq<char>) -> ConfigModel {
    let m = options_after_lines(no_options(), lines_of(content));
    ConfigModel {
        cache_dirs: if m.caches.len() > 0 {
            m.caches
        } else {
            m.config.cache_dirs
        },
        hook_dirs: if m.hooks.len() > 0 {
            without_repeats(m.hooks.push("/usr/share/libalpm/hooks/"@))
        } else {
            m.config.hook_dirs
        },
        ..m.config
    }
}

struct OptionsRead {
    in_options: bool,
    config: AlpmConfig,
    caches: Vec<String>,
    hooks: Vec<String>,
}

impl View for OptionsRead {
    type V = OptionsModel;

    closed spec fn view(&self) -> OptionsModel {
        OptionsModel {
            in_options: self.in_options,
            config: self.config@,
            caches: texts(self.caches@),
            hooks: texts(self.hooks@),
        }
    }
}

fn set_option(m: OptionsRead, key: &[char], value: String) -> (r: OptionsRead)
    ensures
        r@ == with_option(m@, key@, value@),
{
    if is_word(key, "RootDir") {
        OptionsRead { config: AlpmConfig { root: value, ..m.config }, ..m }
    } else if is_word(key, "DBPath") {
        OptionsRead { config: AlpmConfig { dbpath: value, ..m.config }, ..m }
    } else if is_word(key, "CacheDir") {
        let mut caches = m.caches;
        push_text(&mut caches, value);
        OptionsRead { caches, ..m }
    } else if is_word(key, "HookDir") {
        let mut hooks = m.hooks;
        push_text(&mut hooks, value);
        OptionsRead { hooks, ..m }
    } else if is_word(key, "GPGDir") {
        OptionsRead { config: AlpmConfig { gpgdir: value, ..m.config }, ..m }
    } else if is_word(key, "LogFile") {
        OptionsRead { config: AlpmConfig { logfile: value, ..m.config }, ..m }
    } else {
        m
    }
}

fn read_option(m: OptionsRead, line: &[char]) -> (r: OptionsRead)
    ensures
        r@ == options_after(m@, line@),
{
    let t = trim(line);
    if t.len() == 0 || t[0] == '#' {
        return m;
    }
    match section(t) {
        Some(name) => OptionsRead { in_options: is_word(name, "options"), ..m },
        None => {
            if !m.in_options {
                return m;
            }
            proof {
                assert(t@.skip(0) =~= t@);
            }
            let k = find_char(t, 0, '=');
            if k == t.len() {
                return m;
            }
            let key = slice_subrange(t, 0, k);
            let value = slice_subrange(t, k + 1, t.len());
            proof {
                assert(key@ =~= t@.take(k as int));
                assert(value@ =~= t@.skip(k + 1));
            }
            set_option(m, trim(key), from_chars(trim(value)))
        },
    }
}

fn drop_repeats(list: &Vec<String>) -> (out: Vec<String>)
    ensures
        texts(out@) == without_repeats(texts(list@)),
{
    let ghost all = texts(list@);
    let mut out: Vec<String> = Vec::new();
    proof {
        assert(texts(out@) =~= without_repeats(all.take(0)));
    }
    for i in 0..list.len()
        invariant
            all == texts(list@),
            texts(out@) == without_repeats(all.take(i as int)),
            i > 0 ==> out@.len() > 0,
    {
        proof {
            assert(all.take(i + 1).drop_last() =~= all.take(i as int));
            assert(all.take(i + 1).last() == list@[i as int]@);
        }
        let repeated = out.len() > 0 && same_text(
            out[out.len() - 1].as_str(),
            list[i].as_str(),
        );
        if !repeated {
            push_text(&mut out, own(list[i].as_str()));
        }
        proof {
            if i == 0 {
                assert(texts(out@) =~= all.take(1));
            }
        }
    }
    proof {
        assert(all.take(all.len() as int) =~= all);
    }
    out
}

impl AlpmConfig {
    /// Reads where pacman keeps its files from `/etc/pacman.conf`; without it the defaults hold.
    pub fn from_pacman_conf(content: Option<&str>) -> (c: AlpmConfig)
        ensures
            c@ == (match content {
                Some(text) => config_in(text@),
                None => default_config(),
            }),
    {
        let text = match content {
            Some(text) => text,
            None => {
                return AlpmConfig::default();
            },
        };
        let chars = to_chars(text);
        let list = lines(chars.as_slice());
        let ghost all = pieces(list@);
        let mut m = OptionsRead {
            in_options: false,
            config: AlpmConfig::default(),
            caches: Vec::new(),
            hooks: Vec::new(),
        };
        proof {
            assert(m@.caches =~= seq![]);
            assert(m@.hooks =~= seq![]);
            assert(all.skip(0) =~= all);
        }
        for i in 0..list.len()
            invariant
                all == pieces(list@),
                options_after_lines(m@, all.skip(i as int)) == options_after_lines(
                    no_options(),
                    all,
                ),
        {
            proof {
                assert(all.skip(i as int)[0] == list@[i as int]@);
                assert(all.skip(i as int).skip(1) =~= all.skip(i + 1));
            }
            m = read_option(m, list[i].as_slice());
        }
        let config = m.config;
        let mut hooks = m.hooks;
        let cache_dirs = if m.caches.len() > 0 {
            m.caches
        } else {
            config.cache_dirs
        };
        let hook_dirs = if hooks.len() > 0 {
            push_text(&mut hooks, own("/usr/share/libalpm/hooks/"));
            drop_repeats(&hooks)
        } else {
            config.hook_dirs
        };
        AlpmConfig {
            root: config.root,
            dbpath: config.dbpath,
            cache_dirs,
            hook_dirs,
            gpgdir: config.gpgdir,
            logfile: config.logfile,
        }
    }
}

// ---------------------------------------------------------------------------
// Repositories

/// The repository that a line opens.
pub open spec fn repository_in(line: Seq<char>) -> Option<Seq<char>> {
    match section_of(trimmed(line)) {
        Some(name) => if name == "options"@ {
            None
        } else {
            Some(name)
        },
        None => None,
    }
}

/// The repositories that lines open, in order.
pub open spec fn repositories_in(list: Seq<Seq<char>>) -> Seq<Seq<char>>
    decreases list.len(),
{
    if list.len() == 0 {
        seq![]
    } else {
        match repository_in(list.last()) {
            Some(name) => repositories_in(list.drop_last()).push(name),
            None => repositories_in(list.drop_last()),
        }
    }
}

/// The names of the repositories in `/etc/pacman.conf`.
pub fn read_pacman_repos(content: &str) -> (out: Vec<String>)
    ensures
        texts(out@) == repositories_in(lines_of(content@)),
{
    let chars = to_chars(content);
    let list = lines(chars.as_slice());
    let ghost all = pieces(list@);
    let mut out: Vec<String> = Vec::new();
    proof {
        assert(texts(out@) =~= repositories_in(all.take(0)));
    }
    for i in 0..list.len()
        invariant
            all == pieces(list@),
            texts(out@) == repositories_in(all.take(i as int)),
    {
        proof {
            assert(all.take(i + 1).last() == list@[i as int]@);
            assert(all.take(i + 1).drop_last() =~= all.take(i as int));
        }
        if let Some(name) = section(trim(list[i].as_slice())) {
            if !is_word(name, "options") {
                push_text(&mut out, from_chars(name));
            }
        }
    }
    proof {
        assert(all.take(all.len() as int) =~= all);
    }
    out
}

/// Whether the repository chaotic-aur is configured.
pub fn is_chaotic_aur_enabled(content: &str) -> (r: bool)
    ensures
        r == exists|i: int|
            0 <= i < lines_of(content@).len() && trimmed(#[trigger] lines_of(content@)[i])
                == "[chaotic-aur]"@,
{
    let chars = to_chars(content);
    let list = lines(chars.as_slice());
    let ghost all = pieces(list@);
    for i in 0..list.len()
        invariant
            all == pieces(list@),
            all == lines_of(content@),
            forall|j: int| 0 <= j < i ==> trimmed(#[trigger] all[j]) != "[chaotic-aur]"@,
    {
        proof {
            assert(all[i as int] == list@[i as int]@);
        }
        if is_word(trim(list[i].as_slice()), "[chaotic-aur]") {
            return true;
        }
    }
    false
}

// ---------------------------------------------------------------------------
// Parallel downloads

/// The blanks and equals signs between a key and its value.
pub open spec fn blank_or_equals() -> spec_fn(char) -> bool {
    |c: char| c == ' ' || c == '='
}

/// The number of parallel downloads that a line sets.
pub open spec fn parallel_in(line: Seq<char>) -> Option<u32> {
    let t = trimmed(line);
    if begins(t, "ParallelDownloads"@) {
        let rest = t.skip("ParallelDownloads"@.len() as int);
        parsed_u32(trimmed(rest.skip(run_len(rest, blank_or_equals()) as int)))
    } else {
        None
    }
}

/// The number of parallel downloads that the first such line sets.
pub open spec fn first_parallel(list: Seq<Seq<char>>) -> Option<u32>
    decreases list.len(),
{
    if list.len() == 0 {
        None
    } else {
        match parallel_in(list[0]) {
            Some(n) => Some(n),
            None => first_parallel(list.skip(1)),
        }
    }
}

fn value_after<'a>(s: &'a [char], key: &str) -> (value: &'a [char])
    requires
        begins(s@, key@),
    ensures
        ({
            let rest = s@.skip(key@.len() as int);
            value@ == trimmed(rest.skip(run_len(rest, blank_or_equals()) as int))
        }),
{
    let word = to_chars(key);
    let rest = slice_subrange(s, word.len(), s.len());
    proof {
        assert(rest@ =~= s@.skip(word@.len() as int));
    }
    let mut k: usize = 0;
    while k < rest.len() && (rest[k] == ' ' || rest[k] == '=')
        invariant
            k <= rest@.len(),
            forall|j: int| 0 <= j < k ==> (#[trigger] rest@[j] == ' ' || rest@[j] == '='),
        ensures
            k < rest@.len() ==> !(rest@[k as int] == ' ' || rest@[k as int] == '='),
        decreases rest@.len() - k,
    {
        k = k + 1;
    }
    let value = slice_subrange(rest, k, rest.len());
    proof {
        run_len_is(rest@, blank_or_equals(), k as nat);
        assert(value@ =~= rest@.skip(k as int));
    }
    trim(value)
}

fn parallel(line: &[char]) -> (r: Option<u32>)
    ensures
        r == parallel_in(line@),
{
    let t = trim(line);
    if !starts_with_word(t, "ParallelDownloads") {
        return None;
    }
    parse_u32(value_after(t, "ParallelDownloads"))
}

/// The number of parallel downloads that `/etc/pacman.conf` sets.
pub fn read_pacman_parallel_downloads(content: &str) -> (r: Option<u32>)
    ensures
        r == first_parallel(lines_of(content@)),
{
    let chars = to_chars(content);
    let list = lines(chars.as_slice());
    let ghost all = pieces(list@);
    proof {
        assert(all.skip(0) =~= all);
    }
    for i in 0..list.len()
        invariant
            all == pieces(list@),
            all == lines_of(content@),
            first_parallel(all) == first_parallel(all.skip(i as int)),
    {
        proof {
            assert(all.skip(i as int)[0] == list@[i as int]@);
            assert(all.skip(i as int).skip(1) =~= all.skip(i + 1));
        }
        if let Some(n) = parallel(list[i].as_slice()) {
            return Some(n);
        }
    }
    None
}

// ---------------------------------------------------------------------------
// Mirror lists

/// The equals signs and white space between a key and its value.
pub open spec fn space_or_equals() -> spec_fn(char) -> bool {
    |c: char| c == '=' || is_space(c)
}

/// The file that a line refers to; none for a comment.
pub open spec fn mirror_file_in(line: Seq<char>) -> Option<Seq<char>> {
    let t = trimmed(line);
    if !(t.len() > 0 && t[0] == '#') && begins(t, "Include"@) {
        let rest = t.skip("Include"@.len() as int);
        let path = rest.skip(run_len(rest, space_or_equals()) as int);
        if path.len() > 0 {
            Some(path)
        } else {
            None
        }
    } else {
        None
    }
}

/// The files that lines refer to, each once, in the order in which they first occur.
pub open spec fn mirror_files(list: Seq<Seq<char>>) -> Seq<Seq<char>>
    decreases list.len(),
{
    if list.len() == 0 {
        seq![]
    } else {
        let front = mirror_files(list.drop_last());
        match mirror_file_in(list.last()) {
            Some(path) => if front.contains(path) {
                front
            } else {
                front.push(path)
            },
            None => front,
        }
    }
}

/// No mirror list is brought up to date twice.
pub proof fn mirror_files_are_unique(list: Seq<Seq<char>>)
    ensures
        mirror_files(list).no_duplicates(),
    decreases list.len(),
{
    if list.len() > 0 {
        mirror_files_are_unique(list.drop_last());
    }
}

/// The command that brings a mirror list up to date.
pub open spec fn mirror_command(path: Seq<char>) -> Seq<char> {
    "rate-mirrors --allow-root --protocol https "@ + (if holds(lowered(path), "chaotic"@) {
        "chaotic-aur"@
    } else {
        "arch"@
    }) + " | tee "@ + path
}

/// The script that brings the mirror lists of `/etc/pacman.conf` up to date, or the standard one
/// where it names none.
pub open spec fn mirror_script(content: Seq<char>) -> Seq<char> {
    let files = mirror_files(lines_of(content));
    if files.len() == 0 {
        "rate-mirrors --allow-root --protocol https arch | tee /etc/pacman.d/mirrorlist"@
    } else {
        joined(files.map_values(|p: Seq<char>| mirror_command(p)), " && "@)
    }
}

fn mirror_file(line: &[char]) -> (r: Option<String>)
    ensures
        match r {
            Some(p) => mirror_file_in(line@) == Some(p@),
            None => mirror_file_in(line@) is None,
        },
{
    let t = trim(line);
    if (t.len() > 0 && t[0] == '#') || !starts_with_word(t, "Include") {
        return None;
    }
    let key = to_chars("Include");
    let rest = slice_subrange(t, key.len(), t.len());
    proof {
        assert(rest@ =~= t@.skip(key@.len() as int));
    }
    let mut k: usize = 0;
    while k < rest.len() && (rest[k] == '=' || space(rest[k]))
        invariant
            k <= rest@.len(),
            forall|j: int| 0 <= j < k ==> (#[trigger] rest@[j] == '=' || is_space(rest@[j])),
        ensures
            k < rest@.len() ==> !(rest@[k as int] == '=' || is_space(rest@[k as int])),
        decreases rest@.len() - k,
    {
        k = k + 1;
    }
    let path = slice_subrange(rest, k, rest.len());
    proof {
        run_len_is(rest@, space_or_equals(), k as nat);
        assert(path@ =~= rest@.skip(k as int));
    }
    if path.len() > 0 {
        Some(from_chars(path))
    } else {
        None
    }
}

fn command_for(path: &str) -> (out: String)
    ensures
        out@ == mirror_command(path@),
{
    let lower = to_lower(path);
    let lower_chars = to_chars(lower.as_str());
    let mut out = own("rate-mirrors --allow-root --protocol https ");
    out.append(
        if has_word(lower_chars.as_slice(), "chaotic") {
            "chaotic-aur"
        } else {
            "arch"
        },
    );
    out.append(" | tee ");
    out.append(path);
    out
}

/// The script that brings the mirror lists of `/etc/pacman.conf` up to date.
pub fn build_mirrorlist_update_script(content: &str) -> (out: String)
    ensures
        out@ == mirror_script(content@),
{
    let chars = to_chars(content);
    let list = lines(chars.as_slice());
    let ghost all = pieces(list@);
    let ghost f = |p: Seq<char>| mirror_command(p);
    let mut seen: Vec<String> = Vec::new();
    let mut commands: Vec<String> = Vec::new();
    proof {
        assert(texts(seen@) =~= mirror_files(all.take(0)));
        assert(texts(commands@) =~= texts(seen@).map_values(f));
    }
    for i in 0..list.len()
        invariant
            all == pieces(list@),
            f == (|p: Seq<char>| mirror_command(p)),
            texts(seen@) == mirror_files(all.take(i as int)),
            texts(commands@) == texts(seen@).map_values(f),
    {
        let ghost had = texts(seen@);
        proof {
            assert(all.take(i + 1).last() == list@[i as int]@);
            assert(all.take(i + 1).drop_last() =~= all.take(i as int));
        }
        if let Some(path) = mirror_file(list[i].as_slice()) {
            if !list_has(seen.as_slice(), path.as_str()) {
                push_text(&mut commands, command_for(path.as_str()));
                push_text(&mut seen, path);
                proof {
                    assert(had.push(path@).map_values(f) =~= had.map_values(f).push(f(path@)));
                }
            }
        }
    }
    proof {
        assert(all.take(all.len() as int) =~= all);
    }
    if commands.len() == 0 {
        own("rate-mirrors --allow-root --protocol https arch | tee /etc/pacman.d/mirrorlist")
    } else {
        join_texts(commands.as_slice(), " && ")
    }
}

// ---------------------------------------------------------------------------
// Packages that are not updated

/// A line without the mark of a comment.
pub open spec fn uncommented(line: Seq<char>) -> Seq<char> {
    let t = trimmed(line);
    if t.len() > 0 && t[0] == '#' {
        trimmed(t.skip(1))
    } else {
        t
    }
}

/// Whether updates leave packages out, and which.
pub struct IgnoredModel {
    pub active: bool,
    pub value: Seq<char>,
}

/// What a line says of the packages that updates leave out; a comment says which they would be.
pub open spec fn ignored_in(line: Seq<char>) -> Option<IgnoredModel> {
    let s = uncommented(line);
    if begins(s, "IgnorePkg"@) {
        let rest = s.skip("IgnorePkg"@.len() as int);
        let t = trimmed(line);
        Some(
            IgnoredModel {
                active: !(t.len() > 0 && t[0] == '#'),
                value: trimmed(rest.skip(run_len(rest, blank_or_equals()) as int)),
            },
        )
    } else {
        None
    }
}

/// What the first such line says.
pub open spec fn first_ignored(list: Seq<Seq<char>>) -> IgnoredModel
    decreases list.len(),
{
    if list.len() == 0 {
        IgnoredModel { active: false, value: seq![] }
    } else {
        match ignored_in(list[0]) {
            Some(m) => m,
            None => first_ignored(list.skip(1)),
        }
    }
}

/// Whether updates leave packages out, and which.
#[derive(Debug, Clone)]
pub struct IgnoredPackages {
    pub active: bool,
    pub value: String,
}

impl View for IgnoredPackages {
    type V = IgnoredModel;

    open spec fn view(&self) -> IgnoredModel {
        IgnoredModel { active: self.active, value: self.value@ }
    }
}

fn ignored(line: &[char]) -> (r: Option<IgnoredPackages>)
    ensures
        match r {
            Some(p) => ignored_in(line@) == Some(p@),
            None => ignored_in(line@) is None,
        },
{
    let t = trim(line);
    let commented = t.len() > 0 && t[0] == '#';
    let s = if commented {
        let rest = slice_subrange(t, 1, t.len());
        proof {
            assert(rest@ =~= t@.skip(1));
        }
        trim(rest)
    } else {
        t
    };
    if !starts_with_word(s, "IgnorePkg") {
        return None;
    }
    let value = value_after(s, "IgnorePkg");
    Some(IgnoredPackages { active: !commented, value: from_chars(value) })
}

/// Which packages `/etc/pacman.conf` leaves out of updates.
pub fn read_ignorepkg(content: &str) -> (p: IgnoredPackages)
    ensures
        p@ == first_ignored(lines_of(content@)),
{
    let chars = to_chars(content);
    let list = lines(chars.as_slice());
    let ghost all = pieces(list@);
    proof {
        assert(all.skip(0) =~= all);
    }
    for i in 0..list.len()
        invariant
            all == pieces(list@),
            all == lines_of(content@),
            first_ignored(all) == first_ignored(all.skip(i as int)),
    {
        proof {
            assert(all.skip(i as int)[0] == list@[i as int]@);
            assert(all.skip(i as int).skip(1) =~= all.skip(i + 1));
        }
        if let Some(p) = ignored(list[i].as_slice()) {
            return p;
        }
    }
    let p = IgnoredPackages { active: false, value: String::new() };
    proof {
        assert(all.skip(all.len() as int).len() == 0);
    }
    p
}

/// The line that leaves packages out of updates, or only says which they would be.
pub open spec fn ignore_line(active: bool, value: Seq<char>) -> Seq<char> {
    if active {
        "IgnorePkg = "@ + trimmed(value)
    } else {
        "#IgnorePkg = "@ + trimmed(value)
    }
}

/// The line that is written says what was asked for, except where the packages start with an equals
/// sign, which is read as that of the line.
pub proof fn ignore_line_reads_back(active: bool, value: Seq<char>)
    requires
        trimmed(value).len() > 0 ==> trimmed(value)[0] != '=',
    ensures
        ignored_in(ignore_line(active, value)) == Some(
            IgnoredModel { active, value: trimmed(value) },
        ),
{
    reveal_strlit("IgnorePkg = ");
    reveal_strlit("#IgnorePkg = ");
    reveal_strlit("IgnorePkg");
    let v = trimmed(value);
    let line = ignore_line(active, value);
    let key = "IgnorePkg"@;
    // The line without its mark and without white space at its ends.
    let bare = if v.len() == 0 {
        key + seq![' ', '=']
    } else {
        "IgnorePkg = "@ + v
    };
    let whole = if active {
        bare
    } else {
        seq!['#'] + bare
    };
    let behind = if v.len() == 0 {
        seq![' ']
    } else {
        seq![]
    };
    trimmed_has_no_outer_space(value);
    assert(line =~= whole + behind);
    assert(bare[0] == 'I');
    assert(bare.last() == (if v.len() == 0 {
        '='
    } else {
        v.last()
    }));
    assert(whole.last() == bare.last());
    trimming_keeps(whole, behind);
    trimming_keeps(bare, seq![]);
    assert(bare + seq![] =~= bare);
    if !active {
        assert(whole.skip(1) =~= bare);
    }
    assert(uncommented(line) == bare);
    assert(bare.take(key.len() as int) =~= key);
    let rest = bare.skip(key.len() as int);
    if v.len() == 0 {
        assert(rest =~= seq![' ', '=']);
        run_len_is(rest, blank_or_equals(), 2);
        assert(rest.skip(2) =~= v);
        trimming_twice(value);
    } else {
        assert(rest =~= seq![' ', '=', ' '] + v);
        assert(rest[3] == v[0]);
        run_len_is(rest, blank_or_equals(), 3);
        assert(rest.skip(3) =~= v);
        trimming_twice(value);
    }
}

/// The script that puts a line into `/etc/pacman.conf`: in the place of the one that it has, or at
/// the end.
pub open spec fn ignore_script(line: Seq<char>) -> Seq<char> {
    "grep -q 'IgnorePkg' /etc/pacman.conf && sed -i 's|^#*[[:space:]]*IgnorePkg.*|"@ + line
        + "|' /etc/pacman.conf || echo '"@ + line + "' >> /etc/pacman.conf"@
}

/// The script that changes which packages are left out of updates.
pub fn save_ignorepkg(active: bool, value: &str) -> (out: String)
    ensures
        out@ == ignore_script(ignore_line(active, value@)),
{
    let value = trim_text(value);
    let mut line = if active {
        own("IgnorePkg = ")
    } else {
        own("#IgnorePkg = ")
    };
    line.append(value.as_str());
    let mut out = own(
        "grep -q 'IgnorePkg' /etc/pacman.conf && sed -i 's|^#*[[:space:]]*IgnorePkg.*|",
    );
    out.append(line.as_str());
    out.append("|' /etc/pacman.conf || echo '");
    out.append(line.as_str());
    out.append("' >> /etc/pacman.conf");
    out
}

/// The script that sets the number of parallel downloads in `/etc/pacman.conf`.
pub open spec fn parallel_script(n: u32) -> Seq<char> {
    "grep -q 'ParallelDownloads' /etc/pacman.conf && sed -i 's/^#*[[:space:]]*ParallelDownloads.*/ParallelDownloads = "@
        + decimal(n as nat)
        + "/' /etc/pacman.conf || echo 'ParallelDownloads = "@ + decimal(n as nat)
        + "' >> /etc/pacman.conf"@
}

/// The line that sets the number of parallel downloads is read as that number.
pub proof fn parallel_line_reads_back(n: u32)
    ensures
        parallel_in("ParallelDownloads = "@ + decimal(n as nat)) == Some(n),
{
    reveal_strlit("ParallelDownloads = ");
    reveal_strlit("ParallelDownloads");
    let key = "ParallelDownloads"@;
    let d = decimal(n as nat);
    let line = "ParallelDownloads = "@ + d;
    decimal_reads_back(n as nat);
    decimal_parses(n as nat, u32::MAX as int);
    assert(line.last() == d.last());
    trimming_keeps(line, seq![]);
    assert(line + seq![] =~= line);
    assert(line.take(key.len() as int) =~= key);
    let rest = line.skip(key.len() as int);
    assert(rest =~= seq![' ', '=', ' '] + d);
    assert(rest[3] == d[0]);
    run_len_is(rest, blank_or_equals(), 3);
    assert(rest.skip(3) =~= d);
    trimming_keeps(d, seq![]);
    assert(d + seq![] =~= d);
}

/// The script that sets the number of parallel downloads. A number below none wraps around.
pub fn set_parallel_downloads(n: i32) -> (out: String)
    ensures
        out@ == parallel_script(n as u32),
{
    let value: u32 = #[verifier::truncate]
    (n as u32);
    let number = decimal_text(value as u64);
    let mut out = own(
        "grep -q 'ParallelDownloads' /etc/pacman.conf && sed -i 's/^#*[[:space:]]*ParallelDownloads.*/ParallelDownloads = ",
    );
    out.append(number.as_str());
    out.append("/' /etc/pacman.conf || echo 'ParallelDownloads = ");
    out.append(number.as_str());
    out.append("' >> /etc/pacman.conf");
    out
}

/// Whether the number of parallel downloads is none of those that the settings offer.
pub open spec fn is_custom(n: u32) -> bool {
    !(n == 5 || n == 10 || n == 15 || n == 20 || n == 25)
}

/// The number of parallel downloads that the settings show: that of pacman, or else that of the
/// program, and its text where the settings do not offer it.
pub fn shown_parallel_downloads(pacman: Option<u32>, own_setting: u32) -> (r: (u32, Option<String>))
    ensures
        r.0 == (match pacman {
            Some(n) => n,
            None => own_setting,
        }),
        match r.1 {
            Some(text) => is_custom(r.0) && text@ == decimal(r.0 as nat),
            None => !is_custom(r.0),
        },
{
    let n: u32 = match pacman {
        Some(n) => n,
        None => own_setting,
    };
    if n == 5 || n == 10 || n == 15 || n == 20 || n == 25 {
        (n, None)
    } else {
        (n, Some(decimal_text(n as u64)))
    }
}

// ---------------------------------------------------------------------------
// Laws

/// A line with an equals sign sets the key before it to the value behind it.
pub proof fn settings_are_split(key: Seq<char>, value: Seq<char>)
    requires
        !key.contains('='),
    ensures
        setting_of(key.push('=') + value) == Some((trimmed(key), trimmed(value))),
{
    let t = key.push('=') + value;
    assert forall|i: int| 0 <= i < key.len() implies other_than('=')(#[trigger] t[i]) by {
        assert(t[i] == key[i]);
    }
    assert(t[key.len() as int] == '=');
    run_len_is(t, other_than('='), key.len());
    assert(t.take(key.len() as int) =~= key);
    assert(t.skip(key.len() as int + 1) =~= value);
}

/// Every option has its own place: the last root, database, keyring and log count, and all cache and
/// hook directories are kept in order.
pub proof fn options_have_their_places(m: OptionsModel, value: Seq<char>)
    ensures
        with_option(m, "RootDir"@, value) == (OptionsModel {
            config: ConfigModel { root: value, ..m.config },
            ..m
        }),
        with_option(m, "DBPath"@, value) == (OptionsModel {
            config: ConfigModel { dbpath: value, ..m.config },
            ..m
        }),
        with_option(m, "GPGDir"@, value) == (OptionsModel {
            config: ConfigModel { gpgdir: value, ..m.config },
            ..m
        }),
        with_option(m, "LogFile"@, value) == (OptionsModel {
            config: ConfigModel { logfile: value, ..m.config },
            ..m
        }),
        with_option(m, "CacheDir"@, value) == (OptionsModel { caches: m.caches.push(value), ..m }),
        with_option(m, "HookDir"@, value) == (OptionsModel { hooks: m.hooks.push(value), ..m }),
{
    reveal_strlit("RootDir");
    reveal_strlit("DBPath");
    reveal_strlit("GPGDir");
    reveal_strlit("LogFile");
    reveal_strlit("CacheDir");
    reveal_strlit("HookDir");
    assert("RootDir"@.len() == 7 && "RootDir"@[0] == 'R');
    assert("DBPath"@.len() == 6 && "DBPath"@[0] == 'D');
    assert("GPGDir"@.len() == 6 && "GPGDir"@[0] == 'G');
    assert("LogFile"@.len() == 7 && "LogFile"@[0] == 'L');
    assert("CacheDir"@.len() == 8);
    assert("HookDir"@.len() == 7 && "HookDir"@[0] == 'H');
}

/// A setting counts only within the options, and no comment counts; a heading says which section
/// follows.
pub proof fn only_options_count(m: OptionsModel, line: Seq<char>)
    ensures
        trimmed(line).len() > 0 && trimmed(line)[0] == '#' ==> options_after(m, line) == m,
        trimmed(line).len() == 0 ==> options_after(m, line) == m,
        !m.in_options && section_of(trimmed(line)) is None ==> options_after(m, line) == m,
        m.in_options && trimmed(line).len() > 0 && trimmed(line)[0] != '#' && section_of(
            trimmed(line),
        ) is None && setting_of(trimmed(line)) is Some ==> options_after(m, line) == with_option(
            m,
            (setting_of(trimmed(line))->0).0,
            (setting_of(trimmed(line))->0).1,
        ),
        section_of(trimmed(line)) == Some("options"@) ==> options_after(m, line).in_options,
        section_of(trimmed(line)) is Some && section_of(trimmed(line)) != Some("options"@)
            ==> !options_after(m, line).in_options,
        options_after(m, line).in_options != m.in_options ==> section_of(trimmed(line)) is Some,
{
}

/// A name in square brackets is the heading of a section.
pub proof fn headings_are_read(name: Seq<char>)
    ensures
        section_of(seq!['['] + name + seq![']']) == Some(name),
{
    let t = seq!['['] + name + seq![']'];
    assert(t.subrange(1, t.len() - 1) =~= name);
}

/// Lines are read one after the other.
pub proof fn option_lines_follow(m: OptionsModel, a: Seq<Seq<char>>, b: Seq<Seq<char>>)
    ensures
        options_after_lines(m, a + b) == options_after_lines(options_after_lines(m, a), b),
    decreases a.len(),
{
    if a.len() == 0 {
        assert(a + b =~= b);
    } else {
        assert((a + b).skip(1) =~= a.skip(1) + b);
        option_lines_follow(options_after(m, a[0]), a.skip(1), b);
    }
}

/// Directories that are configured take the place of the standard ones; that of the system's hooks is
/// always among those for hooks.
pub proof fn system_hooks_are_kept(content: Seq<char>)
    ensures
        config_in(content).hook_dirs.contains("/usr/share/libalpm/hooks/"@),
        ({
            let m = options_after_lines(no_options(), lines_of(content));
            &&& m.caches.len() > 0 ==> config_in(content).cache_dirs == m.caches
            &&& m.caches.len() == 0 ==> config_in(content).cache_dirs == m.config.cache_dirs
            &&& forall|i: int|
                0 <= i < m.hooks.len() ==> config_in(content).hook_dirs.contains(
                    #[trigger] m.hooks[i],
                )
        }),
{
    let m = options_after_lines(no_options(), lines_of(content));
    let system = "/usr/share/libalpm/hooks/"@;
    if m.hooks.len() > 0 {
        let all = m.hooks.push(system);
        repeats_are_dropped(all);
        assert(all[m.hooks.len() as int] == system);
        assert forall|i: int| 0 <= i < m.hooks.len() implies config_in(content).hook_dirs.contains(
            #[trigger] m.hooks[i],
        ) by {
            assert(all[i] == m.hooks[i]);
        }
    } else {
        options_keep_hooks(no_options(), lines_of(content));
        assert(config_in(content).hook_dirs[1] == system);
    }
}

proof fn options_keep_hooks(m: OptionsModel, list: Seq<Seq<char>>)
    ensures
        options_after_lines(m, list).config.hook_dirs == m.config.hook_dirs,
    decreases list.len(),
{
    if list.len() > 0 {
        options_keep_hooks(options_after(m, list[0]), list.skip(1));
    }
}

/// Dropping repeats loses no text and leaves no two equal ones side by side.
pub proof fn repeats_are_dropped(list: Seq<Seq<char>>)
    ensures
        forall|i: int|
            0 <= i < list.len() ==> without_repeats(list).contains(#[trigger] list[i]),
        forall|i: int|
            0 <= i < without_repeats(list).len() - 1 ==> #[trigger] without_repeats(list)[i]
                != without_repeats(list)[i + 1],
        without_repeats(list).len() <= list.len(),
        list.len() > 0 ==> without_repeats(list).len() > 0 && without_repeats(list).last()
            == list.last(),
    decreases list.len(),
{
    if list.len() >= 2 {
        let rest = list.drop_last();
        let front = without_repeats(rest);
        let out = without_repeats(list);
        repeats_are_dropped(rest);
        assert forall|i: int| 0 <= i < list.len() implies out.contains(#[trigger] list[i]) by {
            if i < rest.len() {
                assert(front.contains(rest[i]));
                let j = choose|j: int| 0 <= j < front.len() && front[j] == rest[i];
                assert(out[j] == list[i]);
            } else {
                assert(out[out.len() - 1] == list[i]);
            }
        }
        assert forall|i: int| 0 <= i < out.len() - 1 implies #[trigger] out[i] != out[i + 1] by {
            if i + 1 < front.len() {
                assert(front[i] != front[i + 1]);
            }
        }
    } else if list.len() == 1 {
        assert(without_repeats(list)[0] == list[0]);
    }
}

/// The repositories are the sections but the options, in the order of the file.
pub proof fn repositories_follow_the_lines(list: Seq<Seq<char>>, line: Seq<char>)
    ensures
        section_of(trimmed(line)) is Some && section_of(trimmed(line)) != Some("options"@)
            ==> repositories_in(list.push(line)) == repositories_in(list).push(
            section_of(trimmed(line))->0,
        ),
        section_of(trimmed(line)) is None || section_of(trimmed(line)) == Some("options"@)
            ==> repositories_in(list.push(line)) == repositories_in(list),
        trimmed(line).len() > 0 && trimmed(line)[0] == '#' ==> repositories_in(list.push(line))
            == repositories_in(list),
{
    assert(list.push(line).drop_last() =~= list);
}

/// The number of parallel downloads is that of the first line that sets one.
pub proof fn first_number_counts(list: Seq<Seq<char>>, i: int)
    requires
        0 <= i < list.len(),
        parallel_in(list[i]) is Some,
        forall|j: int| 0 <= j < i ==> parallel_in(#[trigger] list[j]) is None,
    ensures
        first_parallel(list) == parallel_in(list[i]),
    decreases i,
{
    if i > 0 {
        assert(parallel_in(list[0]) is None);
        let rest = list.skip(1);
        assert forall|j: int| 0 <= j < i - 1 implies parallel_in(#[trigger] rest[j]) is None by {
            assert(rest[j] == list[j + 1]);
        }
        first_number_counts(rest, i - 1);
    }
}

/// A commented line sets no number of parallel downloads.
pub proof fn commented_numbers_do_not_count(line: Seq<char>)
    requires
        trimmed(line).len() > 0,
        trimmed(line)[0] == '#',
    ensures
        parallel_in(line) is None,
        mirror_file_in(line) is None,
{
    reveal_strlit("ParallelDownloads");
    let t = trimmed(line);
    if begins(t, "ParallelDownloads"@) {
        assert(t.take("ParallelDownloads"@.len() as int)[0] == '#');
        assert("ParallelDownloads"@[0] == 'P');
    }
}

/// The packages that updates leave out are those of the first line that names them.
pub proof fn first_ignored_counts(list: Seq<Seq<char>>, i: int)
    requires
        0 <= i < list.len(),
        ignored_in(list[i]) is Some,
        forall|j: int| 0 <= j < i ==> ignored_in(#[trigger] list[j]) is None,
    ensures
        Some(first_ignored(list)) == ignored_in(list[i]),
    decreases i,
{
    if i > 0 {
        assert(ignored_in(list[0]) is None);
        let rest = list.skip(1);
        assert forall|j: int| 0 <= j < i - 1 implies ignored_in(#[trigger] rest[j]) is None by {
            assert(rest[j] == list[j + 1]);
        }
        first_ignored_counts(rest, i - 1);
    }
}

/// Every mirror list that a line refers to is brought up to date, in the order of the file.
pub proof fn mirror_files_follow_the_lines(list: Seq<Seq<char>>, line: Seq<char>)
    ensures
        mirror_file_in(line) is None ==> mirror_files(list.push(line)) == mirror_files(list),
        mirror_file_in(line) matches Some(p) ==> mirror_files(list.push(line)).contains(p)
            && mirror_files(list).is_prefix_of(mirror_files(list.push(line)))
            && mirror_files(list.push(line)).len() <= mirror_files(list).len() + 1,
{
    assert(list.push(line).drop_last() =~= list);
    if let Some(p) = mirror_file_in(line) {
        let front = mirror_files(list);
        if !front.contains(p) {
            assert(front.push(p)[front.len() as int] == p);
        }
    }
}

/// A mirror list is written by the command that rates its mirrors: those of the chaotic repository
/// where its path says so.
pub proof fn mirror_lists_are_rated(path: Seq<char>)
    ensures
        holds(lowered(path), "chaotic"@) ==> mirror_command(path)
            == "rate-mirrors --allow-root --protocol https "@ + "chaotic-aur"@ + " | tee "@ + path,
        !holds(lowered(path), "chaotic"@) ==> mirror_command(path)
            == "rate-mirrors --allow-root --protocol https "@ + "arch"@ + " | tee "@ + path,
{
}

} // verus!
