//! Text as a sequence of characters: searching, trimming, splitting and joining.
//!
//! The executable functions work on slices of characters; the spec functions say what they compute
//! on the mathematical sequence. Pattern and trimming functions follow the methods of `str` with
//! the same purpose.
use vstd::prelude::*;
use vstd::slice::slice_subrange;
use vstd::slice::slice_to_vec;

verus! {

/// Appends `c` to the string (`String::push`).
pub assume_specification[ String::push ](s: &mut String, c: char)
    ensures
        final(s)@ == old(s)@.push(c),
;

/// The characters of every string of a list.
pub open spec fn texts(list: Seq<String>) -> Seq<Seq<char>> {
    Seq::new(list.len(), |i: int| list[i]@)
}

/// The characters of every piece of a list of pieces.
pub open spec fn pieces(list: Seq<Vec<char>>) -> Seq<Seq<char>> {
    Seq::new(list.len(), |i: int| list[i]@)
}

/// The characters of `text` as a vector.
pub fn to_chars(text: &str) -> (out: Vec<char>)
    ensures
        out@ == text@,
{
    let mut out: Vec<char> = Vec::new();
    for c in it: text.chars()
        invariant
            out@ == it.seq().take(it.index()),
            it.seq() == text@,
    {
        out.push(c);
    }
    out
}

/// The string made of `chars`.
pub fn from_chars(chars: &[char]) -> (out: String)
    ensures
        out@ == chars@,
{
    let mut out = String::new();
    for i in 0..chars.len()
        invariant
            out@ == chars@.take(i as int),
    {
        out.push(chars[i]);
    }
    out
}

/// A copy of a string slice.
pub fn own(text: &str) -> (out: String)
    ensures
        out@ == text@,
{
    text.to_owned()
}

/// Copies a list of strings.
pub fn own_all(list: &[String]) -> (out: Vec<String>)
    ensures
        texts(out@) == texts(list@),
{
    let mut out: Vec<String> = Vec::new();
    for i in 0..list.len()
        invariant
            out@.len() == i,
            forall|j: int| 0 <= j < i ==> (#[trigger] out@[j])@ == list@[j]@,
    {
        out.push(own(list[i].as_str()));
    }
    proof {
        assert(texts(out@) =~= texts(list@));
    }
    out
}

/// Copies an optional string.
pub fn own_option(value: &Option<String>) -> (out: Option<String>)
    ensures
        opt_text(out) == opt_text(*value),
{
    match value {
        Some(s) => Some(own(s.as_str())),
        None => None,
    }
}

/// The characters of an optional string.
pub open spec fn opt_text(value: Option<String>) -> Option<Seq<char>> {
    match value {
        Some(s) => Some(s@),
        None => None,
    }
}

/// The characters of an optional string slice.
pub open spec fn opt_str(s: Option<&str>) -> Option<Seq<char>> {
    match s {
        Some(t) => Some(t@),
        None => None,
    }
}

/// Adds a text to a list.
pub fn push_text(list: &mut Vec<String>, text: String)
    ensures
        texts(final(list)@) == texts(old(list)@).push(text@),
{
    let ghost before = list@;
    list.push(text);
    proof {
        assert(texts(list@) =~= texts(before).push(text@));
    }
}

/// Appends a run of characters to a buffer.
pub fn push_all(out: &mut Vec<char>, chars: &[char])
    ensures
        final(out)@ == old(out)@ + chars@,
{
    let ghost before = out@;
    for i in 0..chars.len()
        invariant
            out@ == before + chars@.take(i as int),
    {
        out.push(chars[i]);
    }
}

/// Appends the characters of a string to a buffer.
pub fn push_str(out: &mut Vec<char>, text: &str)
    ensures
        final(out)@ == old(out)@ + text@,
{
    let chars = to_chars(text);
    push_all(out, chars.as_slice());
}

/// Whether two runs of characters are the same.
pub fn same(a: &[char], b: &[char]) -> (r: bool)
    ensures
        r == (a@ == b@),
{
    if a.len() != b.len() {
        return false;
    }
    for i in 0..a.len()
        invariant
            a@.len() == b@.len(),
            forall|j: int| 0 <= j < i ==> a@[j] == b@[j],
    {
        if a[i] != b[i] {
            return false;
        }
    }
    proof {
        assert(a@ =~= b@);
    }
    true
}

/// Whether two strings hold the same characters.
pub fn same_text(a: &str, b: &str) -> (r: bool)
    ensures
        r == (a@ == b@),
{
    let x = to_chars(a);
    let y = to_chars(b);
    same(x.as_slice(), y.as_slice())
}

/// Whether the characters `a` are exactly those of `word`.
pub fn is_word(a: &[char], word: &str) -> (r: bool)
    ensures
        r == (a@ == word@),
{
    let b = to_chars(word);
    same(a, b.as_slice())
}

/// Whether a list holds the text `name`.
pub fn list_has(list: &[String], name: &str) -> (r: bool)
    ensures
        r == texts(list@).contains(name@),
{
    for i in 0..list.len()
        invariant
            forall|j: int| 0 <= j < i ==> (#[trigger] list@[j])@ != name@,
    {
        if same_text(list[i].as_str(), name) {
            proof {
                assert(texts(list@)[i as int] == name@);
            }
            return true;
        }
    }
    proof {
        assert forall|j: int| 0 <= j < texts(list@).len() implies texts(list@)[j] != name@ by {
            assert(list@[j]@ != name@);
        }
    }
    false
}

// ---------------------------------------------------------------------------
// Prefixes, suffixes and occurrences

/// Whether `s` begins with `pat`.
pub open spec fn begins(s: Seq<char>, pat: Seq<char>) -> bool {
    pat.len() <= s.len() && s.take(pat.len() as int) == pat
}

/// Whether `s` ends with `pat`.
pub open spec fn ends(s: Seq<char>, pat: Seq<char>) -> bool {
    pat.len() <= s.len() && s.skip(s.len() - pat.len()) == pat
}

/// The place of the first occurrence of `pat` in `s`.
pub open spec fn first_at(s: Seq<char>, pat: Seq<char>) -> Option<nat>
    decreases s.len(),
{
    if begins(s, pat) {
        Some(0nat)
    } else if s.len() == 0 {
        None
    } else {
        match first_at(s.skip(1), pat) {
            Some(k) => Some(k + 1),
            None => None,
        }
    }
}

/// Whether `pat` occurs in `s`.
pub open spec fn holds(s: Seq<char>, pat: Seq<char>) -> bool {
    exists|i: int| 0 <= i <= s.len() && begins(#[trigger] s.skip(i), pat)
}

/// The first occurrence, where there is one, is an occurrence with none before it.
pub proof fn first_at_is_first(s: Seq<char>, pat: Seq<char>)
    ensures
        match first_at(s, pat) {
            Some(k) => k + pat.len() <= s.len() && begins(s.skip(k as int), pat) && forall|i: int|
                0 <= i < k ==> !begins(#[trigger] s.skip(i), pat),
            None => forall|i: int| 0 <= i <= s.len() ==> !begins(#[trigger] s.skip(i), pat),
        },
        holds(s, pat) == (first_at(s, pat) is Some),
    decreases s.len(),
{
    assert(s.skip(0) =~= s);
    if !begins(s, pat) && s.len() > 0 {
        first_at_is_first(s.skip(1), pat);
        assert forall|i: int| 0 <= i <= s.skip(1).len() implies #[trigger] s.skip(1).skip(i)
            == s.skip(i + 1) by {
            assert(s.skip(1).skip(i) =~= s.skip(i + 1));
        }
        assert forall|i: int| 1 <= i <= s.len() implies #[trigger] s.skip(i) == s.skip(1).skip(
            i - 1,
        ) by {
            assert(s.skip(1).skip(i - 1) =~= s.skip(i));
        }
    }
}

/// Whether `s` begins with `pat`.
pub fn starts_with(s: &[char], pat: &[char]) -> (r: bool)
    ensures
        r == begins(s@, pat@),
{
    if pat.len() > s.len() {
        return false;
    }
    let head = slice_subrange(s, 0, pat.len());
    proof {
        assert(head@ =~= s@.take(pat@.len() as int));
    }
    same(head, pat)
}

/// Whether `s` begins with the characters of `word`.
pub fn starts_with_word(s: &[char], word: &str) -> (r: bool)
    ensures
        r == begins(s@, word@),
{
    let pat = to_chars(word);
    starts_with(s, pat.as_slice())
}

/// Whether `s` ends with the characters of `word`.
pub fn ends_with_word(s: &[char], word: &str) -> (r: bool)
    ensures
        r == ends(s@, word@),
{
    let pat = to_chars(word);
    if pat.len() > s.len() {
        return false;
    }
    let tail = slice_subrange(s, s.len() - pat.len(), s.len());
    proof {
        assert(tail@ =~= s@.skip(s@.len() - pat@.len()));
    }
    same(tail, pat.as_slice())
}

/// The place of the first occurrence of `pat` in `s`.
pub fn find(s: &[char], pat: &[char]) -> (r: Option<usize>)
    ensures
        match r {
            Some(k) => first_at(s@, pat@) == Some(k as nat) && k + pat@.len() <= s@.len(),
            None => first_at(s@, pat@) is None,
        },
{
    let n: usize = s.len();
    let mut i: usize = 0;
    proof {
        assert(s@.skip(0) =~= s@);
    }
    loop
        invariant
            i <= n,
            n == s@.len(),
            match first_at(s@.skip(i as int), pat@) {
                Some(k) => first_at(s@, pat@) == Some((k + i) as nat),
                None => first_at(s@, pat@) is None,
            },
        decreases n - i,
    {
        let rest = slice_subrange(s, i, n);
        proof {
            assert(rest@ =~= s@.skip(i as int));
        }
        if starts_with(rest, pat) {
            return Some(i);
        }
        if i == n {
            return None;
        }
        proof {
            assert(s@.skip(i as int).skip(1) =~= s@.skip(i + 1));
        }
        i = i + 1;
    }
}

/// The place of the first occurrence of `word` in `s`.
pub fn find_word(s: &[char], word: &str) -> (r: Option<usize>)
    ensures
        match r {
            Some(k) => first_at(s@, word@) == Some(k as nat) && k + word@.len() <= s@.len(),
            None => first_at(s@, word@) is None,
        },
{
    let pat = to_chars(word);
    find(s, pat.as_slice())
}

/// Whether `word` occurs in `s`.
pub fn has_word(s: &[char], word: &str) -> (r: bool)
    ensures
        r == holds(s@, word@),
{
    proof {
        first_at_is_first(s@, word@);
    }
    find_word(s, word).is_some()
}

/// Whether `pat` occurs in `s`.
pub fn has_chars(s: &[char], pat: &[char]) -> (r: bool)
    ensures
        r == holds(s@, pat@),
{
    proof {
        first_at_is_first(s@, pat@);
    }
    find(s, pat).is_some()
}

// ---------------------------------------------------------------------------
// Runs of characters

/// How many characters at the front of `s` satisfy `p`.
pub open spec fn run_len(s: Seq<char>, p: spec_fn(char) -> bool) -> nat
    decreases s.len(),
{
    if s.len() > 0 && p(s[0]) {
        1 + run_len(s.skip(1), p)
    } else {
        0
    }
}

/// How many characters at the end of `s` satisfy `p`.
pub open spec fn tail_run_len(s: Seq<char>, p: spec_fn(char) -> bool) -> nat
    decreases s.len(),
{
    if s.len() > 0 && p(s.last()) {
        1 + tail_run_len(s.drop_last(), p)
    } else {
        0
    }
}

pub proof fn run_len_bound(s: Seq<char>, p: spec_fn(char) -> bool)
    ensures
        run_len(s, p) <= s.len(),
        forall|i: int| 0 <= i < run_len(s, p) ==> p(#[trigger] s[i]),
        run_len(s, p) < s.len() ==> !p(s[run_len(s, p) as int]),
    decreases s.len(),
{
    if s.len() > 0 && p(s[0]) {
        run_len_bound(s.skip(1), p);
        assert forall|i: int| 0 <= i < run_len(s, p) implies p(#[trigger] s[i]) by {
            if i > 0 {
                assert(s.skip(1)[i - 1] == s[i]);
            }
        }
    }
}

/// A run of known length whose end is known is the run at the front.
pub proof fn run_len_is(s: Seq<char>, p: spec_fn(char) -> bool, n: nat)
    requires
        n <= s.len(),
        forall|i: int| 0 <= i < n ==> p(#[trigger] s[i]),
        n < s.len() ==> !p(s[n as int]),
    ensures
        run_len(s, p) == n,
    decreases s.len(),
{
    if n > 0 {
        assert forall|i: int| 0 <= i < n - 1 implies p(#[trigger] s.skip(1)[i]) by {
            assert(s.skip(1)[i] == s[i + 1]);
        }
        run_len_is(s.skip(1), p, (n - 1) as nat);
    }
}

pub proof fn tail_run_len_bound(s: Seq<char>, p: spec_fn(char) -> bool)
    ensures
        tail_run_len(s, p) <= s.len(),
        forall|i: int| s.len() - tail_run_len(s, p) <= i < s.len() ==> p(#[trigger] s[i]),
        tail_run_len(s, p) < s.len() ==> !p(s[s.len() - tail_run_len(s, p) - 1]),
    decreases s.len(),
{
    if s.len() > 0 && p(s.last()) {
        tail_run_len_bound(s.drop_last(), p);
        assert forall|i: int| s.len() - tail_run_len(s, p) <= i < s.len() implies p(
            #[trigger] s[i],
        ) by {
            if i < s.len() - 1 {
                assert(s.drop_last()[i] == s[i]);
            }
        }
    }
}

/// A run at the end of known length whose start is known is the run at the end.
pub proof fn tail_run_len_is(s: Seq<char>, p: spec_fn(char) -> bool, n: nat)
    requires
        n <= s.len(),
        forall|i: int| s.len() - n <= i < s.len() ==> p(#[trigger] s[i]),
        n < s.len() ==> !p(s[s.len() - n - 1]),
    ensures
        tail_run_len(s, p) == n,
    decreases s.len(),
{
    if n > 0 {
        tail_run_len_is(s.drop_last(), p, (n - 1) as nat);
    }
}

/// The characters different from `c`.
pub open spec fn other_than(c: char) -> spec_fn(char) -> bool {
    |x: char| x != c
}

/// The place of the first `c` in `s`, or the length of `s` where there is none.
pub open spec fn index_of(s: Seq<char>, c: char) -> nat {
    run_len(s, other_than(c))
}

/// The place of the first `c` at or after `from`, or the length of `s`.
pub fn find_char(s: &[char], from: usize, c: char) -> (k: usize)
    requires
        from <= s@.len(),
    ensures
        from <= k <= s@.len(),
        k == from + index_of(s@.skip(from as int), c),
        forall|j: int| from <= j < k ==> s@[j] != c,
        k < s@.len() ==> s@[k as int] == c,
{
    let mut k: usize = from;
    while k < s.len() && s[k] != c
        invariant
            from <= k <= s@.len(),
            forall|j: int| from <= j < k ==> s@[j] != c,
        ensures
            k < s@.len() ==> s@[k as int] == c,
        decreases s@.len() - k,
    {
        k = k + 1;
    }
    proof {
        let rest = s@.skip(from as int);
        run_len_is(rest, other_than(c), (k - from) as nat);
    }
    k
}

// ---------------------------------------------------------------------------
// White space and trimming

/// The characters with the Unicode property White_Space.
pub open spec fn is_space(c: char) -> bool {
    let n = c as u32;
    ||| 0x9 <= n <= 0xd
    ||| n == 0x20
    ||| n == 0x85
    ||| n == 0xa0
    ||| n == 0x1680
    ||| 0x2000 <= n <= 0x200a
    ||| n == 0x2028
    ||| n == 0x2029
    ||| n == 0x202f
    ||| n == 0x205f
    ||| n == 0x3000
}

pub open spec fn spaces() -> spec_fn(char) -> bool {
    |c: char| is_space(c)
}

pub open spec fn non_spaces() -> spec_fn(char) -> bool {
    |c: char| !is_space(c)
}

/// Whether `c` is white space (`char::is_whitespace`).
pub fn space(c: char) -> (r: bool)
    ensures
        r == is_space(c),
{
    let n: u32 = c as u32;
    (0x9 <= n && n <= 0xd) || n == 0x20 || n == 0x85 || n == 0xa0 || n == 0x1680 || (0x2000 <= n
        && n <= 0x200a) || n == 0x2028 || n == 0x2029 || n == 0x202f || n == 0x205f || n == 0x3000
}

/// `s` without the white space at its front.
pub open spec fn trimmed_start(s: Seq<char>) -> Seq<char> {
    s.skip(run_len(s, spaces()) as int)
}

/// `s` without the white space at its end.
pub open spec fn trimmed_end(s: Seq<char>) -> Seq<char> {
    s.take(s.len() - tail_run_len(s, spaces()))
}

/// `s` without the white space at either end.
pub open spec fn trimmed(s: Seq<char>) -> Seq<char> {
    trimmed_end(trimmed_start(s))
}

/// `s` without the white space at its front.
pub fn trim_start<'a>(s: &'a [char]) -> (out: &'a [char])
    ensures
        out@ == trimmed_start(s@),
{
    let mut k: usize = 0;
    while k < s.len() && space(s[k])
        invariant
            k <= s@.len(),
            forall|j: int| 0 <= j < k ==> is_space(#[trigger] s@[j]),
        ensures
            k < s@.len() ==> !is_space(s@[k as int]),
        decreases s@.len() - k,
    {
        k = k + 1;
    }
    proof {
        run_len_is(s@, spaces(), k as nat);
        assert(s@.skip(k as int) =~= s@.subrange(k as int, s@.len() as int));
    }
    slice_subrange(s, k, s.len())
}

/// `s` without the white space at its end.
pub fn trim_end<'a>(s: &'a [char]) -> (out: &'a [char])
    ensures
        out@ == trimmed_end(s@),
{
    let mut k: usize = s.len();
    while k > 0 && space(s[k - 1])
        invariant
            k <= s@.len(),
            forall|j: int| k <= j < s@.len() ==> is_space(#[trigger] s@[j]),
        ensures
            k > 0 ==> !is_space(s@[k - 1]),
        decreases k,
    {
        k = k - 1;
    }
    proof {
        tail_run_len_is(s@, spaces(), (s@.len() - k) as nat);
        assert(s@.take(k as int) =~= s@.subrange(0, k as int));
    }
    slice_subrange(s, 0, k)
}

/// `s` without the white space at either end.
pub fn trim<'a>(s: &'a [char]) -> (out: &'a [char])
    ensures
        out@ == trimmed(s@),
{
    trim_end(trim_start(s))
}

/// Whether a text is not empty.
pub fn filled(s: &str) -> (r: bool)
    ensures
        r == (s@.len() > 0),
{
    !s.is_empty()
}

/// A text without the white space at either end.
pub fn trim_text(s: &str) -> (out: String)
    ensures
        out@ == trimmed(s@),
{
    let chars = to_chars(s);
    from_chars(trim(chars.as_slice()))
}

/// Trimming leaves text without white space at its ends.
pub proof fn trimmed_has_no_outer_space(s: Seq<char>)
    ensures
        trimmed(s).len() > 0 ==> !is_space(trimmed(s)[0]) && !is_space(trimmed(s).last()),
{
    let t = trimmed_start(s);
    run_len_bound(s, spaces());
    tail_run_len_bound(t, spaces());
    if trimmed(s).len() > 0 {
        assert(trimmed(s)[0] == t[0]);
        assert(t[0] == s[run_len(s, spaces()) as int]);
    }
}

/// Text without white space at its ends stays as it is, also with white space behind it.
pub proof fn trimming_keeps(s: Seq<char>, behind: Seq<char>)
    requires
        s.len() > 0,
        !is_space(s[0]),
        !is_space(s.last()),
        forall|i: int| 0 <= i < behind.len() ==> is_space(#[trigger] behind[i]),
    ensures
        trimmed(s + behind) == s,
{
    let whole = s + behind;
    assert(whole[0] == s[0]);
    run_len_is(whole, spaces(), 0);
    assert(trimmed_start(whole) =~= whole);
    assert forall|i: int| whole.len() - behind.len() <= i < whole.len() implies spaces()(
        #[trigger] whole[i],
    ) by {
        assert(whole[i] == behind[i - s.len()]);
    }
    assert(whole[s.len() - 1] == s.last());
    tail_run_len_is(whole, spaces(), behind.len());
    assert(trimmed(whole) =~= s);
}

/// What is trimmed needs no more trimming.
pub proof fn trimming_twice(s: Seq<char>)
    ensures
        trimmed(trimmed(s)) == trimmed(s),
{
    let t = trimmed(s);
    trimmed_has_no_outer_space(s);
    if t.len() > 0 {
        trimming_keeps(t, seq![]);
        assert(t + seq![] =~= t);
    }
}

// ---------------------------------------------------------------------------
// Letter case

/// Whether all of `s` is ASCII.
pub open spec fn is_ascii_text(s: Seq<char>) -> bool {
    forall|i: int| 0 <= i < s.len() ==> (#[trigger] s[i] as u32) < 0x80
}

/// An ASCII letter in lower case; any other character as it is.
pub open spec fn ascii_lower(c: char) -> char {
    if 'A' <= c <= 'Z' {
        (c as u32 + 32) as char
    } else {
        c
    }
}

/// The lower case of text that is not all ASCII.
pub uninterp spec fn unicode_lowercase(s: Seq<char>) -> Seq<char>;

/// The upper case of text that is not all ASCII.
pub uninterp spec fn unicode_uppercase(s: Seq<char>) -> Seq<char>;

/// Whether a character beyond ASCII is upper case.
pub uninterp spec fn unicode_is_uppercase(c: char) -> bool;

/// An ASCII letter in upper case; any other character as it is.
pub open spec fn ascii_upper(c: char) -> char {
    if 'a' <= c <= 'z' {
        (c as u32 - 32) as char
    } else {
        c
    }
}

/// The lower case of `s`.
pub open spec fn lowered(s: Seq<char>) -> Seq<char> {
    if is_ascii_text(s) {
        s.map_values(|c: char| ascii_lower(c))
    } else {
        unicode_lowercase(s)
    }
}

/// The upper case of `s`.
pub open spec fn uppered(s: Seq<char>) -> Seq<char> {
    if is_ascii_text(s) {
        s.map_values(|c: char| ascii_upper(c))
    } else {
        unicode_uppercase(s)
    }
}

/// Whether `c` is an upper-case letter.
pub open spec fn is_upper(c: char) -> bool {
    if (c as u32) < 0x80 {
        'A' <= c <= 'Z'
    } else {
        unicode_is_uppercase(c)
    }
}

/// `str::to_lowercase`: ASCII text has its letters replaced one by one. What becomes of other text
/// is left to the name.
#[verifier::external_body]
pub(crate) fn to_lower(s: &str) -> (out: String)
    ensures
        out@ == (if is_ascii_text(s@) {
            s@.map_values(|c: char| ascii_lower(c))
        } else {
            unicode_lowercase(s@)
        }),
{
    s.to_lowercase()
}

/// `str::to_uppercase`: ASCII text has its letters replaced one by one. What becomes of other text
/// is left to the name.
#[verifier::external_body]
pub(crate) fn to_upper(s: &str) -> (out: String)
    ensures
        out@ == (if is_ascii_text(s@) {
            s@.map_values(|c: char| ascii_upper(c))
        } else {
            unicode_uppercase(s@)
        }),
{
    s.to_uppercase()
}

/// `char::is_uppercase`: among the ASCII characters the capital letters. Which others belong to
/// the class is left to the name.
pub assume_specification[ char::is_uppercase ](c: char) -> (r: bool)
    ensures
        r == (if (c as u32) < 0x80 {
            'A' <= c <= 'Z'
        } else {
            unicode_is_uppercase(c)
        }),
;

// ---------------------------------------------------------------------------
// Splitting

/// The pieces of `s` between the occurrences of `c` (`str::split`).
pub open spec fn split_on(s: Seq<char>, c: char) -> Seq<Seq<char>>
    decreases s.len(),
{
    let k = index_of(s, c);
    if k < s.len() {
        seq![s.take(k as int)] + split_on(s.skip(k as int + 1), c)
    } else {
        seq![s]
    }
}

/// `s` without one carriage return at its end.
pub open spec fn without_cr(s: Seq<char>) -> Seq<char> {
    if s.len() > 0 && s.last() == '\r' {
        s.drop_last()
    } else {
        s
    }
}

/// The lines of `s` (`str::lines`): each ends at a line feed, a carriage return before the line
/// feed belongs to the ending, and the last line needs no ending.
pub open spec fn lines_of(s: Seq<char>) -> Seq<Seq<char>>
    decreases s.len(),
{
    let k = index_of(s, '\n');
    if s.len() == 0 {
        seq![]
    } else if k < s.len() {
        seq![without_cr(s.take(k as int))] + lines_of(s.skip(k as int + 1))
    } else {
        seq![s]
    }
}

/// The words of `s` (`str::split_whitespace`).
pub open spec fn words_of(s: Seq<char>) -> Seq<Seq<char>>
    decreases s.len(),
    via words_of_decreases
{
    let t = trimmed_start(s);
    if t.len() == 0 {
        seq![]
    } else {
        let k = run_len(t, non_spaces());
        seq![t.take(k as int)] + words_of(t.skip(k as int))
    }
}

#[via_fn]
proof fn words_of_decreases(s: Seq<char>) {
    let t = trimmed_start(s);
    run_len_bound(s, spaces());
    if t.len() > 0 {
        run_len_bound(t, non_spaces());
        assert(t[0] == s[run_len(s, spaces()) as int]);
    }
}

/// Splitting always leaves a piece.
pub proof fn split_is_not_empty(s: Seq<char>, c: char)
    ensures
        split_on(s, c).len() > 0,
{
}

/// The pieces of `s` between the occurrences of `c`.
pub fn split_char(s: &[char], c: char) -> (out: Vec<Vec<char>>)
    ensures
        pieces(out@) == split_on(s@, c),
{
    let mut out: Vec<Vec<char>> = Vec::new();
    let mut start: usize = 0;
    proof {
        assert(s@.skip(0) =~= s@);
        assert(pieces(out@) + split_on(s@, c) =~= split_on(s@, c));
    }
    loop
        invariant
            start <= s@.len(),
            pieces(out@) + split_on(s@.skip(start as int), c) == split_on(s@, c),
        decreases s@.len() - start,
    {
        let ghost rest = s@.skip(start as int);
        let ghost before = pieces(out@);
        let k = find_char(s, start, c);
        let piece = slice_to_vec(slice_subrange(s, start, k));
        proof {
            assert(piece@ =~= rest.take(k - start));
        }
        out.push(piece);
        proof {
            assert(pieces(out@) =~= before.push(piece@));
        }
        if k == s.len() {
            proof {
                assert(piece@ =~= rest);
                assert(pieces(out@) =~= before + split_on(rest, c));
            }
            return out;
        }
        proof {
            assert(rest.skip(k - start + 1) =~= s@.skip(k + 1));
            assert(pieces(out@) + split_on(s@.skip(k + 1), c) =~= before + split_on(rest, c));
        }
        start = k + 1;
    }
}

/// The lines of `s`.
pub fn lines(s: &[char]) -> (out: Vec<Vec<char>>)
    ensures
        pieces(out@) == lines_of(s@),
{
    let mut out: Vec<Vec<char>> = Vec::new();
    let mut start: usize = 0;
    proof {
        assert(s@.skip(0) =~= s@);
        assert(pieces(out@) + lines_of(s@) =~= lines_of(s@));
    }
    while start < s.len()
        invariant
            start <= s@.len(),
            pieces(out@) + lines_of(s@.skip(start as int)) == lines_of(s@),
        decreases s@.len() - start,
    {
        let ghost rest = s@.skip(start as int);
        let ghost before = pieces(out@);
        let k = find_char(s, start, '\n');
        if k == s.len() {
            let piece = slice_to_vec(slice_subrange(s, start, k));
            proof {
                assert(piece@ =~= rest);
            }
            out.push(piece);
            proof {
                assert(s@.skip(k as int) =~= Seq::<char>::empty());
                assert(pieces(out@) + lines_of(s@.skip(k as int)) =~= before + lines_of(rest));
            }
            start = k;
        } else {
            let end: usize = if k > start && s[k - 1] == '\r' {
                k - 1
            } else {
                k
            };
            let piece = slice_to_vec(slice_subrange(s, start, end));
            proof {
                assert(rest.take(k - start) =~= s@.subrange(start as int, k as int));
                assert(piece@ =~= without_cr(rest.take(k - start)));
            }
            out.push(piece);
            proof {
                assert(rest.skip(k - start + 1) =~= s@.skip(k + 1));
                assert(pieces(out@) =~= before.push(piece@));
                assert(pieces(out@) + lines_of(s@.skip(k + 1)) =~= before + lines_of(rest));
            }
            start = k + 1;
        }
    }
    proof {
        assert(s@.skip(start as int) =~= Seq::<char>::empty());
        assert(pieces(out@) + lines_of(s@.skip(start as int)) =~= pieces(out@));
    }
    out
}

/// The words of `s`.
pub fn words(s: &[char]) -> (out: Vec<Vec<char>>)
    ensures
        pieces(out@) == words_of(s@),
{
    let mut out: Vec<Vec<char>> = Vec::new();
    let mut start: usize = 0;
    proof {
        assert(s@.skip(0) =~= s@);
        assert(pieces(out@) + words_of(s@) =~= words_of(s@));
    }
    loop
        invariant
            start <= s@.len(),
            pieces(out@) + words_of(s@.skip(start as int)) == words_of(s@),
        decreases s@.len() - start,
    {
        let ghost before = pieces(out@);
        let rest = slice_subrange(s, start, s.len());
        proof {
            assert(rest@ =~= s@.skip(start as int));
            run_len_bound(rest@, spaces());
        }
        let t = trim_start(rest);
        if t.len() == 0 {
            proof {
                assert(pieces(out@) + words_of(rest@) =~= pieces(out@));
            }
            return out;
        }
        let mut k: usize = 0;
        while k < t.len() && !space(t[k])
            invariant
                k <= t@.len(),
                forall|j: int| 0 <= j < k ==> !is_space(#[trigger] t@[j]),
            ensures
                k < t@.len() ==> is_space(t@[k as int]),
            decreases t@.len() - k,
        {
            k = k + 1;
        }
        proof {
            run_len_is(t@, non_spaces(), k as nat);
        }
        let piece = slice_to_vec(slice_subrange(t, 0, k));
        out.push(piece);
        let next: usize = s.len() - (t.len() - k);
        proof {
            assert(piece@ =~= t@.take(k as int));
            assert(t@.skip(k as int) =~= s@.skip(next as int));
            assert(pieces(out@) =~= before.push(piece@));
            assert(pieces(out@) + words_of(s@.skip(next as int)) =~= before + words_of(rest@));
            assert(t@[0] == rest@[run_len(rest@, spaces()) as int]);
        }
        start = next;
    }
}

// ---------------------------------------------------------------------------
// Joining and replacing

/// The pieces put together with `sep` between them.
pub open spec fn joined(list: Seq<Seq<char>>, sep: Seq<char>) -> Seq<char>
    decreases list.len(),
{
    if list.len() == 0 {
        seq![]
    } else if list.len() == 1 {
        list[0]
    } else {
        joined(list.drop_last(), sep) + sep + list.last()
    }
}

/// The pieces put together with `sep` between them.
pub fn join(list: &[Vec<char>], sep: &str) -> (out: Vec<char>)
    ensures
        out@ == joined(pieces(list@), sep@),
{
    let mut out: Vec<char> = Vec::new();
    let sep_chars = to_chars(sep);
    for i in 0..list.len()
        invariant
            sep_chars@ == sep@,
            out@ == joined(pieces(list@).take(i as int), sep@),
    {
        let ghost upto = pieces(list@).take(i + 1);
        proof {
            assert(upto.drop_last() =~= pieces(list@).take(i as int));
        }
        if i > 0 {
            push_all(&mut out, sep_chars.as_slice());
        }
        push_all(&mut out, list[i].as_slice());
        proof {
            assert(out@ =~= joined(upto, sep@));
        }
    }
    proof {
        assert(pieces(list@).take(list@.len() as int) =~= pieces(list@));
    }
    out
}

/// The strings put together with `sep` between them.
pub fn join_texts(list: &[String], sep: &str) -> (out: String)
    ensures
        out@ == joined(texts(list@), sep@),
{
    let mut out = String::new();
    for i in 0..list.len()
        invariant
            out@ == joined(texts(list@).take(i as int), sep@),
    {
        let ghost upto = texts(list@).take(i + 1);
        proof {
            assert(upto.drop_last() =~= texts(list@).take(i as int));
        }
        if i > 0 {
            out.append(sep);
        }
        out.append(list[i].as_str());
        proof {
            assert(out@ =~= joined(upto, sep@));
        }
    }
    proof {
        assert(texts(list@).take(list@.len() as int) =~= texts(list@));
    }
    out
}

/// `s` with every occurrence of `from` replaced by `to`, from left to right (`str::replace` for a
/// pattern that is not empty).
pub open spec fn replaced(s: Seq<char>, from: Seq<char>, to: Seq<char>) -> Seq<char>
    decreases s.len(),
{
    if s.len() == 0 || from.len() == 0 {
        s
    } else if begins(s, from) {
        to + replaced(s.skip(from.len() as int), from, to)
    } else {
        seq![s[0]] + replaced(s.skip(1), from, to)
    }
}

/// `s` with every occurrence of `from` replaced by `to`.
pub fn replace(s: &[char], from: &str, to: &str) -> (out: Vec<char>)
    ensures
        out@ == replaced(s@, from@, to@),
{
    let pat = to_chars(from);
    let sub = to_chars(to);
    let mut out: Vec<char> = Vec::new();
    if pat.len() == 0 {
        push_all(&mut out, s);
        proof {
            assert(out@ =~= s@);
        }
        return out;
    }
    let mut i: usize = 0;
    proof {
        assert(s@.skip(0) =~= s@);
        assert(out@ + replaced(s@, from@, to@) =~= replaced(s@, from@, to@));
    }
    while i < s.len()
        invariant
            i <= s@.len(),
            pat@ == from@,
            pat@.len() > 0,
            sub@ == to@,
            out@ + replaced(s@.skip(i as int), from@, to@) == replaced(s@, from@, to@),
        decreases s@.len() - i,
    {
        let rest = slice_subrange(s, i, s.len());
        let ghost before = out@;
        proof {
            assert(rest@ =~= s@.skip(i as int));
        }
        if starts_with(rest, pat.as_slice()) {
            push_all(&mut out, sub.as_slice());
            proof {
                assert(rest@.skip(pat@.len() as int) =~= s@.skip(i + pat@.len()));
                assert(out@ + replaced(s@.skip(i + pat@.len()), from@, to@) =~= before + replaced(
                    rest@,
                    from@,
                    to@,
                ));
            }
            i = i + pat.len();
        } else {
            out.push(s[i]);
            proof {
                assert(rest@.skip(1) =~= s@.skip(i + 1));
                assert(out@ + replaced(s@.skip(i + 1), from@, to@) =~= before + replaced(
                    rest@,
                    from@,
                    to@,
                ));
            }
            i = i + 1;
        }
    }
    proof {
        assert(s@.skip(i as int) =~= Seq::<char>::empty());
        assert(out@ + replaced(s@.skip(i as int), from@, to@) =~= out@);
    }
    out
}

// ---------------------------------------------------------------------------
// Laws

/// Trimming takes away all white space around text, and nothing of the text.
pub proof fn trimming_takes_outer_space(front: Seq<char>, s: Seq<char>, behind: Seq<char>)
    requires
        forall|i: int| 0 <= i < front.len() ==> is_space(#[trigger] front[i]),
        forall|i: int| 0 <= i < behind.len() ==> is_space(#[trigger] behind[i]),
        s.len() > 0 ==> !is_space(s[0]) && !is_space(s.last()),
    ensures
        trimmed(front + s + behind) == s,
{
    let whole = front + s + behind;
    if s.len() == 0 {
        assert forall|i: int| 0 <= i < whole.len() implies spaces()(#[trigger] whole[i]) by {
            if i < front.len() {
                assert(whole[i] == front[i]);
            } else {
                assert(whole[i] == behind[i - front.len()]);
            }
        }
        run_len_is(whole, spaces(), whole.len());
        assert(trimmed_start(whole) =~= Seq::<char>::empty());
        assert(trimmed(whole) =~= s);
    } else {
        let n = front.len();
        assert forall|i: int| 0 <= i < n implies spaces()(#[trigger] whole[i]) by {
            assert(whole[i] == front[i]);
        }
        assert(whole[n as int] == s[0]);
        run_len_is(whole, spaces(), n);
        assert(trimmed_start(whole) =~= s + behind);
        trimming_keeps(s, behind);
        let t = s + behind;
        assert(t[0] == s[0]);
        run_len_is(t, spaces(), 0);
        assert(trimmed_start(t) =~= t);
    }
}

/// Whether a text is a word: not empty, and without white space.
pub open spec fn is_one_word(s: Seq<char>) -> bool {
    s.len() > 0 && forall|i: int| 0 <= i < s.len() ==> !is_space(#[trigger] s[i])
}

/// The pieces at white space are words.
pub proof fn words_are_words(s: Seq<char>)
    ensures
        forall|i: int| 0 <= i < words_of(s).len() ==> is_one_word(#[trigger] words_of(s)[i]),
    decreases s.len(),
{
    let t = trimmed_start(s);
    run_len_bound(s, spaces());
    if t.len() > 0 {
        let k = run_len(t, non_spaces());
        run_len_bound(t, non_spaces());
        assert(t[0] == s[run_len(s, spaces()) as int]);
        let w = t.take(k as int);
        assert(is_one_word(w));
        words_are_words(t.skip(k as int));
        assert forall|i: int| 0 <= i < words_of(s).len() implies is_one_word(
            #[trigger] words_of(s)[i],
        ) by {
            if i > 0 {
                assert(words_of(s)[i] == words_of(t.skip(k as int))[i - 1]);
            }
        }
    }
}

/// A word is the only word of itself, and white space has none.
pub proof fn single_word(s: Seq<char>)
    ensures
        is_one_word(s) ==> words_of(s) == seq![s],
        (forall|i: int| 0 <= i < s.len() ==> is_space(#[trigger] s[i])) ==> words_of(s)
            == Seq::<Seq<char>>::empty(),
{
    if is_one_word(s) {
        run_len_is(s, spaces(), 0);
        assert(trimmed_start(s) =~= s);
        run_len_is(s, non_spaces(), s.len());
        assert(s.take(s.len() as int) =~= s);
        let rest = s.skip(s.len() as int);
        assert(trimmed_start(rest).len() == 0) by {
            run_len_bound(rest, spaces());
        }
        assert(words_of(rest) =~= Seq::<Seq<char>>::empty());
        assert(words_of(s) =~= seq![s]);
    }
    if forall|i: int| 0 <= i < s.len() ==> is_space(#[trigger] s[i]) {
        run_len_is(s, spaces(), s.len());
        assert(trimmed_start(s) =~= Seq::<char>::empty());
    }
}

/// White space separates words: the words on both sides follow one another.
pub proof fn words_on_both_sides(a: Seq<char>, c: char, b: Seq<char>)
    requires
        is_space(c),
    ensures
        words_of(a.push(c) + b) == words_of(a) + words_of(b),
    decreases a.len(),
{
    let s = a.push(c) + b;
    let k = run_len(a, spaces());
    run_len_bound(a, spaces());
    if k == a.len() {
        let m = run_len(b, spaces());
        run_len_bound(b, spaces());
        assert forall|i: int| 0 <= i < k + 1 + m implies spaces()(#[trigger] s[i]) by {
            if i < k {
                assert(s[i] == a[i]);
            } else if i > k {
                assert(s[i] == b[i - k - 1]);
            }
        }
        if m < b.len() {
            assert(s[(k + 1 + m) as int] == b[m as int]);
        }
        run_len_is(s, spaces(), k + 1 + m);
        assert(trimmed_start(s) =~= trimmed_start(b));
        assert(trimmed_start(a).len() == 0);
        assert(words_of(a) + words_of(b) =~= words_of(b));
        assert(words_of(s) =~= words_of(b));
    } else {
        assert forall|i: int| 0 <= i < k implies spaces()(#[trigger] s[i]) by {
            assert(s[i] == a[i]);
        }
        assert(s[k as int] == a[k as int]);
        run_len_is(s, spaces(), k);
        let t = a.skip(k as int);
        let u = t.push(c) + b;
        assert(trimmed_start(s) =~= u);
        let n = run_len(t, non_spaces());
        run_len_bound(t, non_spaces());
        assert(t[0] == a[k as int]);
        assert(n > 0);
        assert forall|i: int| 0 <= i < n implies non_spaces()(#[trigger] u[i]) by {
            assert(u[i] == t[i]);
        }
        if n < t.len() {
            assert(u[n as int] == t[n as int]);
        } else {
            assert(u[n as int] == c);
        }
        run_len_is(u, non_spaces(), n);
        let rest = t.skip(n as int);
        assert(u.take(n as int) =~= t.take(n as int));
        assert(u.skip(n as int) =~= rest.push(c) + b);
        words_on_both_sides(rest, c, b);
        assert(words_of(s) =~= words_of(a) + words_of(b));
    }
}

/// A line feed ends a line, together with a carriage return before it, and the lines behind it
/// follow.
pub proof fn lines_follow(a: Seq<char>, b: Seq<char>)
    requires
        !a.contains('\n'),
    ensures
        a.len() == 0 || a.last() != '\r' ==> lines_of(a.push('\n') + b) == seq![a] + lines_of(b),
        lines_of(a.push('\r').push('\n') + b) == seq![a] + lines_of(b),
{
    let s = a.push('\n') + b;
    line_feed_at(a, b);
    assert(s.take(a.len() as int) =~= a);
    assert(s.skip(a.len() as int + 1) =~= b);
    let r = a.push('\r');
    let u = r.push('\n') + b;
    assert(!r.contains('\n')) by {
        if r.contains('\n') {
            let i = choose|i: int| 0 <= i < r.len() && r[i] == '\n';
            assert(a[i] == '\n');
        }
    }
    line_feed_at(r, b);
    assert(u.take(r.len() as int) =~= r);
    assert(u.skip(r.len() as int + 1) =~= b);
    assert(r.drop_last() =~= a);
}

proof fn line_feed_at(a: Seq<char>, b: Seq<char>)
    requires
        !a.contains('\n'),
    ensures
        index_of(a.push('\n') + b, '\n') == a.len(),
{
    let s = a.push('\n') + b;
    assert forall|i: int| 0 <= i < a.len() implies other_than('\n')(#[trigger] s[i]) by {
        assert(s[i] == a[i]);
    }
    assert(s[a.len() as int] == '\n');
    run_len_is(s, other_than('\n'), a.len());
}

/// Text without a line feed is one line, and no text is none.
pub proof fn single_line(a: Seq<char>)
    requires
        !a.contains('\n'),
    ensures
        a.len() > 0 ==> lines_of(a) == seq![a],
        a.len() == 0 ==> lines_of(a) == Seq::<Seq<char>>::empty(),
{
    assert forall|i: int| 0 <= i < a.len() implies other_than('\n')(#[trigger] a[i]) by {}
    run_len_is(a, other_than('\n'), a.len());
}

/// The lines of text that ends with a line feed and of text behind it follow one another.
pub proof fn lines_on_both_sides(a: Seq<char>, b: Seq<char>)
    ensures
        lines_of(a.push('\n') + b) == lines_of(a.push('\n')) + lines_of(b),
    decreases a.len(),
{
    let k = index_of(a, '\n');
    run_len_bound(a, other_than('\n'));
    let s = a.push('\n') + b;
    let u = a.push('\n');
    let head = a.take(k as int);
    assert(!head.contains('\n'));
    assert forall|i: int| 0 <= i < k implies other_than('\n')(#[trigger] s[i]) && other_than(
        '\n',
    )(u[i]) by {
        assert(s[i] == a[i] && u[i] == a[i]);
    }
    assert(s[k as int] == '\n' && u[k as int] == '\n') by {
        if k < a.len() {
            assert(s[k as int] == a[k as int] && u[k as int] == a[k as int]);
        }
    }
    run_len_is(s, other_than('\n'), k);
    assert forall|i: int| 0 <= i < k implies other_than('\n')(#[trigger] u[i]) by {
        assert(u[i] == a[i]);
    }
    run_len_is(u, other_than('\n'), k);
    assert(s.take(k as int) =~= head);
    assert(u.take(k as int) =~= head);
    if k < a.len() {
        let rest = a.skip(k as int + 1);
        assert(s.skip(k as int + 1) =~= rest.push('\n') + b);
        assert(u.skip(k as int + 1) =~= rest.push('\n'));
        lines_on_both_sides(rest, b);
    } else {
        assert(s.skip(k as int + 1) =~= b);
        assert(u.skip(k as int + 1) =~= Seq::<char>::empty());
        assert(lines_of(u.skip(k as int + 1)) =~= Seq::<Seq<char>>::empty());
    }
    assert(lines_of(s) == seq![without_cr(head)] + lines_of(s.skip(k as int + 1)));
    assert(lines_of(u) == seq![without_cr(head)] + lines_of(u.skip(k as int + 1)));
    assert(lines_of(s) =~= lines_of(u) + lines_of(b));
}

/// A separator ends a piece, and the pieces behind it follow; without one there is one piece.
pub proof fn pieces_follow(a: Seq<char>, c: char, b: Seq<char>)
    requires
        !a.contains(c),
    ensures
        split_on(a.push(c) + b, c) == seq![a] + split_on(b, c),
        split_on(a, c) == seq![a],
{
    let s = a.push(c) + b;
    assert forall|i: int| 0 <= i < a.len() implies other_than(c)(#[trigger] s[i]) by {
        assert(s[i] == a[i]);
    }
    assert(s[a.len() as int] == c);
    run_len_is(s, other_than(c), a.len());
    assert(s.take(a.len() as int) =~= a);
    assert(s.skip(a.len() as int + 1) =~= b);
    assert forall|i: int| 0 <= i < a.len() implies other_than(c)(#[trigger] a[i]) by {}
    run_len_is(a, other_than(c), a.len());
}

/// The last piece is what stands behind the last separator.
pub proof fn last_piece(a: Seq<char>, c: char, b: Seq<char>)
    requires
        !b.contains(c),
    ensures
        split_on(a.push(c) + b, c).last() == b,
    decreases a.len(),
{
    let k = index_of(a, c);
    run_len_bound(a, other_than(c));
    let s = a.push(c) + b;
    assert forall|i: int| 0 <= i < k implies other_than(c)(#[trigger] s[i]) by {
        assert(s[i] == a[i]);
    }
    assert(s[k as int] == c) by {
        if k < a.len() {
            assert(s[k as int] == a[k as int]);
        }
    }
    run_len_is(s, other_than(c), k);
    if k < a.len() {
        let rest = a.skip(k as int + 1);
        assert(s.skip(k as int + 1) =~= rest.push(c) + b);
        last_piece(rest, c, b);
    } else {
        assert(s.skip(k as int + 1) =~= b);
        pieces_follow(b, c, seq![]);
    }
}

/// Joined pieces start with the first one and the separator.
pub proof fn joined_front(list: Seq<Seq<char>>, sep: Seq<char>)
    requires
        list.len() > 1,
    ensures
        joined(list, sep) == list[0] + sep + joined(list.skip(1), sep),
    decreases list.len(),
{
    let front = list.drop_last();
    if list.len() == 2 {
        assert(front =~= seq![list[0]]);
        assert(list.skip(1) =~= seq![list[1]]);
        assert(joined(front, sep) == list[0]);
        assert(joined(list.skip(1), sep) == list[1]);
    } else {
        joined_front(front, sep);
        assert(front.skip(1) =~= list.skip(1).drop_last());
        assert(joined(list.skip(1), sep) == joined(front.skip(1), sep) + sep + list.last());
    }
    assert(joined(list, sep) == joined(front, sep) + sep + list.last());
    assert(joined(list, sep) =~= list[0] + sep + joined(list.skip(1), sep));
}

/// What is joined with a separator that no piece contains is split into the same pieces.
pub proof fn joined_pieces_split(list: Seq<Seq<char>>, c: char)
    requires
        list.len() > 0,
        forall|i: int| 0 <= i < list.len() ==> !(#[trigger] list[i]).contains(c),
    ensures
        split_on(joined(list, seq![c]), c) == list,
    decreases list.len(),
{
    assert(!list[0].contains(c));
    if list.len() == 1 {
        pieces_follow(list[0], c, seq![]);
        assert(list =~= seq![list[0]]);
    } else {
        let rest = list.skip(1);
        assert forall|i: int| 0 <= i < rest.len() implies !(#[trigger] rest[i]).contains(c) by {
            assert(rest[i] == list[i + 1]);
        }
        joined_pieces_split(rest, c);
        joined_front(list, seq![c]);
        let more = joined(rest, seq![c]);
        assert(list[0] + seq![c] + more =~= list[0].push(c) + more);
        pieces_follow(list[0], c, more);
        assert(list =~= seq![list[0]] + rest);
    }
}

/// Replacing a character by another changes exactly the places that hold it.
pub proof fn characters_are_replaced(s: Seq<char>, c: char, d: char)
    ensures
        replaced(s, seq![c], seq![d]) == s.map_values(
            |x: char|
                if x == c {
                    d
                } else {
                    x
                },
        ),
    decreases s.len(),
{
    let f = |x: char|
        if x == c {
            d
        } else {
            x
        };
    if s.len() > 0 {
        let rest = s.skip(1);
        characters_are_replaced(rest, c, d);
        assert(s.take(1) =~= seq![s[0]]);
        assert(begins(s, seq![c]) == (s[0] == c)) by {
            if s[0] == c {
                assert(s.take(1) =~= seq![c]);
            } else {
                assert(s.take(1)[0] != seq![c][0]);
            }
        }
        assert(replaced(s, seq![c], seq![d]) =~= seq![f(s[0])] + rest.map_values(f));
    }
    assert(replaced(s, seq![c], seq![d]) =~= s.map_values(f));
}

/// A pattern is found where it first stands: behind text without its first character.
pub proof fn found_behind(front: Seq<char>, pat: Seq<char>, tail: Seq<char>)
    requires
        pat.len() > 0,
        !front.contains(pat[0]),
    ensures
        first_at(front + pat + tail, pat) == Some(front.len()),
    decreases front.len(),
{
    let s = front + pat + tail;
    if front.len() == 0 {
        assert(s.take(pat.len() as int) =~= pat);
    } else {
        assert(!begins(s, pat)) by {
            if begins(s, pat) {
                assert(s.take(pat.len() as int)[0] == front[0]);
            }
        }
        let rest = front.skip(1);
        assert(!rest.contains(pat[0])) by {
            if rest.contains(pat[0]) {
                let i = choose|i: int| 0 <= i < rest.len() && rest[i] == pat[0];
                assert(front[i + 1] == pat[0]);
            }
        }
        assert(s.skip(1) =~= rest + pat + tail);
        found_behind(rest, pat, tail);
    }
}

/// A pattern is not found in text without its first character.
pub proof fn not_found(s: Seq<char>, pat: Seq<char>)
    requires
        pat.len() > 0,
        !s.contains(pat[0]),
    ensures
        first_at(s, pat) is None,
        !holds(s, pat),
{
    first_at_is_first(s, pat);
    if let Some(k) = first_at(s, pat) {
        assert(s.skip(k as int).take(pat.len() as int)[0] == s[k as int]);
    }
}

/// A pattern is held by every text around it.
pub proof fn held_within(front: Seq<char>, pat: Seq<char>, tail: Seq<char>)
    ensures
        holds(front + pat + tail, pat),
{
    let s = front + pat + tail;
    assert(s.skip(front.len() as int).take(pat.len() as int) =~= pat);
    assert(begins(s.skip(front.len() as int), pat));
}

/// Space around a text makes no difference to its words.
pub proof fn trimming_keeps_words(s: Seq<char>)
    ensures
        words_of(trimmed(s)) == words_of(s),
        words_of(trimmed_end(s)) == words_of(s),
{
    let t = trimmed_start(s);
    run_len_bound(s, spaces());
    assert(words_of(t) == words_of(s)) by {
        if t.len() > 0 {
            assert(t[0] == s[run_len(s, spaces()) as int]);
        }
        run_len_is(t, spaces(), 0);
        assert(t.skip(0) =~= t);
    }
    end_has_no_words(t);
    end_has_no_words(s);
}

proof fn end_has_no_words(s: Seq<char>)
    ensures
        words_of(trimmed_end(s)) == words_of(s),
    decreases s.len(),
{
    if s.len() > 0 && is_space(s.last()) {
        let front = s.drop_last();
        end_has_no_words(front);
        tail_run_len_bound(front, spaces());
        assert(trimmed_end(s) =~= trimmed_end(front));
        words_on_both_sides(front, s.last(), seq![]);
        assert(front.push(s.last()) + Seq::<char>::empty() =~= s);
        single_word(Seq::<char>::empty());
        assert(words_of(front) + Seq::<Seq<char>>::empty() =~= words_of(front));
    } else {
        assert(trimmed_end(s) =~= s);
    }
}

/// Words that are put together with spaces between them are told apart again.
pub proof fn joined_words_are_words(list: Seq<Seq<char>>)
    requires
        forall|i: int| 0 <= i < list.len() ==> is_one_word(#[trigger] list[i]),
    ensures
        words_of(joined(list, " "@)) == list,
    decreases list.len(),
{
    reveal_strlit(" ");
    if list.len() == 0 {
        single_word(Seq::<char>::empty());
        assert(list =~= seq![]);
    } else if list.len() == 1 {
        assert(is_one_word(list[0]));
        single_word(list[0]);
        assert(list =~= seq![list[0]]);
    } else {
        let front = list.drop_last();
        assert forall|i: int| 0 <= i < front.len() implies is_one_word(#[trigger] front[i]) by {
            assert(front[i] == list[i]);
        }
        joined_words_are_words(front);
        let a = joined(front, " "@);
        assert(" "@ =~= seq![' ']);
        assert(a + " "@ + list.last() =~= a.push(' ') + list.last());
        words_on_both_sides(a, ' ', list.last());
        assert(is_one_word(list[list.len() - 1]));
        single_word(list.last());
        assert(front + seq![list.last()] =~= list);
    }
}

/// Replacing changes nothing before the first character with which the pattern begins.
pub proof fn replacing_starts_at_the_pattern(
    front: Seq<char>,
    behind: Seq<char>,
    from: Seq<char>,
    to: Seq<char>,
)
    requires
        from.len() > 0,
        !front.contains(from[0]),
    ensures
        replaced(front + behind, from, to) == front + replaced(behind, from, to),
        replaced(front, from, to) == front,
        replaced(from + behind, from, to) == to + replaced(behind, from, to),
    decreases front.len(),
{
    let s = front + behind;
    if front.len() == 0 {
        assert(s =~= behind);
        assert(front + replaced(behind, from, to) =~= replaced(behind, from, to));
    } else {
        let more = front.skip(1);
        assert(!more.contains(from[0])) by {
            if more.contains(from[0]) {
                let i = choose|i: int| 0 <= i < more.len() && more[i] == from[0];
                assert(front[i + 1] == from[0]);
            }
        }
        replacing_starts_at_the_pattern(more, behind, from, to);
        assert(front.contains(front[0]));
        assert(s[0] == front[0]);
        assert(!begins(s, from)) by {
            if begins(s, from) {
                assert(s.take(from.len() as int)[0] == s[0]);
            }
        }
        assert(!begins(front, from)) by {
            if begins(front, from) {
                assert(front.take(from.len() as int)[0] == front[0]);
            }
        }
        assert(s.skip(1) =~= more + behind);
        assert(seq![front[0]] + (more + replaced(behind, from, to)) =~= front + replaced(
            behind,
            from,
            to,
        ));
        assert(seq![front[0]] + more =~= front);
    }
    let t = from + behind;
    assert(t.take(from.len() as int) =~= from);
    assert(t.skip(from.len() as int) =~= behind);
}

} // verus!
