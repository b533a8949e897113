//! Package versions and the order on them.
use std::cmp::Ordering;
use vstd::prelude::*;
use vstd::slice::slice_subrange;

use crate::number::{all_digits, decimal, decimal_is_unique, decimal_parses, decimal_reads_back,
    digit_char, parse_u32, parsed_u32};
use crate::order::{first_difference_decides, int_order, order_chars, order_lengths, text_order,
    text_order_chains, text_order_equal, text_order_flips, Precedence};
use crate::text::{find_char, from_chars, index_of, is_ascii_text, other_than, own, run_len,
    run_len_bound, run_len_is, same_text, tail_run_len, tail_run_len_bound, tail_run_len_is,
    to_chars};

verus! {

// ---------------------------------------------------------------------------
// Character classes

/// The ASCII digits.
pub open spec fn is_digit(c: char) -> bool {
    '0' <= c <= '9'
}

/// The ASCII letters.
pub open spec fn is_ascii_letter(c: char) -> bool {
    'a' <= c <= 'z' || 'A' <= c <= 'Z'
}

/// Whether a character beyond ASCII has the Unicode property Alphabetic.
pub uninterp spec fn unicode_alphabetic(c: char) -> bool;

/// Whether a character beyond ASCII is alphabetic or a number in the sense of Unicode.
pub uninterp spec fn unicode_alphanumeric(c: char) -> bool;

/// The alphabetic characters.
pub open spec fn is_letter(c: char) -> bool {
    if (c as u32) < 0x80 {
        is_ascii_letter(c)
    } else {
        unicode_alphabetic(c)
    }
}

/// The characters that belong to a part of a version.
pub open spec fn is_alnum(c: char) -> bool {
    if (c as u32) < 0x80 {
        is_ascii_letter(c) || is_digit(c)
    } else {
        unicode_alphanumeric(c)
    }
}

/// `char::is_alphabetic`: the property Alphabetic, which among the ASCII characters only the
/// letters have. Which characters beyond ASCII have it is left to the name.
pub assume_specification[ char::is_alphabetic ](c: char) -> (r: bool)
    ensures
        r == (if (c as u32) < 0x80 {
            is_ascii_letter(c)
        } else {
            unicode_alphabetic(c)
        }),
;

/// `char::is_alphanumeric`: among the ASCII characters the letters and the digits. Which
/// characters beyond ASCII belong to the class is left to the name.
pub assume_specification[ char::is_alphanumeric ](c: char) -> (r: bool)
    ensures
        r == (if (c as u32) < 0x80 {
            is_ascii_letter(c) || is_digit(c)
        } else {
            unicode_alphanumeric(c)
        }),
;

pub open spec fn digits() -> spec_fn(char) -> bool {
    |c: char| is_digit(c)
}

pub open spec fn letters() -> spec_fn(char) -> bool {
    |c: char| is_letter(c)
}

pub open spec fn separators() -> spec_fn(char) -> bool {
    |c: char| !is_alnum(c)
}

/// Whether `c` is an ASCII digit.
pub fn digit(c: char) -> (r: bool)
    ensures
        r == is_digit(c),
{
    '0' <= c && c <= '9'
}

// ---------------------------------------------------------------------------
// The parts of a version

/// A part of a version: a run of digits or a run of letters. The empty word stands for a
/// character that is alphanumeric, but neither a letter nor an ASCII digit: nothing after it counts.
pub enum Part {
    Number(Seq<char>),
    Word(Seq<char>),
}

/// The parts of a version text.
pub open spec fn parts(s: Seq<char>) -> Seq<Part>
    decreases s.len(),
    via parts_decreases
{
    let t = s.skip(run_len(s, separators()) as int);
    if t.len() == 0 {
        seq![]
    } else if is_digit(t[0]) {
        let k = run_len(t, digits());
        seq![Part::Number(t.take(k as int))] + parts(t.skip(k as int))
    } else {
        let k = run_len(t, letters());
        if k == 0 {
            seq![Part::Word(seq![])]
        } else {
            seq![Part::Word(t.take(k as int))] + parts(t.skip(k as int))
        }
    }
}

#[via_fn]
proof fn parts_decreases(s: Seq<char>) {
    run_len_bound(s, separators());
    let t = s.skip(run_len(s, separators()) as int);
    if t.len() > 0 {
        run_len_bound(t, digits());
        run_len_bound(t, letters());
    }
}

/// The order of two parts: a word comes before a number, a shorter number before a longer one.
pub open spec fn part_order(a: Part, b: Part) -> Precedence {
    match (a, b) {
        (Part::Number(x), Part::Number(y)) => if x.len() != y.len() {
            int_order(x.len() as int, y.len() as int)
        } else {
            text_order(x, y)
        },
        (Part::Word(x), Part::Word(y)) => text_order(x, y),
        (Part::Number(_), Part::Word(_)) => Precedence::Greater,
        (Part::Word(_), Part::Number(_)) => Precedence::Less,
    }
}

/// The order of two lists of parts: the first parts that differ decide, and a list comes before
/// its continuations.
pub open spec fn parts_order(a: Seq<Part>, b: Seq<Part>) -> Precedence
    decreases a.len(),
{
    if a.len() == 0 || b.len() == 0 {
        int_order(min_len(a, 1), min_len(b, 1))
    } else {
        match part_order(a[0], b[0]) {
            Precedence::Equal => parts_order(a.skip(1), b.skip(1)),
            decided => decided,
        }
    }
}

pub open spec fn min_len(a: Seq<Part>, most: int) -> int {
    if a.len() < most {
        a.len() as int
    } else {
        most
    }
}

/// Whether two lists of parts agree up to an empty word in both, where no order is defined.
pub open spec fn undecided(a: Seq<Part>, b: Seq<Part>) -> bool
    decreases a.len(),
{
    a.len() > 0 && b.len() > 0 && a[0] == b[0] && (a[0] == Part::Word(seq![]) || undecided(
        a.skip(1),
        b.skip(1),
    ))
}

pub proof fn part_order_equal(a: Part, b: Part)
    ensures
        (part_order(a, b) == Precedence::Equal) == (a == b),
{
    match (a, b) {
        (Part::Number(x), Part::Number(y)) => text_order_equal(x, y),
        (Part::Word(x), Part::Word(y)) => text_order_equal(x, y),
        _ => {},
    }
}

proof fn part_order_flips(a: Part, b: Part)
    ensures
        part_order(b, a) == part_order(a, b).flipped(),
{
    match (a, b) {
        (Part::Number(x), Part::Number(y)) => text_order_flips(x, y),
        (Part::Word(x), Part::Word(y)) => text_order_flips(x, y),
        _ => {},
    }
}

proof fn part_order_chains(a: Part, b: Part, c: Part)
    requires
        part_order(a, b) != Precedence::Greater,
        part_order(b, c) != Precedence::Greater,
    ensures
        part_order(a, c) != Precedence::Greater,
        part_order(a, c) == Precedence::Equal ==> part_order(a, b) == Precedence::Equal
            && part_order(b, c) == Precedence::Equal,
{
    match (a, b, c) {
        (Part::Number(x), Part::Number(y), Part::Number(z)) => {
            if x.len() == y.len() && y.len() == z.len() {
                text_order_chains(x, y, z);
            }
        },
        (Part::Word(x), Part::Word(y), Part::Word(z)) => text_order_chains(x, y, z),
        _ => {},
    }
}

pub proof fn parts_order_equal(a: Seq<Part>, b: Seq<Part>)
    ensures
        (parts_order(a, b) == Precedence::Equal) == (a == b),
    decreases a.len(),
{
    if a.len() == 0 || b.len() == 0 {
        if a.len() == b.len() {
            assert(a =~= b);
        }
    } else {
        part_order_equal(a[0], b[0]);
        parts_order_equal(a.skip(1), b.skip(1));
        if a[0] == b[0] && a.skip(1) == b.skip(1) {
            assert(a =~= seq![a[0]] + a.skip(1));
            assert(b =~= seq![b[0]] + b.skip(1));
        }
    }
}

pub proof fn parts_order_flips(a: Seq<Part>, b: Seq<Part>)
    ensures
        parts_order(b, a) == parts_order(a, b).flipped(),
    decreases a.len(),
{
    if a.len() > 0 && b.len() > 0 {
        part_order_flips(a[0], b[0]);
        parts_order_flips(a.skip(1), b.skip(1));
    }
}

pub proof fn parts_order_chains(a: Seq<Part>, b: Seq<Part>, c: Seq<Part>)
    requires
        parts_order(a, b) != Precedence::Greater,
        parts_order(b, c) != Precedence::Greater,
    ensures
        parts_order(a, c) != Precedence::Greater,
        parts_order(a, c) == Precedence::Equal ==> parts_order(a, b) == Precedence::Equal
            && parts_order(b, c) == Precedence::Equal,
    decreases a.len(),
{
    if a.len() > 0 && b.len() > 0 && c.len() > 0 {
        part_order_chains(a[0], b[0], c[0]);
        part_order_equal(a[0], b[0]);
        part_order_equal(b[0], c[0]);
        if a[0] == b[0] && b[0] == c[0] {
            parts_order_chains(a.skip(1), b.skip(1), c.skip(1));
        }
    }
}

// ---------------------------------------------------------------------------
// Comparing two version texts

fn skip_separators(s: &[char], from: usize) -> (k: usize)
    requires
        from <= s@.len(),
    ensures
        from <= k <= s@.len(),
        k - from == run_len(s@.skip(from as int), separators()),
        k < s@.len() ==> is_alnum(s@[k as int]),
{
    let mut k: usize = from;
    while k < s.len() && !s[k].is_alphanumeric()
        invariant
            from <= k <= s@.len(),
            forall|j: int| from <= j < k ==> !is_alnum(#[trigger] s@[j]),
        ensures
            k < s@.len() ==> is_alnum(s@[k as int]),
        decreases s@.len() - k,
    {
        k = k + 1;
    }
    proof {
        run_len_is(s@.skip(from as int), separators(), (k - from) as nat);
    }
    k
}

fn skip_digits(s: &[char], from: usize) -> (k: usize)
    requires
        from <= s@.len(),
    ensures
        from <= k <= s@.len(),
        k - from == run_len(s@.skip(from as int), digits()),
{
    let mut k: usize = from;
    while k < s.len() && digit(s[k])
        invariant
            from <= k <= s@.len(),
            forall|j: int| from <= j < k ==> is_digit(#[trigger] s@[j]),
        ensures
            k < s@.len() ==> !is_digit(s@[k as int]),
        decreases s@.len() - k,
    {
        k = k + 1;
    }
    proof {
        run_len_is(s@.skip(from as int), digits(), (k - from) as nat);
    }
    k
}

fn skip_letters(s: &[char], from: usize) -> (k: usize)
    requires
        from <= s@.len(),
    ensures
        from <= k <= s@.len(),
        k - from == run_len(s@.skip(from as int), letters()),
{
    let mut k: usize = from;
    while k < s.len() && s[k].is_alphabetic()
        invariant
            from <= k <= s@.len(),
            forall|j: int| from <= j < k ==> is_letter(#[trigger] s@[j]),
        ensures
            k < s@.len() ==> !is_letter(s@[k as int]),
        decreases s@.len() - k,
    {
        k = k + 1;
    }
    proof {
        run_len_is(s@.skip(from as int), letters(), (k - from) as nat);
    }
    k
}

/// The part that starts at a place where a part starts, and the parts after it.
proof fn parts_step(s: Seq<char>, i: int, k: int)
    requires
        0 <= i <= k < s.len(),
        k - i == run_len(s.skip(i), separators()),
        is_alnum(s[k]),
    ensures
        is_digit(s[k]) ==> {
            let n = run_len(s.skip(k), digits());
            &&& 0 < n <= s.len() - k
            &&& parts(s.skip(i)) == seq![Part::Number(s.subrange(k, k + n))] + parts(s.skip(k + n))
        },
        !is_digit(s[k]) ==> {
            let n = run_len(s.skip(k), letters());
            &&& n <= s.len() - k
            &&& parts(s.skip(i)) == (if n == 0 {
                seq![Part::Word(seq![])]
            } else {
                seq![Part::Word(s.subrange(k, k + n))] + parts(s.skip(k + n))
            })
        },
{
    let t = s.skip(i).skip(k - i);
    assert(t =~= s.skip(k));
    run_len_bound(t, digits());
    run_len_bound(t, letters());
    let n = run_len(t, digits());
    assert(t.take(n as int) =~= s.subrange(k, k + n));
    assert(t.skip(n as int) =~= s.skip(k + n));
    let m = run_len(t, letters());
    assert(t.take(m as int) =~= s.subrange(k, k + m));
    assert(t.skip(m as int) =~= s.skip(k + m));
}

/// Compares two version texts, or gives `None` where no order is defined.
pub fn order_versions(a: &[char], b: &[char]) -> (r: Option<Precedence>)
    ensures
        r is None == undecided(parts(a@), parts(b@)),
        r matches Some(p) ==> p == parts_order(parts(a@), parts(b@)),
{
    let mut i: usize = 0;
    let mut j: usize = 0;
    proof {
        assert(a@.skip(0) =~= a@);
        assert(b@.skip(0) =~= b@);
    }
    loop
        invariant
            i <= a@.len(),
            j <= b@.len(),
            parts_order(parts(a@), parts(b@)) == parts_order(
                parts(a@.skip(i as int)),
                parts(b@.skip(j as int)),
            ),
            undecided(parts(a@), parts(b@)) == undecided(
                parts(a@.skip(i as int)),
                parts(b@.skip(j as int)),
            ),
        decreases a@.len() - i,
    {
        let p = skip_separators(a, i);
        let q = skip_separators(b, j);
        let ghost xs = parts(a@.skip(i as int));
        let ghost ys = parts(b@.skip(j as int));
        proof {
            assert(a@.skip(i as int).skip(p - i) =~= a@.skip(p as int));
            assert(b@.skip(j as int).skip(q - j) =~= b@.skip(q as int));
            if p < a@.len() {
                parts_step(a@, i as int, p as int);
            }
            if q < b@.len() {
                parts_step(b@, j as int, q as int);
            }
        }
        if p == a.len() || q == b.len() {
            proof {
                assert(p == a@.len() ==> xs.len() == 0);
                assert(q == b@.len() ==> ys.len() == 0);
            }
            return Some(order_lengths(if p == a.len() { 0 } else { 1 }, if q == b.len() { 0 } else { 1 }));
        }
        let a_number = digit(a[p]);
        let b_number = digit(b[q]);
        if a_number != b_number {
            return Some(if a_number { Precedence::Greater } else { Precedence::Less });
        }
        let (u, v) = if a_number {
            (skip_digits(a, p), skip_digits(b, q))
        } else {
            (skip_letters(a, p), skip_letters(b, q))
        };
        let x = slice_subrange(a, p, u);
        let y = slice_subrange(b, q, v);
        let order = if a_number && x.len() != y.len() {
            order_lengths(x.len(), y.len())
        } else {
            order_chars(x, y)
        };
        proof {
            part_order_equal(xs[0], ys[0]);
            if u == p && !a_number {
                assert(x@ =~= Seq::<char>::empty());
            }
            if v == q && !a_number {
                assert(y@ =~= Seq::<char>::empty());
            }
            assert(order == part_order(xs[0], ys[0]));
            if order == Precedence::Equal && u > p {
                assert(xs.skip(1) =~= parts(a@.skip(u as int)));
                assert(ys.skip(1) =~= parts(b@.skip(v as int)));
            }
        }
        if order != Precedence::Equal {
            return Some(order);
        }
        if u == p {
            return None;
        }
        i = u;
        j = v;
    }
}

/// Compares two version texts the way pacman does.
pub fn vercmp(a: &str, b: &str) -> (r: Ordering)
    requires
        !undecided(parts(a@), parts(b@)),
    ensures
        r == compared(a@, b@),
{
    let x = to_chars(a);
    let y = to_chars(b);
    match order_versions(x.as_slice(), y.as_slice()) {
        Some(p) => ordering(p),
        None => Ordering::Equal,
    }
}

/// The outcome as std's type.
pub open spec fn ordering_of(p: Precedence) -> Ordering {
    match p {
        Precedence::Less => Ordering::Less,
        Precedence::Equal => Ordering::Equal,
        Precedence::Greater => Ordering::Greater,
    }
}

/// The outcome of comparing two version texts, as std's type.
pub open spec fn compared(a: Seq<char>, b: Seq<char>) -> Ordering {
    ordering_of(parts_order(parts(a), parts(b)))
}

/// The outcome as std's type.
pub fn ordering(p: Precedence) -> (r: Ordering)
    ensures
        r == ordering_of(p),
{
    match p {
        Precedence::Less => Ordering::Less,
        Precedence::Equal => Ordering::Equal,
        Precedence::Greater => Ordering::Greater,
    }
}

// ---------------------------------------------------------------------------
// Versions

/// A package version: an optional epoch, the upstream version and the release of the package.
#[derive(Debug, Clone, Eq, Hash)]
pub struct Version {
    pub full: String,
    pub epoch: Option<u32>,
    pub pkgver: String,
    pub pkgrel: String,
}

/// The contents of a version.
pub struct VersionModel {
    pub full: Seq<char>,
    pub epoch: Option<u32>,
    pub pkgver: Seq<char>,
    pub pkgrel: Seq<char>,
}

impl View for Version {
    type V = VersionModel;

    open spec fn view(&self) -> VersionModel {
        VersionModel {
            full: self.full@,
            epoch: self.epoch,
            pkgver: self.pkgver@,
            pkgrel: self.pkgrel@,
        }
    }
}

/// The place of the last `c` in `s`, where there is one.
pub open spec fn last_index_of(s: Seq<char>, c: char) -> Option<int> {
    let n = tail_run_len(s, other_than(c));
    if n < s.len() {
        Some(s.len() - n - 1)
    } else {
        None
    }
}

/// The version that `s` writes. What stands before the first colon is the epoch, where it is a
/// number; what follows the last hyphen after that is the release.
pub open spec fn version_of(s: Seq<char>) -> VersionModel {
    let colon = index_of(s, ':');
    let (epoch, rest) = if colon < s.len() {
        (parsed_u32(s.take(colon as int)), s.skip(colon as int + 1))
    } else {
        (None, s)
    };
    let (pkgver, pkgrel) = match last_index_of(rest, '-') {
        Some(k) => (rest.take(k), rest.skip(k + 1)),
        None => (rest, Seq::<char>::empty()),
    };
    VersionModel { full: s, epoch, pkgver, pkgrel }
}

/// The place of the last `c` in `s`, where there is one.
pub fn find_last_char(s: &[char], c: char) -> (r: Option<usize>)
    ensures
        match r {
            Some(k) => k < s@.len() && last_index_of(s@, c) == Some(k as int),
            None => last_index_of(s@, c) is None,
        },
{
    let mut k: usize = s.len();
    while k > 0
        invariant
            k <= s@.len(),
            forall|j: int| k <= j < s@.len() ==> s@[j] != c,
        decreases k,
    {
        if s[k - 1] == c {
            proof {
                tail_run_len_is(s@, other_than(c), (s@.len() - k) as nat);
            }
            return Some(k - 1);
        }
        k = k - 1;
    }
    proof {
        tail_run_len_is(s@, other_than(c), s@.len());
    }
    None
}

/// The last place of a character holds it.
pub proof fn last_index_holds(s: Seq<char>, c: char)
    ensures
        last_index_of(s, c) matches Some(k) ==> 0 <= k < s.len() && s[k] == c,
{
    tail_run_len_bound(s, other_than(c));
}

/// Before text without a character, the character is the last one.
pub proof fn last_index_is(front: Seq<char>, c: char, behind: Seq<char>)
    requires
        !behind.contains(c),
    ensures
        last_index_of(front.push(c) + behind, c) == Some(front.len() as int),
{
    let s = front.push(c) + behind;
    assert(s[front.len() as int] == c);
    assert forall|i: int| s.len() - behind.len() <= i < s.len() implies other_than(c)(
        #[trigger] s[i],
    ) by {
        assert(s[i] == behind[i - front.len() - 1]);
    }
    tail_run_len_is(s, other_than(c), behind.len());
}

impl Version {
    /// Reads a version. Every text is one.
    pub fn new(version_str: &str) -> (v: Version)
        ensures
            v@ == version_of(version_str@),
    {
        let s = to_chars(version_str);
        let all = s.as_slice();
        let colon = find_char(all, 0, ':');
        proof {
            assert(s@.skip(0) =~= s@);
        }
        let (epoch, rest) = if colon < all.len() {
            let head = slice_subrange(all, 0, colon);
            let tail = slice_subrange(all, colon + 1, all.len());
            proof {
                assert(head@ =~= s@.take(colon as int));
                assert(tail@ =~= s@.skip(colon + 1));
            }
            (parse_u32(head), tail)
        } else {
            (None, all)
        };
        let (pkgver, pkgrel) = match find_last_char(rest, '-') {
            Some(k) => {
                let head = slice_subrange(rest, 0, k);
                let tail = slice_subrange(rest, k + 1, rest.len());
                proof {
                    assert(head@ =~= rest@.take(k as int));
                    assert(tail@ =~= rest@.skip(k + 1));
                }
                (from_chars(head), from_chars(tail))
            },
            None => (from_chars(rest), String::new()),
        };
        proof {
            assert(pkgrel@ =~= (match last_index_of(rest@, '-') {
                Some(k) => rest@.skip(k + 1),
                None => Seq::<char>::empty(),
            }));
        }
        Version { full: own(version_str), epoch, pkgver, pkgrel }
    }

    /// The version as it was written.
    pub fn to_string(&self) -> (out: String)
        ensures
            out@ == self@.full,
    {
        own(self.full.as_str())
    }

    /// A copy of the version.
    pub fn copied(&self) -> (out: Version)
        ensures
            out@ == self@,
    {
        Version {
            full: own(self.full.as_str()),
            epoch: self.epoch,
            pkgver: own(self.pkgver.as_str()),
            pkgrel: own(self.pkgrel.as_str()),
        }
    }

    /// Compares two versions, or gives `None` where no order is defined.
    pub fn order(&self, other: &Version) -> (r: Option<Precedence>)
        ensures
            r is None == version_undecided(self@, other@),
            r matches Some(p) ==> p == version_order(self@, other@),
    {
        match (self.epoch, other.epoch) {
            (Some(a), Some(b)) => {
                if a != b {
                    return Some(if a < b { Precedence::Less } else { Precedence::Greater });
                }
            },
            (Some(_), None) => {
                return Some(Precedence::Greater);
            },
            (None, Some(_)) => {
                return Some(Precedence::Less);
            },
            (None, None) => {},
        }
        let a = to_chars(self.pkgver.as_str());
        let b = to_chars(other.pkgver.as_str());
        match order_versions(a.as_slice(), b.as_slice()) {
            Some(Precedence::Equal) => {
                let c = to_chars(self.pkgrel.as_str());
                let d = to_chars(other.pkgrel.as_str());
                order_versions(c.as_slice(), d.as_slice())
            },
            decided => decided,
        }
    }

    /// Compares two versions: the epoch first, then the upstream version, then the release.
    pub fn cmp(&self, other: &Version) -> (r: Ordering)
        requires
            !version_undecided(self@, other@),
        ensures
            r == ordering_of(version_order(self@, other@)),
    {
        match self.order(other) {
            Some(p) => ordering(p),
            None => Ordering::Equal,
        }
    }
}

/// The order of two epochs: a version with an epoch is newer than any without.
pub open spec fn epoch_order(a: Option<u32>, b: Option<u32>) -> Precedence {
    match (a, b) {
        (Some(x), Some(y)) => int_order(x as int, y as int),
        (Some(_), None) => Precedence::Greater,
        (None, Some(_)) => Precedence::Less,
        (None, None) => Precedence::Equal,
    }
}

/// The order of two versions.
pub open spec fn version_order(a: VersionModel, b: VersionModel) -> Precedence {
    match epoch_order(a.epoch, b.epoch) {
        Precedence::Equal => match parts_order(parts(a.pkgver), parts(b.pkgver)) {
            Precedence::Equal => parts_order(parts(a.pkgrel), parts(b.pkgrel)),
            decided => decided,
        },
        decided => decided,
    }
}

/// Whether the comparison of two versions meets parts between which no order is defined.
pub open spec fn version_undecided(a: VersionModel, b: VersionModel) -> bool {
    &&& epoch_order(a.epoch, b.epoch) == Precedence::Equal
    &&& undecided(parts(a.pkgver), parts(b.pkgver)) || (parts_order(
        parts(a.pkgver),
        parts(b.pkgver),
    ) == Precedence::Equal && undecided(parts(a.pkgrel), parts(b.pkgrel)))
}

impl PartialEq for Version {
    fn eq(&self, other: &Version) -> (r: bool) {
        same_text(self.full.as_str(), other.full.as_str()) && self.epoch == other.epoch
            && same_text(self.pkgver.as_str(), other.pkgver.as_str()) && same_text(
            self.pkgrel.as_str(),
            other.pkgrel.as_str(),
        )
    }
}

impl vstd::std_specs::cmp::PartialEqSpecImpl for Version {
    open spec fn obeys_eq_spec() -> bool {
        true
    }

    open spec fn eq_spec(&self, other: &Version) -> bool {
        self@ == other@
    }
}

impl PartialOrd for Version {
    fn partial_cmp(&self, other: &Version) -> (r: Option<Ordering>) {
        match self.order(other) {
            Some(p) => Some(ordering(p)),
            None => None,
        }
    }
}

impl vstd::std_specs::cmp::PartialOrdSpecImpl for Version {
    open spec fn obeys_partial_cmp_spec() -> bool {
        true
    }

    open spec fn partial_cmp_spec(&self, other: &Version) -> Option<Ordering> {
        if version_undecided(self@, other@) {
            None
        } else {
            Some(ordering_of(version_order(self@, other@)))
        }
    }
}

// ---------------------------------------------------------------------------
// Laws

/// A version is displayed as it was written.
pub proof fn version_keeps_its_text(s: Seq<char>)
    ensures
        version_of(s).full == s,
{
}

/// A version is equal to itself in the order.
pub proof fn version_order_is_reflexive(a: VersionModel)
    ensures
        version_order(a, a) == Precedence::Equal,
{
    parts_order_equal(parts(a.pkgver), parts(a.pkgver));
    parts_order_equal(parts(a.pkgrel), parts(a.pkgrel));
}

/// Exchanging two versions flips the outcome of their comparison.
pub proof fn version_order_is_antisymmetric(a: VersionModel, b: VersionModel)
    ensures
        version_order(b, a) == version_order(a, b).flipped(),
{
    parts_order_flips(parts(a.pkgver), parts(b.pkgver));
    parts_order_flips(parts(a.pkgrel), parts(b.pkgrel));
}

/// The order of versions is transitive.
pub proof fn version_order_is_transitive(a: VersionModel, b: VersionModel, c: VersionModel)
    requires
        version_order(a, b) != Precedence::Greater,
        version_order(b, c) != Precedence::Greater,
    ensures
        version_order(a, c) != Precedence::Greater,
        version_order(a, c) == Precedence::Equal ==> version_order(a, b) == Precedence::Equal
            && version_order(b, c) == Precedence::Equal,
{
    let (x, y, z) = (parts(a.pkgver), parts(b.pkgver), parts(c.pkgver));
    if epoch_order(a.epoch, b.epoch) == Precedence::Equal && epoch_order(b.epoch, c.epoch)
        == Precedence::Equal {
        parts_order_chains(x, y, z);
        if parts_order(x, y) == Precedence::Equal && parts_order(y, z) == Precedence::Equal {
            parts_order_chains(parts(a.pkgrel), parts(b.pkgrel), parts(c.pkgrel));
        }
    }
}

/// The epoch always wins: a version with a higher epoch is newer, whatever else it holds.
pub proof fn epoch_wins(a: VersionModel, b: VersionModel)
    requires
        a.epoch is Some,
        b.epoch matches Some(e) ==> a.epoch->0 > e,
    ensures
        version_order(a, b) == Precedence::Greater,
{
}

// ---------------------------------------------------------------------------
// What the order of version texts means

/// Whether a character is an ASCII character that separates the parts of a version.
pub open spec fn is_separator(c: char) -> bool {
    (c as u32) < 0x80 && !is_ascii_letter(c) && !is_digit(c)
}

/// Whether no digit stands at the front of a text.
pub open spec fn starts_without_digit(s: Seq<char>) -> bool {
    s.len() > 0 ==> !is_digit(s[0])
}

/// Whether no letter stands at the front of a text.
pub open spec fn starts_without_letter(s: Seq<char>) -> bool {
    s.len() > 0 ==> !is_letter(s[0])
}

/// Whether a text is a word: one or more ASCII letters.
pub open spec fn is_ascii_word(s: Seq<char>) -> bool {
    s.len() > 0 && forall|i: int| 0 <= i < s.len() ==> is_ascii_letter(#[trigger] s[i])
}

/// Whether a text has a letter or a digit.
pub open spec fn has_ascii_part(s: Seq<char>) -> bool {
    exists|i: int| 0 <= i < s.len() && (is_ascii_letter(#[trigger] s[i]) || is_digit(s[i]))
}

/// A version text that goes on with a separator and another text.
pub open spec fn continued(p: Seq<char>, c: char, a: Seq<char>) -> Seq<char> {
    p.push(c) + a
}

/// A run that ends before the end of a text does not depend on what follows the text.
proof fn run_before(s: Seq<char>, c: char, a: Seq<char>, p: spec_fn(char) -> bool)
    requires
        !p(c),
    ensures
        run_len(s.push(c) + a, p) == run_len(s, p),
{
    let n = run_len(s, p);
    let whole = s.push(c) + a;
    run_len_bound(s, p);
    assert forall|i: int| 0 <= i < n implies p(#[trigger] whole[i]) by {
        assert(whole[i] == s[i]);
    }
    if n < s.len() {
        assert(whole[n as int] == s[n as int]);
    } else {
        assert(whole[n as int] == c);
    }
    run_len_is(whole, p, n);
}

proof fn tail_is_ascii(s: Seq<char>, k: int)
    requires
        is_ascii_text(s),
        0 <= k <= s.len(),
    ensures
        is_ascii_text(s.skip(k)),
{
    assert forall|i: int| 0 <= i < s.skip(k).len() implies (#[trigger] s.skip(k)[i] as u32)
        < 0x80 by {
        assert(s.skip(k)[i] == s[i + k]);
    }
}

/// The parts of a text that goes on behind a separator are those of both texts, and none of an ASCII
/// text is empty.
proof fn parts_continued(p: Seq<char>, c: char, a: Seq<char>)
    requires
        is_ascii_text(p),
        is_separator(c),
    ensures
        parts(continued(p, c, a)) == parts(p) + parts(a),
        forall|i: int| 0 <= i < parts(p).len() ==> #[trigger] parts(p)[i] != Part::Word(seq![]),
    decreases p.len(),
{
    let s = continued(p, c, a);
    let k = run_len(p, separators());
    run_len_bound(p, separators());
    if k == p.len() {
        let m = run_len(a, separators());
        run_len_bound(a, separators());
        assert forall|i: int| 0 <= i < k + 1 + m implies separators()(#[trigger] s[i]) by {
            if i < k {
                assert(s[i] == p[i]);
            } else if i > k {
                assert(s[i] == a[i - k - 1]);
            }
        }
        if m < a.len() {
            assert(s[(k + 1 + m) as int] == a[m as int]);
        }
        run_len_is(s, separators(), k + 1 + m);
        assert(s.skip((k + 1 + m) as int) =~= a.skip(m as int));
        assert(parts(s) =~= parts(a));
        assert(p.skip(k as int).len() == 0);
        assert(parts(p) =~= Seq::<Part>::empty());
        assert(parts(p) + parts(a) =~= parts(a));
    } else {
        assert forall|i: int| 0 <= i < k implies separators()(#[trigger] s[i]) by {
            assert(s[i] == p[i]);
        }
        assert(s[k as int] == p[k as int]);
        run_len_is(s, separators(), k);
        let t = p.skip(k as int);
        assert(s.skip(k as int) =~= continued(t, c, a));
        assert(t[0] == p[k as int]);
        let class = if is_digit(t[0]) {
            digits()
        } else {
            letters()
        };
        let n = run_len(t, class);
        run_len_bound(t, class);
        run_before(t, c, a, class);
        assert(class(t[0]));
        assert(n > 0);
        let rest = t.skip(n as int);
        assert(rest =~= p.skip((k + n) as int));
        tail_is_ascii(p, (k + n) as int);
        parts_continued(rest, c, a);
        assert(continued(t, c, a).skip(n as int) =~= continued(rest, c, a));
        assert(continued(t, c, a).take(n as int) =~= t.take(n as int));
        let first = if is_digit(t[0]) {
            Part::Number(t.take(n as int))
        } else {
            Part::Word(t.take(n as int))
        };
        assert(continued(t, c, a)[0] == t[0]);
        assert(parts(p) =~= seq![first] + parts(rest));
        assert(parts(s) =~= seq![first] + parts(continued(rest, c, a)));
        assert(t.take(n as int).len() == n);
        assert(parts(s) =~= parts(p) + parts(a));
        assert forall|i: int| 0 <= i < parts(p).len() implies #[trigger] parts(p)[i] != Part::Word(
            seq![],
        ) by {
            if i > 0 {
                assert(parts(p)[i] == parts(rest)[i - 1]);
            }
        }
    }
}

/// What two lists of parts have in common at their front does not count.
proof fn common_front(x: Seq<Part>, a: Seq<Part>, b: Seq<Part>)
    requires
        forall|i: int| 0 <= i < x.len() ==> #[trigger] x[i] != Part::Word(seq![]),
    ensures
        parts_order(x + a, x + b) == parts_order(a, b),
        undecided(x + a, x + b) == undecided(a, b),
    decreases x.len(),
{
    if x.len() == 0 {
        assert(x + a =~= a);
        assert(x + b =~= b);
    } else {
        let rest = x.skip(1);
        assert((x + a).skip(1) =~= rest + a);
        assert((x + b).skip(1) =~= rest + b);
        part_order_equal(x[0], x[0]);
        assert forall|i: int| 0 <= i < rest.len() implies #[trigger] rest[i] != Part::Word(
            seq![],
        ) by {
            assert(rest[i] == x[i + 1]);
        }
        common_front(rest, a, b);
        assert((x + a)[0] == x[0] && (x + b)[0] == x[0]);
    }
}

proof fn front_number(s: Seq<char>)
    requires
        s.len() > 0,
        is_digit(s[0]),
    ensures
        parts(s).len() > 0,
        parts(s)[0] is Number,
{
    run_len_is(s, separators(), 0);
    assert(s.skip(0) =~= s);
}

proof fn front_word(s: Seq<char>)
    requires
        s.len() > 0,
        is_ascii_letter(s[0]),
    ensures
        parts(s).len() > 0,
        parts(s)[0] is Word,
{
    run_len_is(s, separators(), 0);
    assert(s.skip(0) =~= s);
}

/// The parts of a number with something behind it.
proof fn number_first(d: Seq<char>, x: Seq<char>)
    requires
        d.len() > 0,
        all_digits(d),
        starts_without_digit(x),
    ensures
        parts(d + x) == seq![Part::Number(d)] + parts(x),
{
    let s = d + x;
    assert(s[0] == d[0]);
    assert(is_digit(d[0]));
    run_len_is(s, separators(), 0);
    assert(s.skip(0) =~= s);
    assert forall|i: int| 0 <= i < d.len() implies digits()(#[trigger] s[i]) by {
        assert(s[i] == d[i]);
    }
    if x.len() > 0 {
        assert(s[d.len() as int] == x[0]);
    }
    run_len_is(s, digits(), d.len());
    assert(s.take(d.len() as int) =~= d);
    assert(s.skip(d.len() as int) =~= x);
}

/// The parts of a word with something behind it.
proof fn word_first(w: Seq<char>, x: Seq<char>)
    requires
        is_ascii_word(w),
        starts_without_letter(x),
    ensures
        parts(w + x) == seq![Part::Word(w)] + parts(x),
{
    let s = w + x;
    assert(s[0] == w[0]);
    assert(is_ascii_letter(w[0]));
    run_len_is(s, separators(), 0);
    assert(s.skip(0) =~= s);
    assert forall|i: int| 0 <= i < w.len() implies letters()(#[trigger] s[i]) by {
        assert(s[i] == w[i]);
    }
    if x.len() > 0 {
        assert(s[w.len() as int] == x[0]);
    }
    run_len_is(s, letters(), w.len());
    assert(s.take(w.len() as int) =~= w);
    assert(s.skip(w.len() as int) =~= x);
}

/// The notation of a greater number is longer, or as long and later in the order of texts.
proof fn greater_number_is_later(n: nat, m: nat)
    requires
        n < m,
    ensures
        decimal(n).len() <= decimal(m).len(),
        decimal(n).len() == decimal(m).len() ==> text_order(decimal(n), decimal(m))
            == Precedence::Less,
    decreases m,
{
    if m >= 10 {
        let (c, d) = (digit_char((n % 10) as int), digit_char((m % 10) as int));
        decimal_reads_back(m / 10);
        if n >= 10 {
            if n / 10 < m / 10 {
                greater_number_is_later(n / 10, m / 10);
            }
            let (x, y) = (decimal(n / 10), decimal(m / 10));
            if x.len() == y.len() {
                text_order_of_last(x, y, c, d);
            }
        }
    } else {
        assert(decimal(n)[0] < decimal(m)[0]);
    }
}

/// Where texts of one length are in order, or the same with their last characters in order, they
/// stay so with those characters.
proof fn text_order_of_last(x: Seq<char>, y: Seq<char>, c: char, d: char)
    requires
        x.len() == y.len(),
        text_order(x, y) == Precedence::Less || (x == y && c < d),
    ensures
        text_order(x.push(c), y.push(d)) == Precedence::Less,
    decreases x.len(),
{
    if x.len() > 0 {
        assert(x.push(c).skip(1) =~= x.skip(1).push(c));
        assert(y.push(d).skip(1) =~= y.skip(1).push(d));
        if x[0] == y[0] {
            text_order_of_last(x.skip(1), y.skip(1), c, d);
        }
    } else {
        assert(x =~= y);
    }
}

proof fn has_parts(s: Seq<char>)
    requires
        has_ascii_part(s),
    ensures
        parts(s).len() > 0,
{
    let i = choose|i: int|
        0 <= i < s.len() && (is_ascii_letter(#[trigger] s[i]) || is_digit(s[i]));
    let k = run_len(s, separators());
    run_len_bound(s, separators());
    if k > i {
        assert(separators()(s[i]));
    }
    assert(s.skip(k as int).len() > 0);
}

/// Where two versions agree up to a number in one and letters in the other, the one with the number
/// is newer: a point release follows its release candidates.
pub proof fn numbers_are_newer_than_letters(p: Seq<char>, c: char, a: Seq<char>, b: Seq<char>)
    requires
        is_ascii_text(p),
        is_separator(c),
        a.len() > 0,
        is_digit(a[0]),
        b.len() > 0,
        is_ascii_letter(b[0]),
    ensures
        !undecided(parts(continued(p, c, a)), parts(continued(p, c, b))),
        !undecided(parts(continued(p, c, b)), parts(continued(p, c, a))),
        compared(continued(p, c, a), continued(p, c, b)) == Ordering::Greater,
        compared(continued(p, c, b), continued(p, c, a)) == Ordering::Less,
{
    parts_continued(p, c, a);
    parts_continued(p, c, b);
    common_front(parts(p), parts(a), parts(b));
    common_front(parts(p), parts(b), parts(a));
    front_number(a);
    front_word(b);
}

/// Where two versions agree up to a number, the one with the greater number is newer, whatever
/// follows: `1.10` is newer than `1.9.5`.
pub proof fn greater_numbers_are_newer(
    p: Seq<char>,
    c: char,
    n: nat,
    m: nat,
    x: Seq<char>,
    y: Seq<char>,
)
    requires
        is_ascii_text(p),
        is_separator(c),
        n < m,
        starts_without_digit(x),
        starts_without_digit(y),
    ensures
        compared(continued(p, c, decimal(n) + x), continued(p, c, decimal(m) + y))
            == Ordering::Less,
        compared(continued(p, c, decimal(m) + y), continued(p, c, decimal(n) + x))
            == Ordering::Greater,
        !undecided(
            parts(continued(p, c, decimal(n) + x)),
            parts(continued(p, c, decimal(m) + y)),
        ),
{
    let (a, b) = (decimal(n) + x, decimal(m) + y);
    parts_continued(p, c, a);
    parts_continued(p, c, b);
    common_front(parts(p), parts(a), parts(b));
    common_front(parts(p), parts(b), parts(a));
    decimal_reads_back(n);
    decimal_reads_back(m);
    number_first(decimal(n), x);
    number_first(decimal(m), y);
    greater_number_is_later(n, m);
    text_order_flips(decimal(n), decimal(m));
    assert(decimal(n) != decimal(m)) by {
        if decimal(n) == decimal(m) {
            decimal_is_unique(n, m);
        }
    }
}

/// Where two versions agree up to letters, the one with the earlier letter is older, whatever
/// follows: `1.0alpha9` is older than `1.0beta`.
pub proof fn later_letters_are_newer(
    p: Seq<char>,
    c: char,
    w: Seq<char>,
    v: Seq<char>,
    i: int,
    x: Seq<char>,
    y: Seq<char>,
)
    requires
        is_ascii_text(p),
        is_separator(c),
        is_ascii_word(w),
        is_ascii_word(v),
        0 <= i < w.len(),
        i < v.len(),
        w.take(i) == v.take(i),
        w[i] < v[i],
        starts_without_letter(x),
        starts_without_letter(y),
    ensures
        compared(continued(p, c, w + x), continued(p, c, v + y)) == Ordering::Less,
        compared(continued(p, c, v + y), continued(p, c, w + x)) == Ordering::Greater,
{
    parts_continued(p, c, w + x);
    parts_continued(p, c, v + y);
    common_front(parts(p), parts(w + x), parts(v + y));
    common_front(parts(p), parts(v + y), parts(w + x));
    word_first(w, x);
    word_first(v, y);
    first_difference_decides(w, v, i);
    text_order_flips(w, v);
}

/// A version that goes on with more parts is newer than the one where it left off.
pub proof fn continuations_are_newer(p: Seq<char>, c: char, a: Seq<char>)
    requires
        is_ascii_text(p),
        is_separator(c),
        has_ascii_part(a),
    ensures
        compared(p, continued(p, c, a)) == Ordering::Less,
        compared(continued(p, c, a), p) == Ordering::Greater,
{
    parts_continued(p, c, a);
    has_parts(a);
    let x = parts(p);
    common_front(x, seq![], parts(a));
    common_front(x, parts(a), seq![]);
    assert(x + Seq::<Part>::empty() =~= x);
}

/// Which separator stands between two parts makes no difference.
pub proof fn separators_do_not_count(p: Seq<char>, c: char, d: char, a: Seq<char>)
    requires
        is_ascii_text(p),
        is_separator(c),
        is_separator(d),
    ensures
        compared(continued(p, c, a), continued(p, d, a)) == Ordering::Equal,
{
    parts_continued(p, c, a);
    parts_continued(p, d, a);
    parts_order_equal(parts(p) + parts(a), parts(p) + parts(a));
}

/// The outcome of comparing two versions, as std's type.
pub open spec fn compared_versions(a: VersionModel, b: VersionModel) -> Ordering {
    ordering_of(version_order(a, b))
}

/// Between versions of one epoch, different upstream versions decide, whatever the releases are;
/// between the same upstream versions the releases do.
pub proof fn upstream_goes_before_release(a: VersionModel, b: VersionModel)
    requires
        a.epoch == b.epoch,
    ensures
        compared(a.pkgver, b.pkgver) != Ordering::Equal ==> compared_versions(a, b) == compared(
            a.pkgver,
            b.pkgver,
        ),
        a.pkgver == b.pkgver ==> compared_versions(a, b) == compared(a.pkgrel, b.pkgrel),
{
    if a.pkgver == b.pkgver {
        parts_order_equal(parts(a.pkgver), parts(b.pkgver));
    }
}

/// A written version has its parts: the epoch before the colon, the upstream version before the last
/// hyphen, and the release behind it.
pub proof fn versions_are_read(epoch: nat, ver: Seq<char>, rel: Seq<char>)
    requires
        epoch <= u32::MAX,
        !rel.contains('-'),
    ensures
        version_of(decimal(epoch).push(':') + (ver.push('-') + rel)) == (VersionModel {
            full: decimal(epoch).push(':') + (ver.push('-') + rel),
            epoch: Some(epoch as u32),
            pkgver: ver,
            pkgrel: rel,
        }),
        !ver.contains(':') && !rel.contains(':') ==> version_of(ver.push('-') + rel) == (
        VersionModel { full: ver.push('-') + rel, epoch: None, pkgver: ver, pkgrel: rel }),
{
    let rest = ver.push('-') + rel;
    let d = decimal(epoch);
    let s = d.push(':') + rest;
    decimal_reads_back(epoch);
    decimal_parses(epoch, u32::MAX as int);
    assert(s[d.len() as int] == ':');
    assert forall|i: int| 0 <= i < d.len() implies other_than(':')(#[trigger] s[i]) by {
        assert(s[i] == d[i]);
    }
    run_len_is(s, other_than(':'), d.len());
    assert(s.take(d.len() as int) =~= d);
    assert(s.skip(d.len() as int + 1) =~= rest);
    last_index_is(ver, '-', rel);
    assert(rest.take(ver.len() as int) =~= ver);
    assert(rest.skip(ver.len() as int + 1) =~= rel);
    if !ver.contains(':') && !rel.contains(':') {
        assert forall|i: int| 0 <= i < rest.len() implies other_than(':')(#[trigger] rest[i]) by {
            if i < ver.len() {
                assert(rest[i] == ver[i]);
            } else if i > ver.len() {
                assert(rest[i] == rel[i - ver.len() - 1]);
            }
        }
        run_len_is(rest, other_than(':'), rest.len());
    }
}

/// A greater epoch is newer whatever else the versions say, and any epoch is newer than none.
pub proof fn epochs_go_first(a: VersionModel, b: VersionModel, x: u32, y: u32)
    requires
        a.epoch == Some(x),
        b.epoch is None || b.epoch == Some(y) && x > y,
    ensures
        compared_versions(a, b) == Ordering::Greater,
        compared_versions(b, a) == Ordering::Less,
{
}

} // verus!
