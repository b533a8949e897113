//! Order on characters and texts, and stable sorting by a text key.
use vstd::prelude::*;

use crate::text::{own, texts, to_chars};

verus! {

/// The outcome of a comparison.
#[derive(Debug, Clone, Copy, PartialEq, Eq, Structural)]
pub enum Precedence {
    Less,
    Equal,
    Greater,
}

impl Precedence {
    /// The outcome with the two sides exchanged.
    pub open spec fn flipped(self) -> Precedence {
        match self {
            Precedence::Less => Precedence::Greater,
            Precedence::Equal => Precedence::Equal,
            Precedence::Greater => Precedence::Less,
        }
    }
}

/// The order of two numbers.
pub open spec fn int_order(a: int, b: int) -> Precedence {
    if a < b {
        Precedence::Less
    } else if a == b {
        Precedence::Equal
    } else {
        Precedence::Greater
    }
}

/// The order of strings in std: lexicographic, by code point.
pub open spec fn text_order(a: Seq<char>, b: Seq<char>) -> Precedence
    decreases a.len(),
{
    if a.len() == 0 || b.len() == 0 {
        int_order(a.len() as int, b.len() as int)
    } else if a[0] == b[0] {
        text_order(a.skip(1), b.skip(1))
    } else if a[0] < b[0] {
        Precedence::Less
    } else {
        Precedence::Greater
    }
}

/// Whether `a` comes before `b` or equals it.
pub open spec fn text_le(a: Seq<char>, b: Seq<char>) -> bool {
    text_order(a, b) != Precedence::Greater
}

/// Only a text itself is its equal in the order.
pub proof fn text_order_equal(a: Seq<char>, b: Seq<char>)
    ensures
        (text_order(a, b) == Precedence::Equal) == (a == b),
    decreases a.len(),
{
    if a.len() == 0 || b.len() == 0 {
        if a.len() == b.len() {
            assert(a =~= b);
        }
    } else if a[0] == b[0] {
        text_order_equal(a.skip(1), b.skip(1));
        if a.skip(1) == b.skip(1) {
            assert(a =~= seq![a[0]] + a.skip(1));
            assert(b =~= seq![b[0]] + b.skip(1));
        }
    }
}

/// Exchanging the two texts flips the outcome.
pub proof fn text_order_flips(a: Seq<char>, b: Seq<char>)
    ensures
        text_order(b, a) == text_order(a, b).flipped(),
    decreases a.len(),
{
    if a.len() > 0 && b.len() > 0 && a[0] == b[0] {
        text_order_flips(a.skip(1), b.skip(1));
    }
}

/// The order of texts is transitive, also where one of the steps is strict.
pub proof fn text_order_chains(a: Seq<char>, b: Seq<char>, c: Seq<char>)
    requires
        text_le(a, b),
        text_le(b, c),
    ensures
        text_le(a, c),
        text_order(a, c) == Precedence::Equal ==> text_order(a, b) == Precedence::Equal
            && text_order(b, c) == Precedence::Equal,
    decreases a.len(),
{
    if a.len() > 0 && b.len() > 0 && c.len() > 0 && a[0] == b[0] && b[0] == c[0] {
        text_order_chains(a.skip(1), b.skip(1), c.skip(1));
    }
}

/// The first characters in which two texts differ decide, whatever follows.
pub proof fn first_difference_decides(a: Seq<char>, b: Seq<char>, i: int)
    requires
        0 <= i < a.len(),
        i < b.len(),
        a.take(i) == b.take(i),
        a[i] < b[i],
    ensures
        text_order(a, b) == Precedence::Less,
        text_order(b, a) == Precedence::Greater,
    decreases i,
{
    if i > 0 {
        assert(a[0] == a.take(i)[0] && b[0] == b.take(i)[0]);
        assert(a.skip(1).take(i - 1) =~= a.take(i).skip(1));
        assert(b.skip(1).take(i - 1) =~= b.take(i).skip(1));
        first_difference_decides(a.skip(1), b.skip(1), i - 1);
    }
}

/// A text comes before its continuations.
pub proof fn beginnings_come_first(a: Seq<char>, more: Seq<char>)
    requires
        more.len() > 0,
    ensures
        text_order(a, a + more) == Precedence::Less,
        text_order(a + more, a) == Precedence::Greater,
    decreases a.len(),
{
    if a.len() > 0 {
        assert((a + more).skip(1) =~= a.skip(1) + more);
        beginnings_come_first(a.skip(1), more);
    }
}

/// Compares two texts.
pub fn order_chars(a: &[char], b: &[char]) -> (r: Precedence)
    ensures
        r == text_order(a@, b@),
{
    let mut i: usize = 0;
    proof {
        assert(a@.skip(0) =~= a@);
        assert(b@.skip(0) =~= b@);
    }
    while i < a.len() && i < b.len()
        invariant
            i <= a@.len(),
            i <= b@.len(),
            text_order(a@, b@) == text_order(a@.skip(i as int), b@.skip(i as int)),
        decreases a@.len() - i,
    {
        if a[i] != b[i] {
            return if a[i] < b[i] {
                Precedence::Less
            } else {
                Precedence::Greater
            };
        }
        proof {
            assert(a@.skip(i as int).skip(1) =~= a@.skip(i + 1));
            assert(b@.skip(i as int).skip(1) =~= b@.skip(i + 1));
        }
        i = i + 1;
    }
    order_lengths(a.len() - i, b.len() - i)
}

/// Compares two numbers.
pub fn order_lengths(a: usize, b: usize) -> (r: Precedence)
    ensures
        r == int_order(a as int, b as int),
{
    if a < b {
        Precedence::Less
    } else if a == b {
        Precedence::Equal
    } else {
        Precedence::Greater
    }
}

/// Compares two strings.
pub fn order_texts(a: &str, b: &str) -> (r: Precedence)
    ensures
        r == text_order(a@, b@),
{
    let x = to_chars(a);
    let y = to_chars(b);
    order_chars(x.as_slice(), y.as_slice())
}

// ---------------------------------------------------------------------------
// Sorting by a text key

/// Something that is sorted by a text.
pub trait Keyed {
    /// The text.
    spec fn key_text(&self) -> Seq<char>;

    /// The text.
    fn key(&self) -> (r: &str)
        ensures
            r@ == self.key_text(),
    ;
}

/// The key of a value.
pub open spec fn key_of<T: Keyed>() -> spec_fn(T) -> Seq<char> {
    |t: T| t.key_text()
}

/// A sorted list with one more value: it goes behind all values whose key is not greater.
pub open spec fn inserted<A>(list: Seq<A>, x: A, key: spec_fn(A) -> Seq<char>) -> Seq<A>
    decreases list.len(),
{
    if list.len() == 0 || text_le(key(list.last()), key(x)) {
        list.push(x)
    } else {
        inserted(list.drop_last(), x, key).push(list.last())
    }
}

/// A list sorted by key; values with the same key keep their order.
pub open spec fn stable_sorted<A>(list: Seq<A>, key: spec_fn(A) -> Seq<char>) -> Seq<A>
    decreases list.len(),
{
    if list.len() == 0 {
        list
    } else {
        inserted(stable_sorted(list.drop_last(), key), list.last(), key)
    }
}

/// The values of a list with the key `k`.
pub open spec fn with_key<A>(
    list: Seq<A>,
    key: spec_fn(A) -> Seq<char>,
    k: Seq<char>,
) -> Seq<A> {
    list.filter(|a: A| key(a) == k)
}

/// Whether the keys of a list never go down.
pub open spec fn ascending<A>(list: Seq<A>, key: spec_fn(A) -> Seq<char>) -> bool {
    forall|i: int, j: int|
        0 <= i <= j < list.len() ==> text_le(#[trigger] key(list[i]), #[trigger] key(list[j]))
}

fn insert_by_key<T: Keyed>(list: &mut Vec<T>, item: T)
    ensures
        final(list)@ == inserted(old(list)@, item, key_of::<T>()),
{
    let ghost all = list@;
    let ghost key = key_of::<T>();
    let mut k: usize = list.len();
    proof {
        assert(all.take(k as int) =~= all);
        assert(inserted(all, item, key) =~= inserted(all, item, key) + all.skip(k as int));
    }
    while k > 0
        invariant
            k <= list@.len(),
            list@ == all,
            key == key_of::<T>(),
            inserted(all, item, key) == inserted(all.take(k as int), item, key) + all.skip(k as int),
        ensures
            inserted(all, item, key) == all.take(k as int).push(item) + all.skip(k as int),
        decreases k,
    {
        let ghost upto = all.take(k as int);
        proof {
            assert(upto.last() == all[k - 1]);
            assert(upto.drop_last() =~= all.take(k - 1));
        }
        if order_texts(list[k - 1].key(), item.key()) != Precedence::Greater {
            break;
        }
        proof {
            assert(inserted(upto, item, key) + all.skip(k as int) =~= inserted(
                all.take(k - 1),
                item,
                key,
            ) + all.skip(k - 1));
        }
        k = k - 1;
    }
    list.insert(k, item);
    proof {
        assert(list@ =~= all.take(k as int).push(item) + all.skip(k as int));
    }
}

/// Sorts a list by key; values with the same key keep their order.
pub fn sort_by_key<T: Keyed>(list: Vec<T>) -> (out: Vec<T>)
    ensures
        out@ == stable_sorted(list@, key_of::<T>()),
{
    let ghost all = list@;
    let mut rest = list;
    let mut reversed: Vec<T> = Vec::new();
    // Values leave a vector at its end, so the list is turned around first.
    while rest.len() > 0
        invariant
            reversed@.len() + rest@.len() == all.len(),
            rest@ == all.take(rest@.len() as int),
            forall|i: int| 0 <= i < reversed@.len() ==> reversed@[i] == all[all.len() - 1 - i],
        decreases rest@.len(),
    {
        if let Some(x) = rest.pop() {
            reversed.push(x);
        }
    }
    let mut out: Vec<T> = Vec::new();
    proof {
        assert(all.take(0) =~= Seq::<T>::empty());
        assert(out@ =~= stable_sorted(all.take(0), key_of::<T>()));
    }
    while reversed.len() > 0
        invariant
            reversed@.len() <= all.len(),
            out@ == stable_sorted(all.take(all.len() - reversed@.len()), key_of::<T>()),
            forall|i: int| 0 <= i < reversed@.len() ==> reversed@[i] == all[all.len() - 1 - i],
        decreases reversed@.len(),
    {
        let ghost n = all.len() - reversed@.len();
        if let Some(x) = reversed.pop() {
            proof {
                assert(x == all[n]);
                assert(all.take(n + 1).drop_last() =~= all.take(n));
            }
            insert_by_key(&mut out, x);
        }
    }
    proof {
        assert(all.take(all.len() as int) =~= all);
    }
    out
}

proof fn inserted_facts<A>(list: Seq<A>, x: A, key: spec_fn(A) -> Seq<char>)
    requires
        ascending(list, key),
    ensures
        inserted(list, x, key).len() == list.len() + 1,
        ascending(inserted(list, x, key), key),
        inserted(list, x, key).to_multiset() == list.to_multiset().insert(x),
        forall|k: Seq<char>|
            #[trigger] with_key(inserted(list, x, key), key, k) == with_key(list.push(x), key, k),
        forall|i: int|
            0 <= i < inserted(list, x, key).len() ==> (#[trigger] inserted(list, x, key)[i] == x
                || list.contains(inserted(list, x, key)[i])),
    decreases list.len(),
{
    broadcast use vstd::seq_lib::group_to_multiset_ensures;

    let out = inserted(list, x, key);
    if list.len() == 0 || text_le(key(list.last()), key(x)) {
        assert forall|i: int, j: int| 0 <= i <= j < out.len() implies text_le(
            #[trigger] key(out[i]),
            #[trigger] key(out[j]),
        ) by {
            text_order_equal(key(x), key(x));
            if j == list.len() && i < j {
                text_order_chains(key(list[i]), key(list.last()), key(x));
            }
        }
    } else {
        let front = list.drop_last();
        let y = list.last();
        let mid = inserted(front, x, key);
        assert forall|i: int, j: int| 0 <= i <= j < front.len() implies text_le(
            #[trigger] key(front[i]),
            #[trigger] key(front[j]),
        ) by {
            assert(text_le(key(list[i]), key(list[j])));
        }
        inserted_facts(front, x, key);
        text_order_flips(key(y), key(x));
        assert(list =~= front.push(y));
        assert forall|i: int| 0 <= i < mid.len() implies text_le(
            #[trigger] key(mid[i]),
            key(y),
        ) by {
            if mid[i] != x {
                let j = choose|j: int| 0 <= j < front.len() && front[j] == mid[i];
                assert(text_le(key(list[j]), key(list[list.len() - 1])));
            }
        }
        assert forall|i: int, j: int| 0 <= i <= j < out.len() implies text_le(
            #[trigger] key(out[i]),
            #[trigger] key(out[j]),
        ) by {
            text_order_equal(key(y), key(y));
            if j < mid.len() {
                assert(text_le(key(mid[i]), key(mid[j])));
            }
        }
        assert forall|k: Seq<char>| #[trigger] with_key(out, key, k) == with_key(
            list.push(x),
            key,
            k,
        ) by {
            let p = |a: A| key(a) == k;
            text_order_equal(key(y), key(x));
            mid.lemma_filter_push(y, p);
            front.lemma_filter_push(x, p);
            front.lemma_filter_push(y, p);
            list.lemma_filter_push(x, p);
            assert(with_key(mid, key, k) == with_key(front.push(x), key, k));
        }
        assert(front.to_multiset().insert(x).insert(y) =~= front.to_multiset().insert(y).insert(x));
        assert forall|i: int| 0 <= i < out.len() implies (#[trigger] out[i] == x || list.contains(
            out[i],
        )) by {
            if i < mid.len() {
                assert(out[i] == mid[i]);
                if mid[i] != x {
                    let j = choose|j: int| 0 <= j < front.len() && front[j] == mid[i];
                    assert(list[j] == out[i]);
                }
            } else {
                assert(list[list.len() - 1] == out[i]);
            }
        }
    }
}

/// Sorting puts the keys in order, keeps every value as often as it was there, and keeps the order
/// of the values with the same key.
pub proof fn sorting_is_stable<A>(list: Seq<A>, key: spec_fn(A) -> Seq<char>)
    ensures
        ascending(stable_sorted(list, key), key),
        stable_sorted(list, key).len() == list.len(),
        stable_sorted(list, key).to_multiset() == list.to_multiset(),
        forall|k: Seq<char>|
            #[trigger] with_key(stable_sorted(list, key), key, k) == with_key(list, key, k),
    decreases list.len(),
{
    broadcast use vstd::seq_lib::group_to_multiset_ensures;

    if list.len() > 0 {
        let front = list.drop_last();
        let x = list.last();
        sorting_is_stable(front, key);
        inserted_facts(stable_sorted(front, key), x, key);
        assert(list =~= front.push(x));
        assert forall|k: Seq<char>| #[trigger] with_key(stable_sorted(list, key), key, k)
            == with_key(list, key, k) by {
            let p = |a: A| key(a) == k;
            stable_sorted(front, key).lemma_filter_push(x, p);
            front.lemma_filter_push(x, p);
            assert(with_key(stable_sorted(front, key), key, k) == with_key(front, key, k));
        }
    }
}

/// Whether the keys of values and of what `f` makes of them agree.
pub open spec fn keys_agree<A, B>(
    list: Seq<A>,
    key: spec_fn(A) -> Seq<char>,
    f: spec_fn(A) -> B,
    image_key: spec_fn(B) -> Seq<char>,
) -> bool {
    forall|i: int| 0 <= i < list.len() ==> image_key(f(#[trigger] list[i])) == key(list[i])
}

proof fn inserted_maps<A, B>(
    list: Seq<A>,
    x: A,
    key: spec_fn(A) -> Seq<char>,
    f: spec_fn(A) -> B,
    image_key: spec_fn(B) -> Seq<char>,
)
    requires
        keys_agree(list, key, f, image_key),
        image_key(f(x)) == key(x),
    ensures
        inserted(list, x, key).map_values(f) == inserted(list.map_values(f), f(x), image_key),
        keys_agree(inserted(list, x, key), key, f, image_key),
    decreases list.len(),
{
    let image = list.map_values(f);
    if list.len() == 0 || text_le(key(list.last()), key(x)) {
        assert(list.push(x).map_values(f) =~= image.push(f(x)));
        if list.len() > 0 {
            assert(image.last() == f(list.last()));
        }
    } else {
        let front = list.drop_last();
        assert(keys_agree(front, key, f, image_key)) by {
            assert forall|i: int| 0 <= i < front.len() implies image_key(f(#[trigger] front[i]))
                == key(front[i]) by {
                assert(front[i] == list[i]);
            }
        }
        inserted_maps(front, x, key, f, image_key);
        assert(image.last() == f(list.last()));
        assert(image.drop_last() =~= front.map_values(f));
        let mid = inserted(front, x, key);
        assert(mid.push(list.last()).map_values(f) =~= mid.map_values(f).push(f(list.last())));
    }
}

/// Sorting values and then taking what `f` makes of them is the same as sorting that.
pub proof fn sorting_maps<A, B>(
    list: Seq<A>,
    key: spec_fn(A) -> Seq<char>,
    f: spec_fn(A) -> B,
    image_key: spec_fn(B) -> Seq<char>,
)
    requires
        keys_agree(list, key, f, image_key),
    ensures
        stable_sorted(list, key).map_values(f) == stable_sorted(list.map_values(f), image_key),
        keys_agree(stable_sorted(list, key), key, f, image_key),
    decreases list.len(),
{
    let image = list.map_values(f);
    if list.len() == 0 {
        assert(list.map_values(f) =~= image);
        assert(stable_sorted(image, image_key) =~= image);
    } else {
        let front = list.drop_last();
        assert(keys_agree(front, key, f, image_key)) by {
            assert forall|i: int| 0 <= i < front.len() implies image_key(f(#[trigger] front[i]))
                == key(front[i]) by {
                assert(front[i] == list[i]);
            }
        }
        sorting_maps(front, key, f, image_key);
        assert(image.drop_last() =~= front.map_values(f));
        assert(image.last() == f(list.last()));
        assert(image_key(f(list[list.len() - 1])) == key(list[list.len() - 1]));
        inserted_maps(stable_sorted(front, key), list.last(), key, f, image_key);
    }
}

// ---------------------------------------------------------------------------
// Sorted lists without repetition

/// Whether a list is sorted and nothing occurs twice.
pub open spec fn strictly_ascending(list: Seq<Seq<char>>) -> bool {
    forall|i: int, j: int|
        0 <= i < j < list.len() ==> text_order(#[trigger] list[i], #[trigger] list[j])
            == Precedence::Less
}

/// Adds a text to a sorted list, unless it is there.
pub fn insert_unique(list: &mut Vec<String>, name: &str)
    requires
        strictly_ascending(texts(old(list)@)),
    ensures
        strictly_ascending(texts(final(list)@)),
        texts(final(list)@).to_set() == texts(old(list)@).to_set().insert(name@),
{
    let ghost all = texts(list@);
    let mut k: usize = list.len();
    while k > 0
        invariant
            k <= list@.len(),
            all == texts(list@),
            all == texts(old(list)@),
            strictly_ascending(all),
            forall|j: int|
                k <= j < all.len() ==> text_order(#[trigger] all[j], name@) == Precedence::Greater,
        ensures
            k > 0 ==> text_order(all[k - 1], name@) == Precedence::Less,
        decreases k,
    {
        let order = order_texts(list[k - 1].as_str(), name);
        proof {
            assert(all[k - 1] == list@[k - 1]@);
        }
        if order == Precedence::Equal {
            proof {
                text_order_equal(all[k - 1], name@);
                assert(all.contains(name@));
                assert(all.to_set().insert(name@) =~= all.to_set());
            }
            return;
        }
        if order == Precedence::Less {
            break;
        }
        k = k - 1;
    }
    list.insert(k, own(name));
    proof {
        let out = texts(list@);
        assert(out =~= all.insert(k as int, name@));
        assert forall|i: int, j: int| 0 <= i < j < out.len() implies text_order(
            #[trigger] out[i],
            #[trigger] out[j],
        ) == Precedence::Less by {
            if i < k && j == k {
                if i < k - 1 {
                    assert(text_order(all[i], all[k - 1]) == Precedence::Less);
                    text_order_chains(all[i], all[k - 1], name@);
                }
            } else if i == k {
                text_order_flips(all[j - 1], name@);
            } else if i < k && j > k {
                assert(text_order(all[i], all[j - 1]) == Precedence::Less);
            } else if j < k {
                assert(text_order(all[i], all[j]) == Precedence::Less);
            } else {
                assert(text_order(all[i - 1], all[j - 1]) == Precedence::Less);
            }
        }
        assert forall|t: Seq<char>| out.to_set().contains(t) == #[trigger] all.to_set().insert(
            name@,
        ).contains(t) by {
            if out.contains(t) {
                let i = choose|i: int| 0 <= i < out.len() && out[i] == t;
                if i < k {
                    assert(all[i] == t);
                } else if i > k {
                    assert(all[i - 1] == t);
                }
            }
            if t == name@ {
                assert(out[k as int] == t);
            }
            if all.contains(t) {
                let i = choose|i: int| 0 <= i < all.len() && all[i] == t;
                if i < k {
                    assert(out[i] == t);
                } else {
                    assert(out[i + 1] == t);
                }
            }
        }
        assert(out.to_set() =~= all.to_set().insert(name@));
    }
}

/// The texts of a list, sorted and each once.
pub fn sort_unique(list: &[String]) -> (out: Vec<String>)
    ensures
        strictly_ascending(texts(out@)),
        texts(out@).to_set() == texts(list@).to_set(),
{
    let mut out: Vec<String> = Vec::new();
    let ghost all = texts(list@);
    proof {
        assert(texts(out@).to_set() =~= all.take(0).to_set());
    }
    for i in 0..list.len()
        invariant
            all == texts(list@),
            strictly_ascending(texts(out@)),
            texts(out@).to_set() == all.take(i as int).to_set(),
    {
        insert_unique(&mut out, list[i].as_str());
        proof {
            let next = all.take(i + 1);
            assert(next =~= all.take(i as int).push(all[i as int]));
            assert forall|t: Seq<char>| #[trigger] next.to_set().contains(t) == all.take(
                i as int,
            ).to_set().insert(all[i as int]).contains(t) by {
                if next.contains(t) {
                    let j = choose|j: int| 0 <= j < next.len() && next[j] == t;
                    if j < i {
                        assert(all.take(i as int)[j] == t);
                    }
                }
                if all.take(i as int).contains(t) {
                    let j = choose|j: int| 0 <= j < i && all.take(i as int)[j] == t;
                    assert(next[j] == t);
                }
                if t == all[i as int] {
                    assert(next[i as int] == t);
                }
            }
            assert(next.to_set() =~= all.take(i as int).to_set().insert(all[i as int]));
        }
    }
    proof {
        assert(all.take(all.len() as int) =~= all);
    }
    out
}

} // verus!
