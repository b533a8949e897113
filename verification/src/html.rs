//! Plain text from text with markup.
use vstd::prelude::*;

use crate::text::{from_chars, index_of, is_one_word, is_space, join, joined, joined_front,
    joined_pieces_split, joined_words_are_words, other_than, pieces, pieces_follow, push_all,
    run_len, run_len_bound, run_len_is, single_word, spaces, split_char, split_on,
    tail_run_len_bound, to_chars, trim, trimmed, trimmed_has_no_outer_space, trimmed_start,
    trimming_keeps, trimming_keeps_words, trimming_twice, words, words_are_words, words_of,
    words_on_both_sides};

verus! {

/// The characters of `s` outside of tags; `in_tag` says whether `s` starts inside one.
pub open spec fn outside_tags(s: Seq<char>, in_tag: bool) -> Seq<char>
    decreases s.len(),
{
    if s.len() == 0 {
        seq![]
    } else if s[0] == '<' {
        outside_tags(s.skip(1), true)
    } else if s[0] == '>' {
        outside_tags(s.skip(1), false)
    } else if in_tag {
        outside_tags(s.skip(1), true)
    } else {
        seq![s[0]] + outside_tags(s.skip(1), false)
    }
}

/// The characters of `s` outside of tags.
pub fn drop_tags(s: &[char]) -> (out: Vec<char>)
    ensures
        out@ == outside_tags(s@, false),
{
    let mut out: Vec<char> = Vec::new();
    let mut in_tag = false;
    proof {
        assert(s@.skip(0) =~= s@);
        assert(out@ + outside_tags(s@, false) =~= outside_tags(s@, false));
    }
    for i in 0..s.len()
        invariant
            out@ + outside_tags(s@.skip(i as int), in_tag) == outside_tags(s@, false),
    {
        let c = s[i];
        let ghost before = out@;
        let ghost rest = s@.skip(i as int);
        proof {
            assert(rest.skip(1) =~= s@.skip(i + 1));
        }
        if c == '<' {
            in_tag = true;
        } else if c == '>' {
            in_tag = false;
        } else if !in_tag {
            out.push(c);
            proof {
                assert(out@ + outside_tags(s@.skip(i + 1), false) =~= before + outside_tags(
                    rest,
                    false,
                ));
            }
        }
    }
    proof {
        assert(s@.skip(s@.len() as int) =~= Seq::<char>::empty());
        assert(out@ + outside_tags(s@.skip(s@.len() as int), in_tag) =~= out@);
    }
    out
}

/// The text of a piece of HTML on one line: no tags, and single spaces between the words.
pub open spec fn html_text(s: Seq<char>) -> Seq<char> {
    joined(words_of(outside_tags(s, false)), " "@)
}

/// The text of a piece of HTML on one line.
pub fn strip_html(html: &str) -> (out: String)
    ensures
        out@ == html_text(html@),
{
    let chars = to_chars(html);
    let plain = drop_tags(chars.as_slice());
    let list = words(plain.as_slice());
    let line = join(list.as_slice(), " ");
    from_chars(line.as_slice())
}

/// The lines without the space around them, each with a line feed, and one line feed for a run of
/// blank lines; `after_blank` says whether such a run has begun.
pub open spec fn paragraphs(lines: Seq<Seq<char>>, after_blank: bool) -> Seq<char>
    decreases lines.len(),
{
    if lines.len() == 0 {
        seq![]
    } else {
        let t = trimmed(lines[0]);
        let rest = lines.skip(1);
        if t.len() > 0 {
            t + seq!['\n'] + paragraphs(rest, false)
        } else if after_blank {
            paragraphs(rest, true)
        } else {
            seq!['\n'] + paragraphs(rest, true)
        }
    }
}

/// A description without tags and with at most one blank line in a row.
pub open spec fn description_text(s: Seq<char>) -> Seq<char> {
    trimmed(paragraphs(split_on(outside_tags(s, false), '\n'), false))
}

/// A description without tags and with at most one blank line in a row.
pub fn strip_inline_tags(text: &str) -> (out: String)
    ensures
        out@ == description_text(text@),
{
    let chars = to_chars(text);
    let plain = drop_tags(chars.as_slice());
    let list = split_char(plain.as_slice(), '\n');
    let ghost lines = pieces(list@);
    let mut result: Vec<char> = Vec::new();
    let mut after_blank = false;
    proof {
        assert(lines.skip(0) =~= lines);
        assert(result@ + paragraphs(lines, false) =~= paragraphs(lines, false));
    }
    for i in 0..list.len()
        invariant
            lines == pieces(list@),
            result@ + paragraphs(lines.skip(i as int), after_blank) == paragraphs(lines, false),
    {
        let t = trim(list[i].as_slice());
        let ghost before = result@;
        let ghost was = after_blank;
        let ghost rest = lines.skip(i as int);
        proof {
            assert(rest.skip(1) =~= lines.skip(i + 1));
            assert(t@ == trimmed(rest[0]));
        }
        if t.len() == 0 {
            if !after_blank {
                result.push('\n');
            }
            after_blank = true;
        } else {
            after_blank = false;
            push_all(&mut result, t);
            result.push('\n');
        }
        proof {
            assert(result@ + paragraphs(lines.skip(i + 1), after_blank) =~= before + paragraphs(
                rest,
                was,
            ));
        }
    }
    proof {
        assert(lines.skip(lines.len() as int) =~= Seq::<Seq<char>>::empty());
        assert(result@ + paragraphs(lines.skip(lines.len() as int), after_blank) =~= result@);
    }
    let out = trim(result.as_slice());
    from_chars(out)
}

/// Whether text is free of tag brackets.
pub open spec fn no_brackets(s: Seq<char>) -> bool {
    forall|i: int| 0 <= i < s.len() ==> #[trigger] s[i] != '<' && s[i] != '>'
}

/// No tag bracket is left in text whose tags were dropped.
pub proof fn no_brackets_outside_tags(s: Seq<char>, in_tag: bool)
    ensures
        no_brackets(outside_tags(s, in_tag)),
    decreases s.len(),
{
    if s.len() > 0 {
        no_brackets_outside_tags(s.skip(1), true);
        no_brackets_outside_tags(s.skip(1), false);
        let rest = outside_tags(s.skip(1), false);
        if s[0] != '<' && s[0] != '>' && !in_tag {
            assert forall|i: int| 0 <= i < (seq![s[0]] + rest).len() implies #[trigger] (seq![s[0]]
                + rest)[i] != '<' && (seq![s[0]] + rest)[i] != '>' by {
                if i > 0 {
                    assert((seq![s[0]] + rest)[i] == rest[i - 1]);
                }
            }
        }
    }
}

/// Dropping tags changes nothing in text without tag brackets.
pub proof fn text_without_brackets_is_kept(s: Seq<char>)
    requires
        no_brackets(s),
    ensures
        outside_tags(s, false) == s,
    decreases s.len(),
{
    if s.len() > 0 {
        assert forall|i: int| 0 <= i < s.skip(1).len() implies #[trigger] s.skip(1)[i] != '<'
            && s.skip(1)[i] != '>' by {
            assert(s.skip(1)[i] == s[i + 1]);
        }
        text_without_brackets_is_kept(s.skip(1));
        assert(seq![s[0]] + s.skip(1) =~= s);
    }
}

/// The lines that paragraphs are made of: each without the space around it, and one empty line for a
/// run of blank ones.
spec fn collapsed(lines: Seq<Seq<char>>, after_blank: bool) -> Seq<Seq<char>>
    decreases lines.len(),
{
    if lines.len() == 0 {
        seq![]
    } else {
        let t = trimmed(lines[0]);
        let rest = lines.skip(1);
        if t.len() > 0 {
            seq![t] + collapsed(rest, false)
        } else if after_blank {
            collapsed(rest, true)
        } else {
            seq![t] + collapsed(rest, true)
        }
    }
}

/// Lines, each with a line feed behind it.
spec fn with_feeds(lines: Seq<Seq<char>>) -> Seq<char>
    decreases lines.len(),
{
    if lines.len() == 0 {
        seq![]
    } else {
        lines[0] + seq!['\n'] + with_feeds(lines.skip(1))
    }
}

proof fn paragraphs_are_lines(lines: Seq<Seq<char>>, after_blank: bool)
    ensures
        paragraphs(lines, after_blank) == with_feeds(collapsed(lines, after_blank)),
    decreases lines.len(),
{
    if lines.len() > 0 {
        let t = trimmed(lines[0]);
        let rest = lines.skip(1);
        let after = t.len() == 0;
        paragraphs_are_lines(rest, after);
        let more = collapsed(rest, after);
        assert((seq![t] + more).skip(1) =~= more);
        if t.len() == 0 {
            assert(t + seq!['\n'] + with_feeds(more) =~= seq!['\n'] + with_feeds(more));
        }
    }
}

/// A line without space around it, without line feeds and without brackets.
spec fn is_tidy_line(t: Seq<char>) -> bool {
    trimmed(t) == t && !t.contains('\n') && no_brackets(t)
}

/// Lines that are tidy, no two empty ones in a row.
spec fn is_tidy(lines: Seq<Seq<char>>) -> bool {
    &&& forall|i: int| 0 <= i < lines.len() ==> is_tidy_line(#[trigger] lines[i])
    &&& forall|i: int|
        0 <= i < lines.len() - 1 ==> !((#[trigger] lines[i]).len() == 0 && lines[i + 1].len() == 0)
}

proof fn tidy_rest(lines: Seq<Seq<char>>)
    requires
        is_tidy(lines),
        lines.len() > 0,
    ensures
        is_tidy(lines.skip(1)),
{
    let rest = lines.skip(1);
    assert forall|i: int| 0 <= i < rest.len() implies is_tidy_line(#[trigger] rest[i]) by {
        assert(rest[i] == lines[i + 1]);
    }
    assert forall|i: int| 0 <= i < rest.len() - 1 implies !((#[trigger] rest[i]).len() == 0
        && rest[i + 1].len() == 0) by {
        assert(rest[i] == lines[i + 1]);
        assert(rest[i + 1] == lines[i + 2]);
    }
}

proof fn trimming_tidies(s: Seq<char>)
    requires
        !s.contains('\n'),
        no_brackets(s),
    ensures
        is_tidy_line(trimmed(s)),
{
    let t = trimmed(s);
    trimming_twice(s);
    run_len_bound(s, spaces());
    tail_run_len_bound(trimmed_start(s), spaces());
    let k = run_len(s, spaces()) as int;
    assert forall|i: int| 0 <= i < t.len() implies #[trigger] t[i] == s[i + k] by {}
    if t.contains('\n') {
        let i = choose|i: int| 0 <= i < t.len() && t[i] == '\n';
        assert(s[i + k] == '\n');
    }
    assert forall|i: int| 0 <= i < t.len() implies #[trigger] t[i] != '<' && t[i] != '>' by {
        assert(t[i] == s[i + k]);
    }
}

proof fn collapsing_tidies(lines: Seq<Seq<char>>, after_blank: bool)
    requires
        forall|i: int|
            0 <= i < lines.len() ==> !(#[trigger] lines[i]).contains('\n') && no_brackets(lines[i]),
    ensures
        is_tidy(collapsed(lines, after_blank)),
        after_blank && collapsed(lines, after_blank).len() > 0 ==> collapsed(
            lines,
            after_blank,
        )[0].len() > 0,
    decreases lines.len(),
{
    if lines.len() > 0 {
        let t = trimmed(lines[0]);
        let rest = lines.skip(1);
        let after = t.len() == 0;
        assert forall|i: int| 0 <= i < rest.len() implies !(#[trigger] rest[i]).contains('\n')
            && no_brackets(rest[i]) by {
            assert(rest[i] == lines[i + 1]);
        }
        trimming_tidies(lines[0]);
        collapsing_tidies(rest, after);
        let more = collapsed(rest, after);
        let all = seq![t] + more;
        assert(is_tidy(all)) by {
            assert forall|i: int| 0 <= i < all.len() implies is_tidy_line(#[trigger] all[i]) by {
                if i > 0 {
                    assert(all[i] == more[i - 1]);
                }
            }
            assert forall|i: int| 0 <= i < all.len() - 1 implies !((#[trigger] all[i]).len() == 0
                && all[i + 1].len() == 0) by {
                assert(all[i + 1] == more[i]);
                if i > 0 {
                    assert(all[i] == more[i - 1]);
                }
            }
        }
    }
}

proof fn tidy_lines_stay(lines: Seq<Seq<char>>, after_blank: bool)
    requires
        is_tidy(lines),
        after_blank && lines.len() > 0 ==> lines[0].len() > 0,
    ensures
        collapsed(lines, after_blank) == lines,
    decreases lines.len(),
{
    if lines.len() > 0 {
        let t = lines[0];
        let rest = lines.skip(1);
        assert(is_tidy_line(t));
        tidy_rest(lines);
        if rest.len() > 0 {
            assert(rest[0] == lines[1]);
        }
        tidy_lines_stay(rest, t.len() == 0);
        assert(seq![t] + rest =~= lines);
    } else {
        assert(collapsed(lines, after_blank) =~= lines);
    }
}

proof fn feeds_distribute(a: Seq<Seq<char>>, b: Seq<Seq<char>>)
    ensures
        with_feeds(a + b) == with_feeds(a) + with_feeds(b),
    decreases a.len(),
{
    if a.len() == 0 {
        assert(a + b =~= b);
        assert(with_feeds(a) + with_feeds(b) =~= with_feeds(b));
    } else {
        feeds_distribute(a.skip(1), b);
        assert((a + b).skip(1) =~= a.skip(1) + b);
        assert(with_feeds(a + b) =~= with_feeds(a) + with_feeds(b));
    }
}

/// Text that is cut into lines and put together again is the same, with a line feed behind it.
proof fn split_has_feeds(s: Seq<char>)
    ensures
        with_feeds(split_on(s, '\n')) == s + seq!['\n'],
    decreases s.len(),
{
    let k = index_of(s, '\n') as int;
    run_len_bound(s, other_than('\n'));
    if k < s.len() {
        let rest = s.skip(k + 1);
        split_has_feeds(rest);
        let parts = split_on(s, '\n');
        assert(parts.skip(1) =~= split_on(rest, '\n'));
        assert(s[k] == '\n');
        assert(s.take(k) + seq!['\n'] + (rest + seq!['\n']) =~= s + seq!['\n']);
    } else {
        let parts = seq![s];
        reveal_with_fuel(with_feeds, 2);
        assert(parts.skip(1) =~= seq![]);
        assert(s + seq!['\n'] + Seq::<char>::empty() =~= s + seq!['\n']);
    }
}

/// Cutting at a separator cuts the text before it and the text behind it.
proof fn split_at_cut(a: Seq<char>, c: char, b: Seq<char>)
    ensures
        split_on(a.push(c) + b, c) == split_on(a, c) + split_on(b, c),
    decreases a.len(),
{
    let s = a.push(c) + b;
    let k = index_of(a, c) as int;
    run_len_bound(a, other_than(c));
    assert forall|i: int| 0 <= i < k implies other_than(c)(#[trigger] s[i]) by {
        assert(s[i] == a[i]);
    }
    if k < a.len() {
        assert(s[k] == a[k]);
        run_len_is(s, other_than(c), k as nat);
        let rest = a.skip(k + 1);
        split_at_cut(rest, c, b);
        assert(s.skip(k + 1) =~= rest.push(c) + b);
        assert(s.take(k) =~= a.take(k));
        assert(split_on(s, c) =~= split_on(a, c) + split_on(b, c));
    } else {
        assert(s[k] == c);
        run_len_is(s, other_than(c), k as nat);
        assert(s.take(k) =~= a);
        assert(s.skip(k + 1) =~= b);
    }
}

/// The pieces between separators hold none, and nothing that the text does not hold.
proof fn split_parts_are_clean(s: Seq<char>, c: char)
    requires
        no_brackets(s),
    ensures
        forall|i: int|
            0 <= i < split_on(s, c).len() ==> !(#[trigger] split_on(s, c)[i]).contains(c)
                && no_brackets(split_on(s, c)[i]),
    decreases s.len(),
{
    let k = index_of(s, c) as int;
    run_len_bound(s, other_than(c));
    let head = s.take(k);
    assert(!head.contains(c) && no_brackets(head));
    if k < s.len() {
        let rest = s.skip(k + 1);
        assert forall|i: int| 0 <= i < rest.len() implies #[trigger] rest[i] != '<' && rest[i]
            != '>' by {
            assert(rest[i] == s[i + k + 1]);
        }
        split_parts_are_clean(rest, c);
        let parts = split_on(s, c);
        let more = split_on(rest, c);
        assert forall|i: int| 0 <= i < parts.len() implies !(#[trigger] parts[i]).contains(c)
            && no_brackets(parts[i]) by {
            if i > 0 {
                assert(parts[i] == more[i - 1]);
            }
        }
    } else {
        assert(s.take(k) =~= s);
    }
}

/// Lines without feeds in them come out of the text that they make, with one empty piece behind the
/// last feed.
proof fn feeds_split_back(lines: Seq<Seq<char>>)
    requires
        is_tidy(lines),
    ensures
        split_on(with_feeds(lines), '\n') == lines.push(seq![]),
    decreases lines.len(),
{
    if lines.len() == 0 {
        assert(split_on(with_feeds(lines), '\n') =~= lines.push(seq![]));
    } else {
        let t = lines[0];
        let rest = lines.skip(1);
        assert(is_tidy_line(t));
        tidy_rest(lines);
        feeds_split_back(rest);
        split_at_cut(t, '\n', with_feeds(rest));
        assert(t.push('\n') + with_feeds(rest) =~= with_feeds(lines));
        assert forall|i: int| 0 <= i < t.len() implies other_than('\n')(#[trigger] t[i]) by {}
        run_len_is(t, other_than('\n'), t.len());
        assert(split_on(t, '\n') =~= seq![t]);
        assert(seq![t] + rest.push(seq![]) =~= lines.push(seq![]));
    }
}

/// Whether text has nowhere three line feeds in a row.
pub open spec fn no_three_feeds(s: Seq<char>) -> bool {
    forall|i: int|
        0 <= i < s.len() - 2 ==> !(#[trigger] s[i] == '\n' && s[i + 1] == '\n' && s[i + 2] == '\n')
}

/// Whether no line of a text has space around it.
pub open spec fn lines_are_trimmed(s: Seq<char>) -> bool {
    forall|i: int|
        0 <= i < split_on(s, '\n').len() ==> trimmed(#[trigger] split_on(s, '\n')[i])
            == split_on(s, '\n')[i]
}

proof fn tidy_lines_have_no_three_feeds(s: Seq<char>)
    requires
        is_tidy(split_on(s, '\n')),
    ensures
        no_three_feeds(s),
{
    assert forall|i: int| 0 <= i < s.len() - 2 implies !(#[trigger] s[i] == '\n' && s[i + 1] == '\n'
        && s[i + 2] == '\n') by {
        if s[i] == '\n' && s[i + 1] == '\n' && s[i + 2] == '\n' {
            let (a, b) = (s.take(i), s.skip(i + 3));
            let none = Seq::<char>::empty();
            let tail = none.push('\n') + b;
            let mid = none.push('\n') + tail;
            assert(s =~= a.push('\n') + mid);
            split_at_cut(a, '\n', mid);
            split_at_cut(none, '\n', tail);
            split_at_cut(none, '\n', b);
            assert(split_on(none, '\n') =~= seq![none]);
            let n = split_on(a, '\n').len() as int;
            let all = split_on(s, '\n');
            assert(all =~= split_on(a, '\n') + (seq![none] + (seq![none] + split_on(b, '\n'))));
            assert(all[n] == none);
            assert(all[n + 1] == none);
        }
    }
}

/// Line feeds before and behind text are trimmed away.
proof fn feeds_are_trimmed(before: Seq<char>, s: Seq<char>, behind: Seq<char>)
    requires
        forall|i: int| 0 <= i < before.len() ==> #[trigger] before[i] == '\n',
        forall|i: int| 0 <= i < behind.len() ==> #[trigger] behind[i] == '\n',
        s.len() > 0 ==> !is_space(s[0]) && !is_space(s.last()),
    ensures
        trimmed(before + s + behind) == s,
{
    let all = before + s + behind;
    let n = before.len();
    assert forall|i: int| 0 <= i < n implies spaces()(#[trigger] all[i]) by {
        assert(all[i] == before[i]);
    }
    if s.len() > 0 {
        assert(all[n as int] == s[0]);
        run_len_is(all, spaces(), n);
        assert(all.skip(n as int) =~= s + behind);
        trimming_keeps(s, behind);
        let rest = s + behind;
        assert(rest[0] == s[0]);
        run_len_is(rest, spaces(), 0);
        assert(rest.skip(0) =~= rest);
    } else {
        assert forall|i: int| 0 <= i < all.len() implies spaces()(#[trigger] all[i]) by {
            if i >= n {
                assert(all[i] == behind[i - n]);
            }
        }
        run_len_is(all, spaces(), all.len());
        assert(trimmed(all) =~= s);
    }
}

/// What is left of tidy lines without an empty one at either end.
spec fn inner_lines(lines: Seq<Seq<char>>) -> Seq<Seq<char>> {
    let a = if lines.len() > 0 && lines[0].len() == 0 {
        lines.skip(1)
    } else {
        lines
    };
    if a.len() > 0 && a.last().len() == 0 {
        a.drop_last()
    } else {
        a
    }
}

/// The text of tidy lines: its own lines are tidy, and it is what trimming leaves.
#[verifier::rlimit(60)]
#[verifier::spinoff_prover]
proof fn text_of_tidy_lines(lines: Seq<Seq<char>>)
    requires
        is_tidy(lines),
    ensures
        ({
            let r = trimmed(with_feeds(lines));
            &&& r.len() > 0 ==> is_tidy(split_on(r, '\n')) && !is_space(r[0]) && !is_space(r.last())
        }),
{
    let inner = inner_lines(lines);
    let none = seq![Seq::<char>::empty()];
    let starts = lines.len() > 0 && lines[0].len() == 0;
    let a = if starts {
        lines.skip(1)
    } else {
        lines
    };
    let ends = a.len() > 0 && a.last().len() == 0;
    let before = if starts {
        seq!['\n']
    } else {
        seq![]
    };
    let behind = if ends {
        seq!['\n']
    } else {
        seq![]
    };
    assert(with_feeds(none) =~= seq!['\n']) by {
        reveal_with_fuel(with_feeds, 2);
        assert(none.skip(1) =~= seq![]);
    }
    if starts {
        assert(lines[0] =~= Seq::<char>::empty());
        assert(lines =~= none + a);
        feeds_distribute(none, a);
    }
    if ends {
        assert(a.last() =~= Seq::<char>::empty());
        assert(a =~= inner + none);
        feeds_distribute(inner, none);
    }
    let body = with_feeds(inner);
    assert(with_feeds(lines) =~= before + body + behind);
    let shift = if starts {
        1int
    } else {
        0
    };
    assert(is_tidy(inner)) by {
        assert forall|i: int| 0 <= i < inner.len() implies is_tidy_line(#[trigger] inner[i]) by {
            assert(inner[i] == lines[i + shift]);
        }
        assert forall|i: int| 0 <= i < inner.len() - 1 implies !((#[trigger] inner[i]).len() == 0
            && inner[i + 1].len() == 0) by {
            assert(inner[i] == lines[i + shift]);
            assert(inner[i + 1] == lines[i + shift + 1]);
        }
    }
    if inner.len() == 0 {
        feeds_are_trimmed(before, seq![], behind);
        assert(before + Seq::<char>::empty() + behind =~= with_feeds(lines));
    } else {
        let n = inner.len() as int;
        assert(inner[0] == lines[shift]);
        assert(inner[0].len() > 0) by {
            if starts {
                assert(lines[0].len() == 0);
                assert(!(lines[0int].len() == 0 && lines[0int + 1].len() == 0));
            }
        }
        assert(inner.last().len() > 0) by {
            if ends {
                assert(inner[n - 1] == lines[n - 1 + shift]);
                assert(lines[n - 1 + shift + 1] == a.last());
            }
        }
        // The body without its last feed.
        let front = inner.drop_last();
        let last = inner.last();
        assert(inner =~= front + seq![last]);
        feeds_distribute(front, seq![last]);
        assert(with_feeds(seq![last]) =~= last + seq!['\n']) by {
            reveal_with_fuel(with_feeds, 2);
            assert(seq![last].skip(1) =~= seq![]);
        }
        let r = with_feeds(front) + last;
        assert(body =~= r + seq!['\n']);
        assert(is_tidy_line(last));
        trimmed_has_no_outer_space(last);
        assert(r.last() == last.last());
        assert(is_tidy_line(inner[0]));
        trimmed_has_no_outer_space(inner[0]);
        assert(body[0] == inner[0][0]);
        assert(r[0] == body[0]);
        feeds_are_trimmed(before, r, seq!['\n'] + behind);
        assert(before + r + (seq!['\n'] + behind) =~= with_feeds(lines));
        feeds_split_back(inner);
        split_at_cut(r, '\n', seq![]);
        assert(r.push('\n') + Seq::<char>::empty() =~= body);
        assert(split_on(Seq::<char>::empty(), '\n') =~= seq![seq![]]);
        let parts = split_on(r, '\n');
        assert(parts + seq![Seq::<char>::empty()] =~= inner.push(seq![]));
        assert(parts =~= inner) by {
            let (x, y) = (parts + seq![Seq::<char>::empty()], inner.push(seq![]));
            assert(x.len() == y.len());
            assert forall|i: int| 0 <= i < inner.len() implies parts[i] == inner[i] by {
                assert(x[i] == y[i]);
            }
        }
    }
}

/// A description without markup has no tag brackets, no three line feeds in a row and no space
/// around it or around a line of it; taking the markup out once more changes nothing.
pub proof fn stripped_text_is_clean(s: Seq<char>)
    ensures
        no_brackets(description_text(s)),
        no_three_feeds(description_text(s)),
        lines_are_trimmed(description_text(s)),
        trimmed(description_text(s)) == description_text(s),
        description_text(description_text(s)) == description_text(s),
{
    let plain = outside_tags(s, false);
    no_brackets_outside_tags(s, false);
    let parts = split_on(plain, '\n');
    split_parts_are_clean(plain, '\n');
    collapsing_tidies(parts, false);
    paragraphs_are_lines(parts, false);
    text_of_tidy_lines(collapsed(parts, false));
    let r = description_text(s);
    trimming_twice(paragraphs(parts, false));
    let lines = split_on(r, '\n');
    if r.len() == 0 {
        assert(r =~= seq![]);
        assert(lines =~= seq![seq![]]);
        assert(trimmed(seq![]) =~= seq![]);
        assert(is_tidy(lines)) by {
            assert forall|i: int| 0 <= i < lines.len() implies is_tidy_line(#[trigger] lines[i]) by {
                assert(lines[i] =~= seq![]);
            }
        }
    }
    tidy_lines_have_no_three_feeds(r);
    assert(lines_are_trimmed(r)) by {
        assert forall|i: int| 0 <= i < lines.len() implies trimmed(#[trigger] lines[i]) == lines[i] by {
            assert(is_tidy_line(lines[i]));
        }
    }
    split_has_feeds(r);
    no_brackets_in_lines(lines);
    assert forall|i: int| 0 <= i < r.len() implies #[trigger] r[i] != '<' && r[i] != '>' by {
        assert(with_feeds(lines)[i] == r[i]);
    }
    text_without_brackets_is_kept(r);
    tidy_lines_stay(lines, false);
    paragraphs_are_lines(lines, false);
    feeds_are_trimmed(seq![], r, seq!['\n']);
    assert(Seq::<char>::empty() + r + seq!['\n'] =~= r + seq!['\n']);
}

proof fn no_brackets_in_lines(lines: Seq<Seq<char>>)
    requires
        is_tidy(lines),
    ensures
        no_brackets(with_feeds(lines)),
    decreases lines.len(),
{
    if lines.len() > 0 {
        let rest = lines.skip(1);
        assert(is_tidy_line(lines[0]));
        tidy_rest(lines);
        no_brackets_in_lines(rest);
    }
}

// ---------------------------------------------------------------------------
// Laws on what is left

/// A tag vanishes; the text before it stays, and so does what is left of the text behind it.
pub proof fn tags_vanish(before: Seq<char>, tag: Seq<char>, behind: Seq<char>)
    requires
        no_brackets(before),
        no_brackets(tag),
    ensures
        outside_tags(before + seq!['<'] + tag + seq!['>'] + behind, false) == before + outside_tags(
            behind,
            false,
        ),
    decreases before.len(),
{
    let s = before + seq!['<'] + tag + seq!['>'] + behind;
    if before.len() == 0 {
        let rest = tag + seq!['>'] + behind;
        assert(s[0] == '<');
        assert(s.skip(1) =~= rest);
        tags_end(tag, behind);
        assert(before + outside_tags(behind, false) =~= outside_tags(behind, false));
    } else {
        let more = before.skip(1);
        assert forall|i: int| 0 <= i < more.len() implies #[trigger] more[i] != '<' && more[i]
            != '>' by {
            assert(more[i] == before[i + 1]);
        }
        tags_vanish(more, tag, behind);
        assert(s[0] == before[0]);
        assert(s.skip(1) =~= more + seq!['<'] + tag + seq!['>'] + behind);
        assert(seq![before[0]] + (more + outside_tags(behind, false)) =~= before + outside_tags(
            behind,
            false,
        ));
    }
}

proof fn tags_end(tag: Seq<char>, behind: Seq<char>)
    requires
        no_brackets(tag),
    ensures
        outside_tags(tag + seq!['>'] + behind, true) == outside_tags(behind, false),
    decreases tag.len(),
{
    let s = tag + seq!['>'] + behind;
    if tag.len() == 0 {
        assert(s[0] == '>');
        assert(s.skip(1) =~= behind);
    } else {
        let more = tag.skip(1);
        assert forall|i: int| 0 <= i < more.len() implies #[trigger] more[i] != '<' && more[i]
            != '>' by {
            assert(more[i] == tag[i + 1]);
        }
        tags_end(more, behind);
        assert(s[0] == tag[0]);
        assert(s.skip(1) =~= more + seq!['>'] + behind);
    }
}

/// No word of a text is lost or changed when the markup is taken out, and none is added.
pub proof fn words_are_kept(s: Seq<char>)
    ensures
        words_of(html_text(s)) == words_of(outside_tags(s, false)),
        words_of(description_text(s)) == words_of(outside_tags(s, false)),
{
    let plain = outside_tags(s, false);
    words_are_words(plain);
    joined_words_are_words(words_of(plain));
    let parts = split_on(plain, '\n');
    split_has_feeds(plain);
    paragraphs_keep_words(parts, false);
    trimming_keeps_words(paragraphs(parts, false));
    words_on_both_sides(plain, '\n', seq![]);
    assert(plain.push('\n') + Seq::<char>::empty() =~= plain + seq!['\n']);
    single_word(Seq::<char>::empty());
    assert(words_of(plain) + Seq::<Seq<char>>::empty() =~= words_of(plain));
}

proof fn paragraphs_keep_words(lines: Seq<Seq<char>>, after_blank: bool)
    ensures
        words_of(paragraphs(lines, after_blank)) == words_of(with_feeds(lines)),
    decreases lines.len(),
{
    if lines.len() > 0 {
        let t = trimmed(lines[0]);
        let rest = lines.skip(1);
        let more = paragraphs(rest, t.len() == 0);
        paragraphs_keep_words(rest, t.len() == 0);
        trimming_keeps_words(lines[0]);
        words_on_both_sides(lines[0], '\n', with_feeds(rest));
        assert(lines[0].push('\n') + with_feeds(rest) =~= with_feeds(lines));
        words_on_both_sides(t, '\n', more);
        if t.len() == 0 {
            assert(t =~= Seq::<char>::empty());
            single_word(t);
            assert(words_of(t) + words_of(more) =~= words_of(more));
            assert(t.push('\n') + more =~= seq!['\n'] + more);
        } else {
            assert(t.push('\n') + more =~= t + seq!['\n'] + more);
        }
    }
}

/// On one line there is a single space between two words, and none elsewhere.
pub proof fn words_stand_on_one_line(list: Seq<Seq<char>>)
    requires
        forall|i: int|
            0 <= i < list.len() ==> is_one_word(#[trigger] list[i]) && no_brackets(list[i]),
    ensures
        html_text(joined(list, " "@)) == joined(list, " "@),
{
    assert forall|i: int| 0 <= i < list.len() implies is_one_word(#[trigger] list[i]) by {}
    joined_words_are_words(list);
    joined_has_no_brackets(list);
    text_without_brackets_is_kept(joined(list, " "@));
}

proof fn joined_has_no_brackets(list: Seq<Seq<char>>)
    requires
        forall|i: int| 0 <= i < list.len() ==> no_brackets(#[trigger] list[i]),
    ensures
        no_brackets(joined(list, " "@)),
    decreases list.len(),
{
    reveal_strlit(" ");
    if list.len() > 0 {
        assert(no_brackets(list[0]));
        assert(no_brackets(list[list.len() - 1]));
        let front = list.drop_last();
        assert forall|i: int| 0 <= i < front.len() implies no_brackets(#[trigger] front[i]) by {
            assert(front[i] == list[i]);
        }
        joined_has_no_brackets(front);
    }
}

/// Whether lines are as a description has them: without brackets and without space around them, the
/// first and the last not empty, and no two empty ones in a row.
pub open spec fn is_laid_out(lines: Seq<Seq<char>>) -> bool {
    &&& lines.len() > 0
    &&& lines[0].len() > 0
    &&& lines.last().len() > 0
    &&& forall|i: int|
        0 <= i < lines.len() ==> trimmed(#[trigger] lines[i]) == lines[i] && !lines[i].contains('\n')
            && no_brackets(lines[i])
    &&& forall|i: int|
        0 <= i < lines.len() - 1 ==> !((#[trigger] lines[i]).len() == 0 && lines[i + 1].len() == 0)
}

/// A description that is laid out already is kept as it is, line by line.
pub proof fn laid_out_text_is_kept(lines: Seq<Seq<char>>)
    requires
        is_laid_out(lines),
    ensures
        description_text(joined(lines, seq!['\n'])) == joined(lines, seq!['\n']),
{
    let s = joined(lines, seq!['\n']);
    assert forall|i: int| 0 <= i < lines.len() implies is_tidy_line(#[trigger] lines[i]) by {}
    assert(is_tidy(lines));
    assert forall|i: int| 0 <= i < lines.len() implies !(#[trigger] lines[i]).contains('\n') by {}
    joined_pieces_split(lines, '\n');
    split_has_feeds(s);
    no_brackets_in_lines(lines);
    assert forall|i: int| 0 <= i < s.len() implies #[trigger] s[i] != '<' && s[i] != '>' by {
        assert(with_feeds(lines)[i] == s[i]);
    }
    text_without_brackets_is_kept(s);
    tidy_lines_stay(lines, false);
    paragraphs_are_lines(lines, false);
    trimmed_has_no_outer_space(lines[0]);
    trimmed_has_no_outer_space(lines.last());
    assert(trimmed(lines[lines.len() - 1]) == lines[lines.len() - 1]);
    joined_ends(lines);
    feeds_are_trimmed(seq![], s, seq!['\n']);
    assert(Seq::<char>::empty() + s + seq!['\n'] =~= s + seq!['\n']);
}

proof fn joined_ends(lines: Seq<Seq<char>>)
    requires
        lines.len() > 0,
        lines[0].len() > 0,
        lines.last().len() > 0,
    ensures
        joined(lines, seq!['\n']).len() > 0,
        joined(lines, seq!['\n'])[0] == lines[0][0],
        joined(lines, seq!['\n']).last() == lines.last().last(),
{
    if lines.len() > 1 {
        joined_front(lines, seq!['\n']);
        let s = joined(lines, seq!['\n']);
        assert(s =~= lines[0] + seq!['\n'] + joined(lines.skip(1), seq!['\n']));
        assert(s[0] == lines[0][0]);
    }
}

/// However many blank lines stand between two lines, one is left.
pub proof fn blank_lines_are_merged(a: Seq<char>, n: nat, b: Seq<char>)
    requires
        n > 0,
        is_laid_out(seq![a]),
        is_laid_out(seq![b]),
    ensures
        description_text(a + Seq::new(n + 1, |i: int| '\n') + b) == a + seq!['\n', '\n'] + b,
{
    assert(a == seq![a][0] && b == seq![b][0]);
    let none = Seq::<char>::empty();
    let feeds = Seq::new(n + 1, |i: int| '\n');
    let s = a + feeds + b;
    let rest = Seq::new(n, |i: int| '\n') + b;
    assert(s =~= a.push('\n') + rest);
    assert(no_brackets(s)) by {
        assert forall|i: int| 0 <= i < s.len() implies #[trigger] s[i] != '<' && s[i] != '>' by {
            if i < a.len() {
                assert(s[i] == a[i]);
            } else if i >= a.len() + n + 1 {
                assert(s[i] == b[i - a.len() - n - 1]);
            }
        }
    }
    text_without_brackets_is_kept(s);
    pieces_follow(a, '\n', rest);
    let lines = split_on(s, '\n');
    assert(lines.skip(1) =~= split_on(rest, '\n'));
    blank_run(n, b, false);
    let r = a + seq!['\n', '\n'] + b;
    assert(paragraphs(lines, false) =~= r + seq!['\n']);
    trimmed_has_no_outer_space(a);
    trimmed_has_no_outer_space(b);
    assert(r[0] == a[0]);
    assert(r.last() == b.last());
    feeds_are_trimmed(seq![], r, seq!['\n']);
    assert(none + r + seq!['\n'] =~= r + seq!['\n']);
}

proof fn blank_run(n: nat, b: Seq<char>, after_blank: bool)
    requires
        is_laid_out(seq![b]),
    ensures
        paragraphs(split_on(Seq::new(n, |i: int| '\n') + b, '\n'), after_blank) == (if n > 0
            && !after_blank {
            seq!['\n']
        } else {
            seq![]
        }) + b + seq!['\n'],
    decreases n,
{
    assert(b == seq![b][0]);
    let s = Seq::new(n, |i: int| '\n') + b;
    let none = Seq::<char>::empty();
    if n == 0 {
        assert(s =~= b);
        pieces_follow(b, '\n', none);
        let lines = seq![b];
        assert(lines.skip(1) =~= seq![]);
        reveal_with_fuel(paragraphs, 2);
        assert(b + seq!['\n'] + none =~= none + b + seq!['\n']);
    } else {
        let m = (n - 1) as nat;
        let rest = Seq::new(m, |i: int| '\n') + b;
        assert(s =~= none.push('\n') + rest);
        pieces_follow(none, '\n', rest);
        let lines = split_on(s, '\n');
        assert(lines.skip(1) =~= split_on(rest, '\n'));
        blank_run(m, b, true);
        assert(trimmed(none).len() == 0) by {
            trimmed_has_no_outer_space(none);
            run_len_bound(none, spaces());
        }
        assert(lines[0] =~= none);
        assert(seq!['\n'] + (none + b + seq!['\n']) =~= seq!['\n'] + b + seq!['\n']);
    }
}

} // verus!
