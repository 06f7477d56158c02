//! Text primitives: comparison, searching, trimming, splitting and joining.
//!
//! A text is modelled as the sequence of its characters.

use vstd::prelude::*;

verus! {

/// Characters with the Unicode property `White_Space`.
pub open spec fn is_white_space(c: char) -> bool {
    ||| '\u{9}' <= c <= '\u{d}'
    ||| c == '\u{20}'
    ||| c == '\u{85}'
    ||| c == '\u{a0}'
    ||| c == '\u{1680}'
    ||| '\u{2000}' <= c <= '\u{200a}'
    ||| c == '\u{2028}'
    ||| c == '\u{2029}'
    ||| c == '\u{202f}'
    ||| c == '\u{205f}'
    ||| c == '\u{3000}'
}

/// `s` without its leading white space.
pub open spec fn trimmed_start(s: Seq<char>) -> Seq<char>
    decreases s.len(),
{
    if s.len() > 0 && is_white_space(s[0]) {
        trimmed_start(s.drop_first())
    } else {
        s
    }
}

/// `s` without its trailing white space.
pub open spec fn trimmed_end(s: Seq<char>) -> Seq<char>
    decreases s.len(),
{
    if s.len() > 0 && is_white_space(s.last()) {
        trimmed_end(s.drop_last())
    } else {
        s
    }
}

/// `s` without its leading and trailing white space.
pub open spec fn trimmed(s: Seq<char>) -> Seq<char> {
    trimmed_end(trimmed_start(s))
}

/// The pieces of `s` between the occurrences of `sep`; one more than there are occurrences.
pub open spec fn segments(s: Seq<char>, sep: char) -> Seq<Seq<char>>
    decreases s.len(),
{
    if s.len() == 0 {
        seq![Seq::<char>::empty()]
    } else {
        let done = segments(s.drop_last(), sep);
        if s.last() == sep {
            done.push(Seq::<char>::empty())
        } else {
            done.update(done.len() - 1, done.last().push(s.last()))
        }
    }
}

/// The part of `s` before the first `c`; all of `s` where `c` does not occur.
pub open spec fn before_first(s: Seq<char>, c: char) -> Seq<char>
    decreases s.len(),
{
    if s.len() == 0 || s[0] == c {
        Seq::empty()
    } else {
        seq![s[0]] + before_first(s.drop_first(), c)
    }
}

/// `parts` with `sep` between each two neighbours.
pub open spec fn joined(parts: Seq<Seq<char>>, sep: Seq<char>) -> Seq<char>
    decreases parts.len(),
{
    if parts.len() == 0 {
        Seq::empty()
    } else if parts.len() == 1 {
        parts[0]
    } else {
        joined(parts.drop_last(), sep) + sep + parts.last()
    }
}

/// `pattern` occurs in `s` as a contiguous piece.
pub open spec fn contains_text(s: Seq<char>, pattern: Seq<char>) -> bool {
    exists|i: int|
        0 <= i <= s.len() - pattern.len() && #[trigger] s.subrange(i, i + pattern.len()) == pattern
}

/// `s` begins with `prefix`.
pub open spec fn begins_with(s: Seq<char>, prefix: Seq<char>) -> bool {
    prefix.len() <= s.len() && s.take(prefix.len() as int) == prefix
}

/// The views of texts.
pub open spec fn views(parts: Seq<&str>) -> Seq<Seq<char>> {
    parts.map_values(|p: &str| p@)
}

/// The view of an optional text.
pub open spec fn optional_view(s: Option<String>) -> Option<Seq<char>> {
    match s {
        Some(text) => Some(text@),
        None => None,
    }
}

/// Whether two texts are equal.
pub fn same_text(a: &str, b: &str) -> (r: bool)
    ensures
        r == (a@ == b@),
{
    a.to_owned() == b.to_owned()
}

/// The characters of a text.
pub fn chars_of(s: &str) -> (r: Vec<char>)
    ensures
        r@ == s@,
{
    let mut out: Vec<char> = Vec::new();
    for c in it: s.chars()
        invariant
            it.seq() == s@,
            out@ == s@.take(it.index() as int),
    {
        out.push(c);
        assert(s@.take(it.index() as int).push(c) == s@.take(it.index() + 1));
    }
    assert(s@.take(s@.len() as int) == s@);
    out
}

/// Whether a character counts as white space when a text is trimmed.
pub fn is_white_space_char(c: char) -> (r: bool)
    ensures
        r == is_white_space(c),
{
    ('\u{9}' <= c && c <= '\u{d}') || c == '\u{20}' || c == '\u{85}' || c == '\u{a0}' || c
        == '\u{1680}' || ('\u{2000}' <= c && c <= '\u{200a}') || c == '\u{2028}' || c == '\u{2029}'
        || c == '\u{202f}' || c == '\u{205f}' || c == '\u{3000}'
}

/// Leading white space is what `trimmed_start` drops.
proof fn lemma_trimmed_start(s: Seq<char>, lo: int)
    requires
        0 <= lo <= s.len(),
        forall|i: int| 0 <= i < lo ==> is_white_space(#[trigger] s[i]),
        lo < s.len() ==> !is_white_space(s[lo]),
    ensures
        trimmed_start(s) == s.skip(lo),
    decreases lo,
{
    if lo == 0 {
        assert(s.skip(0) == s);
    } else {
        assert(is_white_space(s[0]));
        let rest = s.drop_first();
        assert forall|i: int| 0 <= i < lo - 1 implies is_white_space(#[trigger] rest[i]) by {
            assert(rest[i] == s[i + 1]);
        }
        lemma_trimmed_start(rest, lo - 1);
        assert(rest.skip(lo - 1) == s.skip(lo));
    }
}

/// Trailing white space is what `trimmed_end` drops.
proof fn lemma_trimmed_end(s: Seq<char>, hi: int)
    requires
        0 <= hi <= s.len(),
        forall|i: int| hi <= i < s.len() ==> is_white_space(#[trigger] s[i]),
        hi > 0 ==> !is_white_space(s[hi - 1]),
    ensures
        trimmed_end(s) == s.take(hi),
    decreases s.len() - hi,
{
    if hi == s.len() {
        assert(s.take(hi) == s);
    } else {
        assert(is_white_space(s[s.len() - 1]));
        lemma_trimmed_end(s.drop_last(), hi);
        assert(s.drop_last().take(hi) == s.take(hi));
    }
}

/// Cuts the white space off both ends of a text.
pub fn trim<'a>(s: &'a str) -> (r: &'a str)
    ensures
        r@ == trimmed(s@),
{
    let chars = chars_of(s);
    let n: usize = chars.len();
    let mut lo: usize = 0;
    while lo < n && is_white_space_char(chars[lo])
        invariant
            n == chars@.len(),
            lo <= n,
            forall|i: int| 0 <= i < lo ==> is_white_space(#[trigger] chars@[i]),
        decreases n - lo,
    {
        lo = lo + 1;
    }
    let mut hi: usize = n;
    while hi > lo && is_white_space_char(chars[hi - 1])
        invariant
            n == chars@.len(),
            lo <= hi <= n,
            forall|i: int| hi <= i < n ==> is_white_space(#[trigger] chars@[i]),
        decreases hi,
    {
        hi = hi - 1;
    }
    proof {
        lemma_trimmed_start(s@, lo as int);
        let rest = s@.skip(lo as int);
        assert forall|i: int| hi - lo <= i < rest.len() implies is_white_space(
            #[trigger] rest[i],
        ) by {
            assert(rest[i] == chars@[i + lo]);
        }
        lemma_trimmed_end(rest, hi - lo);
        assert(rest.take(hi - lo) == s@.subrange(lo as int, hi as int));
    }
    s.substring_char(lo, hi)
}


/// The first position of `c`, if it occurs.
pub fn find_char(chars: &Vec<char>, c: char) -> (r: Option<usize>)
    ensures
        match r {
            Some(i) => i < chars@.len() && chars@[i as int] == c && !chars@.take(
                i as int,
            ).contains(c),
            None => !chars@.contains(c),
        },
{
    let mut i: usize = 0;
    while i < chars.len()
        invariant
            i <= chars@.len(),
            forall|j: int| 0 <= j < i ==> chars@[j] != c,
        decreases chars@.len() - i,
    {
        if chars[i] == c {
            return Some(i);
        }
        i = i + 1;
    }
    None
}

/// What stands before the first `c` ends where `c` is first found.
pub proof fn lemma_before_first(s: Seq<char>, c: char, at: int)
    requires
        0 <= at < s.len(),
        s[at] == c,
        !s.take(at).contains(c),
    ensures
        before_first(s, c) == s.take(at),
    decreases at,
{
    if at > 0 {
        let rest = s.drop_first();
        assert(s.take(at)[0] == s[0]);
        assert forall|j: int| 0 <= j < at - 1 implies #[trigger] rest.take(at - 1)[j] != c by {
            assert(s.take(at)[j + 1] == rest[j]);
        }
        lemma_before_first(rest, c, at - 1);
        assert(seq![s[0]] + rest.take(at - 1) == s.take(at));
    }
}

/// Splits a text at each occurrence of `sep`.
pub fn split_on<'a>(s: &'a str, sep: char) -> (r: Vec<&'a str>)
    ensures
        views(r@) == segments(s@, sep),
{
    let chars = chars_of(s);
    let n: usize = chars.len();
    let mut out: Vec<&'a str> = Vec::new();
    let mut start: usize = 0;
    let mut i: usize = 0;
    assert(s@.take(0) == Seq::<char>::empty());
    assert(segments(s@.take(0), sep) == views(out@).push(s@.subrange(0, 0)));
    while i < n
        invariant
            n == chars@.len(),
            chars@ == s@,
            start <= i <= n,
            segments(s@.take(i as int), sep) == views(out@).push(
                s@.subrange(start as int, i as int),
            ),
        decreases n - i,
    {
        let ghost before = views(out@);
        let ghost piece = s@.subrange(start as int, i as int);
        assert(s@.take(i + 1).drop_last() == s@.take(i as int));
        assert(before.push(piece).last() == piece);
        if chars[i] == sep {
            out.push(s.substring_char(start, i));
            assert(views(out@) == before.push(piece));
            start = i + 1;
            assert(s@.subrange(start as int, i + 1) == Seq::<char>::empty());
        } else {
            assert(s@.subrange(start as int, i + 1) == piece.push(s@[i as int]));
            assert(before.push(piece).update(before.len() as int, piece.push(s@[i as int]))
                == before.push(piece.push(s@[i as int])));
        }
        i = i + 1;
    }
    let ghost before = views(out@);
    out.push(s.substring_char(start, n));
    assert(s@.take(n as int) == s@);
    assert(views(out@) == before.push(s@.subrange(start as int, n as int)));
    out
}

/// The rest of a text behind `prefix`, if the text begins with it.
pub fn strip_prefix<'a>(s: &'a str, prefix: &str) -> (r: Option<&'a str>)
    ensures
        match r {
            Some(rest) => begins_with(s@, prefix@) && rest@ == s@.skip(prefix@.len() as int),
            None => !begins_with(s@, prefix@),
        },
{
    let n: usize = s.unicode_len();
    let m: usize = prefix.unicode_len();
    if m > n {
        return None;
    }
    assert(s@.subrange(0, m as int) == s@.take(m as int));
    if same_text(s.substring_char(0, m), prefix) {
        assert(s@.subrange(m as int, n as int) == s@.skip(m as int));
        Some(s.substring_char(m, n))
    } else {
        None
    }
}

/// Whether `pattern` occurs in a text.
pub fn has_text(s: &str, pattern: &str) -> (r: bool)
    ensures
        r == contains_text(s@, pattern@),
{
    let n: usize = s.unicode_len();
    let m: usize = pattern.unicode_len();
    if m > n {
        return false;
    }
    let mut i: usize = 0;
    while i <= n - m
        invariant
            n == s@.len(),
            m == pattern@.len(),
            m <= n,
            i <= n - m + 1,
            forall|j: int| 0 <= j < i ==> #[trigger] s@.subrange(j, j + m) != pattern@,
        decreases n - m + 1 - i,
    {
        if same_text(s.substring_char(i, i + m), pattern) {
            return true;
        }
        if i == n - m {
            return false;
        }
        i = i + 1;
    }
    false
}

/// Joins texts with `sep` between each two neighbours.
pub fn join(parts: &Vec<&str>, sep: &str) -> (r: String)
    ensures
        r@ == joined(views(parts@), sep@),
{
    let mut out = String::new();
    let mut i: usize = 0;
    while i < parts.len()
        invariant
            i <= parts@.len(),
            out@ == joined(views(parts@).take(i as int), sep@),
        decreases parts@.len() - i,
    {
        let ghost all = views(parts@);
        assert(all.take(i + 1).drop_last() == all.take(i as int));
        assert(all.take(i + 1).last() == parts@[i as int]@);
        if i > 0 {
            out.append(sep);
        }
        out.append(parts[i]);
        assert(i == 0 ==> Seq::<char>::empty() + parts@[i as int]@ == parts@[i as int]@);
        i = i + 1;
    }
    assert(views(parts@).take(parts@.len() as int) == views(parts@));
    out
}

/// There is at least one segment.
proof fn lemma_segments_nonempty(s: Seq<char>, sep: char)
    ensures
        segments(s, sep).len() > 0,
    decreases s.len(),
{
    if s.len() > 0 {
        lemma_segments_nonempty(s.drop_last(), sep);
    }
}

/// The segments of a text, joined by the separator, are the text.
pub proof fn law_segments_join_back(s: Seq<char>, sep: char)
    ensures
        joined(segments(s, sep), seq![sep]) == s,
    decreases s.len(),
{
    if s.len() == 0 {
        assert(joined(segments(s, sep), seq![sep]) == s);
    } else {
        let front = s.drop_last();
        let done = segments(front, sep);
        law_segments_join_back(front, sep);
        lemma_segments_nonempty(front, sep);
        assert(s == front.push(s.last()));
        if s.last() == sep {
            let all = done.push(Seq::<char>::empty());
            assert(all.drop_last() == done);
            assert(joined(all, seq![sep]) == front + seq![sep] + Seq::<char>::empty());
        } else {
            let grown = done.last().push(s.last());
            let all = done.update(done.len() - 1, grown);
            assert(all.drop_last() == done.drop_last());
            assert(all.last() == grown);
            if done.len() == 1 {
                assert(joined(done, seq![sep]) == done[0]);
            } else {
                assert(joined(all, seq![sep]) == joined(done.drop_last(), seq![sep]) + seq![sep]
                    + grown);
            }
            assert(joined(all, seq![sep]) == s);
        }
    }
}

/// No segment holds the separator.
pub proof fn law_segments_lack_separator(s: Seq<char>, sep: char)
    ensures
        forall|i: int|
            0 <= i < segments(s, sep).len() ==> !(#[trigger] segments(s, sep)[i]).contains(sep),
    decreases s.len(),
{
    if s.len() > 0 {
        let done = segments(s.drop_last(), sep);
        law_segments_lack_separator(s.drop_last(), sep);
        lemma_segments_nonempty(s.drop_last(), sep);
        assert forall|i: int| 0 <= i < segments(s, sep).len() implies !(#[trigger] segments(
            s,
            sep,
        )[i]).contains(sep) by {
            if s.last() != sep && i == done.len() - 1 {
                let last = done[i];
                assert(!last.contains(sep));
                assert forall|j: int| 0 <= j < last.push(s.last()).len() implies #[trigger] last.push(
                    s.last(),
                )[j] != sep by {
                    if j < last.len() {
                        assert(last[j] != sep);
                    }
                }
            } else if i < done.len() {
                assert(segments(s, sep)[i] == done[i]);
            }
        }
    }
}

/// Where leading white space ends.
proof fn lemma_trimmed_start_bound(s: Seq<char>) -> (lo: int)
    ensures
        0 <= lo <= s.len(),
        forall|i: int| 0 <= i < lo ==> is_white_space(#[trigger] s[i]),
        lo < s.len() ==> !is_white_space(s[lo]),
        trimmed_start(s) == s.skip(lo),
    decreases s.len(),
{
    if s.len() > 0 && is_white_space(s[0]) {
        let rest = s.drop_first();
        let k = lemma_trimmed_start_bound(rest);
        assert forall|i: int| 0 <= i < k + 1 implies is_white_space(#[trigger] s[i]) by {
            if i > 0 {
                assert(rest[i - 1] == s[i]);
            }
        }
        assert(k < rest.len() ==> rest[k] == s[k + 1]);
        assert(rest.skip(k) == s.skip(k + 1));
        k + 1
    } else {
        assert(s.skip(0) == s);
        0
    }
}

/// Where trailing white space begins.
proof fn lemma_trimmed_end_bound(s: Seq<char>) -> (hi: int)
    ensures
        0 <= hi <= s.len(),
        forall|i: int| hi <= i < s.len() ==> is_white_space(#[trigger] s[i]),
        hi > 0 ==> !is_white_space(s[hi - 1]),
        trimmed_end(s) == s.take(hi),
    decreases s.len(),
{
    if s.len() > 0 && is_white_space(s.last()) {
        let front = s.drop_last();
        let k = lemma_trimmed_end_bound(front);
        assert forall|i: int| k <= i < s.len() implies is_white_space(#[trigger] s[i]) by {
            if i < front.len() {
                assert(front[i] == s[i]);
            }
        }
        assert(front.take(k) == s.take(k));
        k
    } else {
        assert(s.take(s.len() as int) == s);
        s.len() as int
    }
}

/// A trimmed text neither begins nor ends with white space, and what was cut off is nothing
/// else.
pub proof fn law_trimming_cuts_white_space(s: Seq<char>)
    ensures
        trimmed(s).len() > 0 ==> !is_white_space(trimmed(s)[0]) && !is_white_space(
            trimmed(s).last(),
        ),
        exists|lo: int, hi: int|
            0 <= lo <= hi <= s.len() && trimmed(s) == #[trigger] s.subrange(lo, hi) && (forall|
                i: int,
            |
                0 <= i < lo || hi <= i < s.len() ==> is_white_space(#[trigger] s[i])),
{
    let lo = lemma_trimmed_start_bound(s);
    let rest = s.skip(lo);
    let k = lemma_trimmed_end_bound(rest);
    let hi = lo + k;
    assert(rest.take(k) == s.subrange(lo, hi));
    assert forall|i: int| 0 <= i < lo || hi <= i < s.len() implies is_white_space(
        #[trigger] s[i],
    ) by {
        if hi <= i {
            assert(rest[i - lo] == s[i]);
        }
    }
    if k > 0 {
        assert(rest[0] == s[lo]);
        assert(rest.take(k).last() == rest[k - 1]);
    }
}

/// A text that is trimmed already stays as it is.
pub proof fn law_trimming_twice_is_once(s: Seq<char>)
    ensures
        trimmed(trimmed(s)) == trimmed(s),
{
    law_trimming_cuts_white_space(s);
    let t = trimmed(s);
    assert(trimmed_start(t) == t);
    assert(trimmed_end(t) == t);
}

/// The characters that count as white space are these twenty-five, by code point.
pub proof fn law_white_space_characters(c: char)
    ensures
        is_white_space(c) <==> seq![
            9u32, 10u32, 11u32, 12u32, 13u32, 32u32, 133u32, 160u32, 5760u32, 8192u32, 8193u32,
            8194u32, 8195u32, 8196u32, 8197u32, 8198u32, 8199u32, 8200u32, 8201u32, 8202u32,
            8232u32, 8233u32, 8239u32, 8287u32, 12288u32,
        ].contains(c as u32),
{
    let all = seq![
        9u32, 10u32, 11u32, 12u32, 13u32, 32u32, 133u32, 160u32, 5760u32, 8192u32, 8193u32,
        8194u32, 8195u32, 8196u32, 8197u32, 8198u32, 8199u32, 8200u32, 8201u32, 8202u32,
        8232u32, 8233u32, 8239u32, 8287u32, 12288u32,
    ];
    assert(all[0] == 9 && all[1] == 10 && all[2] == 11 && all[3] == 12 && all[4] == 13);
    assert(all[5] == 32 && all[6] == 133 && all[7] == 160 && all[8] == 5760);
    assert(all[9] == 8192 && all[10] == 8193 && all[11] == 8194 && all[12] == 8195);
    assert(all[13] == 8196 && all[14] == 8197 && all[15] == 8198 && all[16] == 8199);
    assert(all[17] == 8200 && all[18] == 8201 && all[19] == 8202 && all[20] == 8232);
    assert(all[21] == 8233 && all[22] == 8239 && all[23] == 8287 && all[24] == 12288);
}

/// There is one segment more than there are separators.
pub proof fn law_segments_are_counted(s: Seq<char>, sep: char)
    ensures
        segments(s, sep).len() == 1 + s.filter(|c: char| c == sep).len(),
    decreases s.len(),
{
    reveal(Seq::filter);
    if s.len() > 0 {
        law_segments_are_counted(s.drop_last(), sep);
    }
}

/// Texts are joined in their order with the separator between neighbours: the parts of a
/// longer list can be joined first.
pub proof fn law_joining_goes_by_parts(
    front: Seq<Seq<char>>,
    back: Seq<Seq<char>>,
    part: Seq<char>,
    sep: Seq<char>,
)
    ensures
        joined(Seq::empty(), sep) == Seq::<char>::empty(),
        joined(seq![part], sep) == part,
        front.len() > 0 && back.len() > 0 ==> joined(front + back, sep) == joined(front, sep)
            + sep + joined(back, sep),
    decreases back.len(),
{
    if front.len() > 0 && back.len() > 0 {
        let rest = back.drop_last();
        assert((front + back).drop_last() == front + rest);
        assert((front + back).last() == back.last());
        if rest.len() == 0 {
            assert(front + rest == front);
        } else {
            law_joining_goes_by_parts(front, rest, part, sep);
            assert(joined(front + back, sep) == joined(front, sep) + sep + joined(back, sep));
        }
    }
}

/// What stands before the first `c` is a beginning of the text without `c`, and `c` or the end
/// of the text comes next.
pub proof fn law_before_first_stops_at_first(s: Seq<char>, c: char)
    ensures
        before_first(s, c).len() <= s.len(),
        s.take(before_first(s, c).len() as int) == before_first(s, c),
        !before_first(s, c).contains(c),
        before_first(s, c).len() < s.len() ==> s[before_first(s, c).len() as int] == c,
    decreases s.len(),
{
    if s.len() > 0 && s[0] != c {
        let rest = s.drop_first();
        let tail = before_first(rest, c);
        law_before_first_stops_at_first(rest, c);
        let all = before_first(s, c);
        assert(all == seq![s[0]] + tail);
        assert(s.take(all.len() as int) == seq![s[0]] + rest.take(tail.len() as int));
        assert forall|j: int| 0 <= j < all.len() implies #[trigger] all[j] != c by {
            if j > 0 {
                assert(tail[j - 1] == all[j]);
            }
        }
        assert(tail.len() < rest.len() ==> rest[tail.len() as int] == s[all.len() as int]);
    } else {
        assert(s.take(0) == Seq::<char>::empty());
    }
}

/// A text contains a pattern exactly where it is made of something, the pattern and something.
pub proof fn law_contained_text_stands_between(s: Seq<char>, pattern: Seq<char>)
    ensures
        contains_text(s, pattern) <==> exists|a: Seq<char>, b: Seq<char>|
            s == #[trigger] (a + pattern + b),
{
    if contains_text(s, pattern) {
        let i = choose|i: int|
            0 <= i <= s.len() - pattern.len() && #[trigger] s.subrange(i, i + pattern.len())
                == pattern;
        let a = s.take(i);
        let b = s.skip(i + pattern.len());
        assert(s == a + pattern + b);
    }
    if exists|a: Seq<char>, b: Seq<char>| s == #[trigger] (a + pattern + b) {
        let (a, b) = choose|a: Seq<char>, b: Seq<char>| s == #[trigger] (a + pattern + b);
        let i = a.len() as int;
        assert(s.subrange(i, i + pattern.len()) == pattern);
    }
}

/// A text begins with a prefix exactly where it is made of the prefix and something.
pub proof fn law_prefix_stands_first(s: Seq<char>, prefix: Seq<char>)
    ensures
        begins_with(s, prefix) <==> exists|rest: Seq<char>| s == #[trigger] (prefix + rest),
{
    if begins_with(s, prefix) {
        assert(s == prefix + s.skip(prefix.len() as int));
    }
    if exists|rest: Seq<char>| s == #[trigger] (prefix + rest) {
        let rest = choose|rest: Seq<char>| s == #[trigger] (prefix + rest);
        assert(s.take(prefix.len() as int) == prefix);
    }
}

/// Stripping a prefix gives what it must be followed by to be the text, or nothing where no
/// text follows it so.
pub proof fn law_stripped_prefix_can_be_put_back(s: &str, prefix: &str, r: Option<&str>)
    requires
        call_ensures(strip_prefix, (s, prefix), r),
    ensures
        r matches Some(rest) ==> s@ == prefix@ + rest@,
        r is None ==> forall|rest: Seq<char>| s@ != #[trigger] (prefix@ + rest),
{
    law_prefix_stands_first(s@, prefix@);
    if begins_with(s@, prefix@) {
        assert(s@ == prefix@ + s@.skip(prefix@.len() as int));
    }
}

/// A list of texts is seen as their characters, one for one.
pub proof fn law_texts_are_seen_as_characters(parts: Seq<&str>, i: int)
    requires
        0 <= i < parts.len(),
    ensures
        views(parts).len() == parts.len(),
        views(parts)[i] == parts[i]@,
{
}

/// An optional text is seen as its characters where it is there.
pub proof fn law_optional_text_is_seen_as_characters(s: Option<String>)
    ensures
        s is None ==> optional_view(s) is None,
        s matches Some(text) ==> optional_view(s) == Some(text@),
{
}

} // verus!
