//! What becomes of a text, said of its characters.
use vstd::prelude::*;

use crate::clock::{elapsed, shifted, Moment, NANOS};
use crate::numerals::decimal;
use crate::order::text_le;
use crate::text::{
    ascii_lower, ascii_upper, collapsed, has_text, is_white, join_spaced, lemma_trim_start,
    lemma_word_len, lower_case, occurs_at, padded, replaced, trim_end, trim_start, trimmed,
    truncated, word_len, words,
};
use crate::ui::span_text;

verus! {

/// No character is white space.
pub open spec fn all_ink(s: Seq<char>) -> bool {
    forall|i: int| 0 <= i < s.len() ==> !is_white(#[trigger] s[i])
}

/// Every character is white space.
pub open spec fn all_blank(s: Seq<char>) -> bool {
    forall|i: int| 0 <= i < s.len() ==> is_white(#[trigger] s[i])
}

/// White space at the ends goes, and nothing else does: what is left between
/// `a` and `c` is kept, if it neither starts nor ends with white space.
pub proof fn law_trimming_takes_the_ends(a: Seq<char>, b: Seq<char>, c: Seq<char>)
    requires
        all_blank(a),
        all_blank(c),
        b.len() > 0 ==> !is_white(b[0]) && !is_white(b.last()),
    ensures
        trimmed(a + b + c) == b,
{
    if b.len() == 0 {
        assert(a + b + c =~= a + c);
        assert forall|i: int| 0 <= i < (a + c).len() implies is_white(#[trigger] (a + c)[i]) by {
            if i < a.len() {
                assert((a + c)[i] == a[i]);
            } else {
                assert((a + c)[i] == c[i - a.len()]);
            }
        }
        lemma_start_of_blank(a + c, Seq::empty());
        assert((a + c) + Seq::<char>::empty() =~= a + c);
        assert(trimmed(a + b + c) =~= b);
    } else {
        assert(a + b + c =~= a + (b + c));
        lemma_start_of_blank(a, b + c);
        assert((b + c)[0] == b[0]);
        lemma_end_of_blank(b, c);
    }
}

proof fn lemma_start_of_blank(a: Seq<char>, rest: Seq<char>)
    requires
        all_blank(a),
        rest.len() > 0 ==> !is_white(rest[0]),
    ensures
        trim_start(a + rest) == rest,
    decreases a.len(),
{
    if a.len() == 0 {
        assert(a + rest =~= rest);
    } else {
        assert((a + rest)[0] == a[0]);
        assert((a + rest).skip(1) =~= a.skip(1) + rest);
        assert forall|i: int| 0 <= i < a.skip(1).len() implies is_white(
            #[trigger] a.skip(1)[i],
        ) by {
            assert(a.skip(1)[i] == a[i + 1]);
        }
        lemma_start_of_blank(a.skip(1), rest);
    }
}

proof fn lemma_end_of_blank(rest: Seq<char>, c: Seq<char>)
    requires
        all_blank(c),
        rest.len() > 0 ==> !is_white(rest.last()),
    ensures
        trim_end(rest + c) == rest,
    decreases c.len(),
{
    if c.len() == 0 {
        assert(rest + c =~= rest);
    } else {
        assert((rest + c).last() == c.last());
        assert((rest + c).drop_last() =~= rest + c.drop_last());
        assert forall|i: int| 0 <= i < c.drop_last().len() implies is_white(
            #[trigger] c.drop_last()[i],
        ) by {
            assert(c.drop_last()[i] == c[i]);
        }
        lemma_end_of_blank(rest, c.drop_last());
    }
}

/// Nothing is left of a text exactly where it holds nothing but white space.
pub proof fn law_blank_text_trims_to_nothing(s: Seq<char>)
    ensures
        trimmed(s).len() == 0 <==> all_blank(s),
{
    let none = Seq::<char>::empty();
    if all_blank(s) {
        law_trimming_takes_the_ends(s, none, none);
        assert(s + none + none =~= s);
    } else {
        let i = choose|i: int| 0 <= i < s.len() && !is_white(#[trigger] s[i]);
        lemma_ink_survives_the_start(s, i);
        lemma_trim_start(s);
        lemma_ink_survives_the_end(trim_start(s));
    }
}

proof fn lemma_ink_survives_the_start(s: Seq<char>, i: int)
    requires
        0 <= i < s.len(),
        !is_white(s[i]),
    ensures
        trim_start(s).len() > 0,
    decreases s.len(),
{
    if is_white(s[0]) {
        assert(s.skip(1)[i - 1] == s[i]);
        lemma_ink_survives_the_start(s.skip(1), i - 1);
    }
}

proof fn lemma_ink_survives_the_end(s: Seq<char>)
    requires
        s.len() > 0,
        !is_white(s[0]),
    ensures
        trim_end(s).len() > 0,
    decreases s.len(),
{
    if is_white(s.last()) {
        assert(s.drop_last()[0] == s[0]);
        lemma_ink_survives_the_end(s.drop_last());
    }
}

/// The characters of `s` that are no white space, in order.
pub open spec fn ink(s: Seq<char>) -> Seq<char>
    decreases s.len(),
{
    if s.len() == 0 {
        Seq::empty()
    } else if is_white(s[0]) {
        ink(s.skip(1))
    } else {
        seq![s[0]] + ink(s.skip(1))
    }
}

proof fn lemma_ink_splits(a: Seq<char>, b: Seq<char>)
    ensures
        ink(a + b) == ink(a) + ink(b),
    decreases a.len(),
{
    if a.len() == 0 {
        assert(a + b =~= b);
        assert(ink(a) + ink(b) =~= ink(b));
    } else {
        assert((a + b).skip(1) =~= a.skip(1) + b);
        assert((a + b)[0] == a[0]);
        lemma_ink_splits(a.skip(1), b);
        if !is_white(a[0]) {
            assert(seq![a[0]] + (ink(a.skip(1)) + ink(b)) =~= (seq![a[0]] + ink(a.skip(1))) + ink(
                b,
            ));
        }
    }
}

proof fn lemma_ink_of_trim_start(s: Seq<char>)
    ensures
        ink(trim_start(s)) == ink(s),
    decreases s.len(),
{
    if s.len() > 0 && is_white(s[0]) {
        lemma_ink_of_trim_start(s.skip(1));
    }
}

/// All the words, one behind the other.
pub open spec fn run_together(parts: Seq<Seq<char>>) -> Seq<char>
    decreases parts.len(),
{
    if parts.len() == 0 {
        Seq::empty()
    } else {
        parts[0] + run_together(parts.skip(1))
    }
}

proof fn lemma_ink_of_ink(s: Seq<char>)
    requires
        all_ink(s),
    ensures
        ink(s) == s,
    decreases s.len(),
{
    if s.len() == 0 {
        assert(ink(s) =~= s);
    } else {
        let t = s.skip(1);
        assert forall|i: int| 0 <= i < t.len() implies !is_white(#[trigger] t[i]) by {
            assert(t[i] == s[i + 1]);
        }
        lemma_ink_of_ink(t);
        assert(seq![s[0]] + t =~= s);
    }
}

proof fn lemma_words_hold_the_ink(s: Seq<char>)
    ensures
        ink(s) == run_together(words(s)),
        forall|i: int| 0 <= i < words(s).len() ==> all_ink(#[trigger] words(s)[i]),
    decreases s.len(),
{
    let t = trim_start(s);
    lemma_trim_start(s);
    lemma_ink_of_trim_start(s);
    lemma_word_len(t);
    if t.len() > 0 {
        let n = word_len(t) as int;
        let w = t.take(n);
        let rest = t.skip(n);
        assert(w + rest =~= t);
        assert forall|i: int| 0 <= i < w.len() implies !is_white(#[trigger] w[i]) by {
            assert(w[i] == t[i]);
        }
        lemma_ink_splits(w, rest);
        lemma_ink_of_ink(w);
        lemma_words_hold_the_ink(rest);
        let ws = words(s);
        assert(ws == seq![w] + words(rest));
        assert(ws.skip(1) =~= words(rest));
        assert forall|i: int| 0 <= i < ws.len() implies all_ink(#[trigger] ws[i]) by {
            if i > 0 {
                assert(ws[i] == words(rest)[i - 1]);
            }
        }
    } else {
        assert(words(s) =~= Seq::<Seq<char>>::empty());
        assert(ink(t) =~= Seq::<char>::empty());
    }
}

proof fn lemma_ink_of_joined(parts: Seq<Seq<char>>)
    requires
        forall|i: int| 0 <= i < parts.len() ==> all_ink(#[trigger] parts[i]),
    ensures
        ink(join_spaced(parts)) == run_together(parts),
    decreases parts.len(),
{
    if parts.len() == 1 {
        lemma_ink_of_ink(parts[0]);
        assert(run_together(parts.skip(1)) =~= Seq::<char>::empty());
        assert(run_together(parts) =~= parts[0]);
    } else if parts.len() > 1 {
        let tail = parts.skip(1);
        assert forall|i: int| 0 <= i < tail.len() implies all_ink(#[trigger] tail[i]) by {
            assert(tail[i] == parts[i + 1]);
        }
        lemma_ink_of_joined(tail);
        lemma_ink_of_ink(parts[0]);
        let space = seq![' '];
        lemma_ink_splits(parts[0] + space, join_spaced(tail));
        lemma_ink_splits(parts[0], space);
        assert(space.skip(1) =~= Seq::<char>::empty());
        assert(is_white(space[0]));
        reveal_with_fuel(ink, 2);
        assert(ink(space) =~= Seq::<char>::empty());
        assert(ink(parts[0] + space) =~= parts[0]);
    } else {
        assert(join_spaced(parts) =~= Seq::<char>::empty());
    }
}

/// Collapsing white space loses, adds and moves no other character.
pub proof fn law_collapsing_keeps_every_character(s: Seq<char>)
    ensures
        ink(collapsed(s)) == ink(s),
{
    lemma_words_hold_the_ink(s);
    lemma_ink_of_joined(words(s));
}

/// A word, white space behind it, and then more, becomes the word, one space,
/// and the rest collapsed; and a single word stays as it is.
pub proof fn law_runs_of_white_space_become_one_space(
    a: Seq<char>,
    w: Seq<char>,
    b: Seq<char>,
    rest: Seq<char>,
)
    requires
        all_blank(a),
        w.len() > 0,
        all_ink(w),
        b.len() > 0,
        all_blank(b),
        rest.len() > 0,
        !is_white(rest[0]),
    ensures
        collapsed(a + w + b + rest) == w + seq![' '] + collapsed(rest),
        collapsed(a + w + b) == w,
        collapsed(a + w) == w,
        collapsed(a) == Seq::<char>::empty(),
{
    let none = Seq::<char>::empty();
    lemma_first_word(a, w, b + rest);
    assert(a + w + b + rest =~= a + w + (b + rest));
    lemma_start_of_blank(b, rest);
    lemma_same_words(b + rest, rest);
    let ws = words(a + w + (b + rest));
    assert(ws == seq![w] + words(rest));
    lemma_word_len(rest);
    assert(trim_start(rest) == rest);
    assert(words(rest).len() > 0);
    assert(ws.skip(1) =~= words(rest));
    lemma_first_word(a, w, b);
    lemma_start_of_blank(b, none);
    assert(b + none =~= b);
    assert(words(b) =~= Seq::<Seq<char>>::empty());
    assert(words(a + w + b) =~= seq![w]);
    lemma_first_word(a, w, none);
    assert(a + w + none =~= a + w);
    assert(words(none) =~= Seq::<Seq<char>>::empty());
    assert(words(a + w) =~= seq![w]);
    lemma_start_of_blank(a, none);
    assert(a + none =~= a);
    assert(words(a) =~= Seq::<Seq<char>>::empty());
}

proof fn lemma_same_words(s: Seq<char>, t: Seq<char>)
    requires
        trim_start(s) == trim_start(t),
    ensures
        words(s) == words(t),
{
}

proof fn lemma_word_ends(w: Seq<char>, rest: Seq<char>)
    requires
        all_ink(w),
        rest.len() > 0 ==> is_white(rest[0]),
    ensures
        word_len(w + rest) == w.len(),
    decreases w.len(),
{
    if w.len() > 0 {
        let v = w.skip(1);
        assert forall|i: int| 0 <= i < v.len() implies !is_white(#[trigger] v[i]) by {
            assert(v[i] == w[i + 1]);
        }
        lemma_word_ends(v, rest);
        assert((w + rest).skip(1) =~= v + rest);
        assert((w + rest)[0] == w[0]);
    } else {
        assert(w + rest =~= rest);
    }
}

proof fn lemma_first_word(a: Seq<char>, w: Seq<char>, rest: Seq<char>)
    requires
        all_blank(a),
        w.len() > 0,
        all_ink(w),
        rest.len() > 0 ==> is_white(rest[0]),
    ensures
        words(a + w + rest) == seq![w] + words(rest),
{
    let t = w + rest;
    assert(a + w + rest =~= a + t);
    assert(t[0] == w[0]);
    lemma_start_of_blank(a, t);
    lemma_word_ends(w, rest);
    assert(t.take(w.len() as int) =~= w);
    assert(t.skip(w.len() as int) =~= rest);
}

/// Upper and lower case change ASCII letters, each to its other case, and
/// nothing else.
pub proof fn law_case_changes_letters_only(s: Seq<char>, i: int)
    requires
        0 <= i < s.len(),
    ensures
        ascii_upper(s).len() == s.len(),
        ascii_lower(s).len() == s.len(),
        'a' <= s[i] <= 'z' ==> ascii_upper(s)[i] as int == s[i] as int - 32,
        !('a' <= s[i] <= 'z') ==> ascii_upper(s)[i] == s[i],
        'A' <= s[i] <= 'Z' ==> ascii_lower(s)[i] as int == s[i] as int + 32,
        !('A' <= s[i] <= 'Z') ==> ascii_lower(s)[i] == s[i],
{
}

/// A text is found in another exactly where the other is made of something, the
/// text, and something more.
pub proof fn law_found_text_is_a_part(hay: Seq<char>, needle: Seq<char>)
    ensures
        has_text(hay, needle) <==> exists|a: Seq<char>, b: Seq<char>|
            hay == #[trigger] (a + needle + b),
{
    if has_text(hay, needle) {
        let at = choose|at: int| occurs_at(hay, needle, at);
        let a = hay.take(at);
        let b = hay.skip(at + needle.len());
        assert(a + needle + b =~= hay) by {
            let sub = hay.subrange(at, at + needle.len());
            assert forall|i: int| 0 <= i < hay.len() implies (a + needle + b)[i] == hay[i] by {
                if at <= i < at + needle.len() {
                    assert(sub[i - at] == needle[i - at]);
                }
            }
        }
    }
    if exists|a: Seq<char>, b: Seq<char>| hay == #[trigger] (a + needle + b) {
        let (a, b) = choose|a: Seq<char>, b: Seq<char>| hay == #[trigger] (a + needle + b);
        assert(hay.subrange(a.len() as int, (a.len() + needle.len()) as int) =~= needle);
        assert(occurs_at(hay, needle, a.len() as int));
    }
}

/// The first occurrence of a text is replaced, what stands before it stays, and
/// what stands behind it is treated in the same way. A text that does not occur
/// changes nothing.
pub proof fn law_occurrences_are_replaced(
    a: Seq<char>,
    from: Seq<char>,
    to: Seq<char>,
    b: Seq<char>,
)
    requires
        from.len() > 0,
    ensures
        (forall|k: int|
            0 <= k < a.len() ==> (#[trigger] (a + from + b).subrange(k, k + from.len())) != from)
            ==> replaced(a + from + b, from, to) == a + to + replaced(b, from, to),
        !has_text(a, from) ==> replaced(a, from, to) == a,
{
    if forall|k: int|
        0 <= k < a.len() ==> (#[trigger] (a + from + b).subrange(k, k + from.len())) != from {
        lemma_first_replaced(a, from, to, b);
    }
    if !has_text(a, from) {
        lemma_nothing_replaced(a, from, to);
    }
}

proof fn lemma_first_replaced(a: Seq<char>, from: Seq<char>, to: Seq<char>, b: Seq<char>)
    requires
        from.len() > 0,
        forall|k: int|
            0 <= k < a.len() ==> (#[trigger] (a + from + b).subrange(k, k + from.len())) != from,
    ensures
        replaced(a + from + b, from, to) == a + to + replaced(b, from, to),
    decreases a.len(),
{
    let s = a + from + b;
    if a.len() == 0 {
        assert(s.subrange(0, from.len() as int) =~= from);
        assert(occurs_at(s, from, 0));
        assert(s.skip(from.len() as int) =~= b);
        assert(a + to + replaced(b, from, to) =~= to + replaced(b, from, to));
    } else {
        let v = a.skip(1);
        assert(s.subrange(0, 0int + from.len()) != from);
        assert(s.skip(1) =~= v + from + b);
        assert forall|k: int| 0 <= k < v.len() implies (#[trigger] (v + from + b).subrange(
            k,
            k + from.len(),
        )) != from by {
            assert((v + from + b).subrange(k, k + from.len()) =~= s.subrange(
                k + 1,
                k + 1 + from.len(),
            ));
        }
        lemma_first_replaced(v, from, to, b);
        assert(s[0] == a[0]);
        assert(seq![a[0]] + (v + to + replaced(b, from, to)) =~= a + to + replaced(b, from, to));
    }
}

proof fn lemma_nothing_replaced(s: Seq<char>, from: Seq<char>, to: Seq<char>)
    requires
        from.len() > 0,
        !has_text(s, from),
    ensures
        replaced(s, from, to) == s,
    decreases s.len(),
{
    if s.len() >= from.len() {
        assert(!occurs_at(s, from, 0));
        let t = s.skip(1);
        if has_text(t, from) {
            let at = choose|at: int| occurs_at(t, from, at);
            assert(t.subrange(at, at + from.len()) =~= s.subrange(at + 1, at + 1 + from.len()));
            assert(occurs_at(s, from, at + 1));
        }
        lemma_nothing_replaced(t, from, to);
        assert(seq![s[0]] + t =~= s);
    }
}

/// A text that fits its room stays; a longer one keeps as many of its first
/// characters as leave room for the ellipsis behind them.
pub proof fn law_cut_text_fills_its_room(s: Seq<char>, room: int)
    requires
        room >= 0,
    ensures
        s.len() <= room ==> truncated(s, room) == s,
        s.len() > room ==> truncated(s, room).len() == room,
        s.len() > room && room > 0 ==> truncated(s, room).last() == '\u{2026}',
        s.len() > room ==> forall|i: int|
            0 <= i < room - 1 ==> #[trigger] truncated(s, room)[i] == s[i],
{
}

/// A text is padded with spaces behind it, as many as it lacks.
pub proof fn law_padding_stands_behind(s: Seq<char>, width: int)
    requires
        width >= 0,
    ensures
        s.len() >= width ==> padded(s, width) == s,
        s.len() < width ==> padded(s, width).len() == width,
        s.len() < width ==> forall|i: int|
            0 <= i < width ==> #[trigger] padded(s, width)[i] == (if i < s.len() {
                s[i]
            } else {
                ' '
            }),
{
}

/// The first character in which two texts differ decides their order, and a
/// text comes before its continuations.
pub proof fn law_first_difference_decides(
    p: Seq<char>,
    x: char,
    y: char,
    a: Seq<char>,
    b: Seq<char>,
)
    requires
        x != y,
    ensures
        text_le(p + seq![x] + a, p + seq![y] + b) == (x < y),
        text_le(p, p + a),
        a.len() > 0 ==> !text_le(p + a, p),
    decreases p.len(),
{
    let (s, t) = (p + seq![x] + a, p + seq![y] + b);
    if p.len() == 0 {
        assert(s[0] == x && t[0] == y);
    } else {
        let q = p.skip(1);
        law_first_difference_decides(q, x, y, a, b);
        assert(s[0] == p[0] && t[0] == p[0]);
        assert(s.skip(1) =~= q + seq![x] + a);
        assert(t.skip(1) =~= q + seq![y] + b);
        assert((p + a).skip(1) =~= q + a);
        assert((p + a)[0] == p[0]);
    }
}

// ---------------------------------------------------------------------------
// Times in words
// ---------------------------------------------------------------------------
/// A span is told in the largest unit of which it holds at least one, by how
/// many whole ones it holds; a span under a second, or a negative one, is now.
pub proof fn law_span_is_told_in_its_largest_unit(n: int, k: int)
    requires
        k >= 1,
    ensures
        n < NANOS ==> span_text(n) == "now"@,
        k < 60 && k * NANOS <= n < (k + 1) * NANOS ==> span_text(n) == decimal(k as nat) + "s"@,
        k < 60 && k * 60 * NANOS <= n < (k + 1) * 60 * NANOS ==> span_text(n) == decimal(k as nat)
            + "m"@,
        k < 24 && k * 3600 * NANOS <= n < (k + 1) * 3600 * NANOS ==> span_text(n) == decimal(
            k as nat,
        ) + "h"@,
        k * 86_400 * NANOS <= n < (k + 1) * 86_400 * NANOS ==> span_text(n) == decimal(k as nat)
            + "d"@,
{
}

/// Away from leap seconds, moving a moment by a span moves its count of
/// nanoseconds by just that, and the time between two moments is the difference
/// of their counts.
pub proof fn law_time_is_counted_in_nanoseconds(m: Moment, other: Moment, span: int)
    requires
        0 <= m.nanos < NANOS,
        0 <= other.nanos < NANOS,
    ensures
        0 <= shifted(m, span).nanos < NANOS,
        shifted(m, span).secs * NANOS + shifted(m, span).nanos == m.secs * NANOS + m.nanos + span,
        elapsed(m, other) == (m.secs * NANOS + m.nanos) - (other.secs * NANOS + other.nanos),
        elapsed(shifted(m, span), m) == span,
{
}

/// The lower case of an ASCII text changes its upper case letters, and nothing
/// else.
pub proof fn law_lower_case_of_ascii(s: Seq<char>)
    requires
        forall|i: int| 0 <= i < s.len() ==> (#[trigger] s[i]) as int <= 127,
    ensures
        lower_case(s) == ascii_lower(s),
{
}

} // verus!
