//! Text primitives, stated over the sequence of characters that a text holds.
use vstd::prelude::*;

verus! {

/// `String::push`: the character goes to the end of the string.
pub assume_specification[ String::push ](s: &mut String, c: char)
    ensures
        final(s)@ == old(s)@.push(c),
;

/// What `str::to_lowercase` returns for a text: its lower case by the rules of
/// Unicode, some of which look at a character's neighbors.
pub uninterp spec fn unicode_lowercase(s: Seq<char>) -> Seq<char>;

/// `str::to_lowercase`: the result is a function of the text alone. Of a text
/// that holds nothing but ASCII characters it is the text with `A` to `Z`
/// replaced by `a` to `z`.
#[verifier::external_body]
pub(crate) fn to_lowercase(s: &str) -> (r: String)
    ensures
        r@ == unicode_lowercase(s@),
        all_ascii(s@) ==> r@ == ascii_lower(s@),
{
    s.to_lowercase()
}

/// Every character is an ASCII character.
pub open spec fn all_ascii(s: Seq<char>) -> bool {
    forall|i: int| 0 <= i < s.len() ==> (#[trigger] s[i]) <= '\u{7f}'
}

/// The lower case of a text: with nothing but ASCII characters in it, each
/// upper case letter replaced by its lower case one, and otherwise by the rules
/// of Unicode.
pub open spec fn lower_case(s: Seq<char>) -> Seq<char> {
    if all_ascii(s) {
        ascii_lower(s)
    } else {
        unicode_lowercase(s)
    }
}

/// Unicode's `White_Space` property.
pub open spec fn is_white(c: char) -> bool {
    ||| '\u{9}' <= c <= '\u{d}'
    ||| c == ' '
    ||| c == '\u{85}'
    ||| c == '\u{a0}'
    ||| c == '\u{1680}'
    ||| '\u{2000}' <= c <= '\u{200a}'
    ||| '\u{2028}' <= c <= '\u{2029}'
    ||| c == '\u{202f}'
    ||| c == '\u{205f}'
    ||| c == '\u{3000}'
}

/// Whether `c` is white space, as `char::is_whitespace` decides it.
pub fn is_whitespace(c: char) -> (r: bool)
    ensures
        r == is_white(c),
{
    ('\u{9}' <= c && c <= '\u{d}') || c == ' ' || c == '\u{85}' || c == '\u{a0}' || c == '\u{1680}' || (
    '\u{2000}' <= c && c <= '\u{200a}') || ('\u{2028}' <= c && c <= '\u{2029}') || c == '\u{202f}' || c
        == '\u{205f}' || c == '\u{3000}'
}

/// The characters of `s`, in order.
pub fn chars_of(s: &str) -> (r: Vec<char>)
    ensures
        r@ == s@,
{
    let mut r: Vec<char> = Vec::new();
    for c in it: s.chars()
        invariant
            it.seq() == s@,
            r@ == it.seq().take(it.index()),
    {
        r.push(c);
    }
    r
}

/// The text made of the characters `chars[from..to]`.
pub fn text_between(chars: &Vec<char>, from: usize, to: usize) -> (r: String)
    requires
        from <= to <= chars.len(),
    ensures
        r@ == chars@.subrange(from as int, to as int),
{
    let mut r = String::new();
    let mut i: usize = from;
    assert(chars@.subrange(from as int, from as int) =~= Seq::<char>::empty());
    while i < to
        invariant
            from <= i <= to <= chars.len(),
            r@ == chars@.subrange(from as int, i as int),
        decreases to - i,
    {
        r.push(chars[i]);
        assert(chars@.subrange(from as int, i as int).push(chars@[i as int]) =~= chars@.subrange(
            from as int,
            i + 1,
        ));
        i += 1;
    }
    r
}

/// Whether two texts hold the same characters.
pub fn same_text(a: &str, b: &str) -> (r: bool)
    ensures
        r == (a@ == b@),
{
    a.to_owned() == b.to_owned()
}

/// `a` followed by `b`.
pub fn concat2(a: &str, b: &str) -> (r: String)
    ensures
        r@ == a@ + b@,
{
    let mut r = a.to_owned();
    r.append(b);
    r
}

/// `a`, `b` and `c` one after the other.
pub fn concat3(a: &str, b: &str, c: &str) -> (r: String)
    ensures
        r@ == a@ + b@ + c@,
{
    let mut r = a.to_owned();
    r.append(b);
    r.append(c);
    r
}

// ---------------------------------------------------------------------------
// Trimming
// ---------------------------------------------------------------------------

/// `s` without its leading white space.
pub open spec fn trim_start(s: Seq<char>) -> Seq<char>
    decreases s.len(),
{
    if s.len() > 0 && is_white(s[0]) {
        trim_start(s.skip(1))
    } else {
        s
    }
}

/// `s` without its trailing white space.
pub open spec fn trim_end(s: Seq<char>) -> Seq<char>
    decreases s.len(),
{
    if s.len() > 0 && is_white(s.last()) {
        trim_end(s.drop_last())
    } else {
        s
    }
}

/// `s` without leading and trailing white space.
pub open spec fn trimmed(s: Seq<char>) -> Seq<char> {
    trim_end(trim_start(s))
}

/// The number of leading white space characters, counted from `from`.
fn skip_white(chars: &Vec<char>, from: usize) -> (r: usize)
    requires
        from <= chars.len(),
    ensures
        from <= r <= chars.len(),
        trim_start(chars@.skip(from as int)) == chars@.skip(r as int),
        r < chars.len() ==> !is_white(chars@[r as int]),
{
    let mut i: usize = from;
    while i < chars.len() && is_whitespace(chars[i])
        invariant
            from <= i <= chars.len(),
            trim_start(chars@.skip(from as int)) == trim_start(chars@.skip(i as int)),
        decreases chars.len() - i,
    {
        assert(chars@.skip(i as int).skip(1) =~= chars@.skip(i + 1));
        i += 1;
    }
    i
}

/// `s` without leading and trailing white space.
pub fn trim(s: &str) -> (r: String)
    ensures
        r@ == trimmed(s@),
{
    let chars = chars_of(s);
    assert(chars@.skip(0) =~= chars@);
    let from = skip_white(&chars, 0);
    let mut to: usize = chars.len();
    assert(chars@.subrange(from as int, to as int) =~= chars@.skip(from as int));
    while to > from && is_whitespace(chars[to - 1])
        invariant
            from <= to <= chars.len(),
            trim_start(s@) == chars@.skip(from as int),
            trimmed(s@) == trim_end(chars@.subrange(from as int, to as int)),
        decreases to,
    {
        assert(chars@.subrange(from as int, to as int).drop_last() =~= chars@.subrange(
            from as int,
            to - 1,
        ));
        to -= 1;
    }
    text_between(&chars, from, to)
}

pub proof fn lemma_trim_start(s: Seq<char>)
    ensures
        trim_start(s).len() <= s.len(),
        trim_start(s) == s.skip(s.len() - trim_start(s).len()),
        trim_start(s).len() > 0 ==> !is_white(trim_start(s)[0]),
    decreases s.len(),
{
    if s.len() > 0 && is_white(s[0]) {
        lemma_trim_start(s.skip(1));
        let n = trim_start(s).len();
        assert(s.skip(1).skip(s.skip(1).len() - n) =~= s.skip(s.len() - n));
    } else {
        assert(s.skip(0) =~= s);
    }
}

pub proof fn lemma_trim_end(s: Seq<char>)
    ensures
        trim_end(s).len() <= s.len(),
        trim_end(s) == s.take(trim_end(s).len() as int),
        trim_end(s).len() > 0 ==> !is_white(trim_end(s).last()),
    decreases s.len(),
{
    if s.len() > 0 && is_white(s.last()) {
        lemma_trim_end(s.drop_last());
        let n = trim_end(s).len() as int;
        assert(s.drop_last().take(n) =~= s.take(n));
    } else {
        assert(s.take(s.len() as int) =~= s);
    }
}

/// A trimmed text has no white space at either end, and trimming it again
/// changes nothing.
pub proof fn law_trimmed_is_settled(s: Seq<char>)
    ensures
        trimmed(s).len() > 0 ==> !is_white(trimmed(s)[0]) && !is_white(trimmed(s).last()),
        trimmed(trimmed(s)) == trimmed(s),
{
    let t = trim_start(s);
    lemma_trim_start(s);
    lemma_trim_end(t);
    let u = trimmed(s);
    if u.len() > 0 {
        assert(u[0] == t[0]);
    }
}

// ---------------------------------------------------------------------------
// ASCII case
// ---------------------------------------------------------------------------

/// `c` in upper case, where it is an ASCII lower case letter.
pub open spec fn upper_char(c: char) -> char {
    if 'a' <= c <= 'z' {
        ((c as u8) - 32) as u8 as char
    } else {
        c
    }
}

/// `c` in lower case, where it is an ASCII upper case letter.
pub open spec fn lower_char(c: char) -> char {
    if 'A' <= c <= 'Z' {
        ((c as u8) + 32) as u8 as char
    } else {
        c
    }
}

/// `s` with its ASCII letters in upper case.
pub open spec fn ascii_upper(s: Seq<char>) -> Seq<char> {
    Seq::new(s.len(), |i: int| upper_char(s[i]))
}

/// `s` with its ASCII letters in lower case.
pub open spec fn ascii_lower(s: Seq<char>) -> Seq<char> {
    Seq::new(s.len(), |i: int| lower_char(s[i]))
}

/// `s` with its ASCII letters in upper case.
pub fn to_ascii_upper(s: &str) -> (r: String)
    ensures
        r@ == ascii_upper(s@),
{
    let chars = chars_of(s);
    let mut r = String::new();
    for i in 0..chars.len()
        invariant
            chars@ == s@,
            r@ == ascii_upper(s@).take(i as int),
    {
        let c = chars[i];
        if 'a' <= c && c <= 'z' {
            r.push(((c as u8) - 32) as char);
        } else {
            r.push(c);
        }
        assert(ascii_upper(s@).take(i as int).push(upper_char(c)) =~= ascii_upper(s@).take(i + 1));
    }
    assert(ascii_upper(s@).take(s@.len() as int) =~= ascii_upper(s@));
    r
}

/// `s` with its ASCII letters in lower case.
pub fn to_ascii_lower(s: &str) -> (r: String)
    ensures
        r@ == ascii_lower(s@),
{
    let chars = chars_of(s);
    let mut r = String::new();
    for i in 0..chars.len()
        invariant
            chars@ == s@,
            r@ == ascii_lower(s@).take(i as int),
    {
        let c = chars[i];
        if 'A' <= c && c <= 'Z' {
            r.push(((c as u8) + 32) as char);
        } else {
            r.push(c);
        }
        assert(ascii_lower(s@).take(i as int).push(lower_char(c)) =~= ascii_lower(s@).take(i + 1));
    }
    assert(ascii_lower(s@).take(s@.len() as int) =~= ascii_lower(s@));
    r
}

/// Upper-casing twice is upper-casing once.
pub proof fn law_ascii_upper_is_settled(s: Seq<char>)
    ensures
        ascii_upper(ascii_upper(s)) == ascii_upper(s),
{
    assert(ascii_upper(ascii_upper(s)) =~= ascii_upper(s));
}

/// Upper-casing moves no white space: what is white stays white, and nothing
/// else becomes so.
pub proof fn lemma_upper_keeps_white(c: char)
    ensures
        is_white(upper_char(c)) == is_white(c),
{
}

// ---------------------------------------------------------------------------
// Words
// ---------------------------------------------------------------------------

/// How many characters precede the first white space in `s`.
pub open spec fn word_len(s: Seq<char>) -> nat
    decreases s.len(),
{
    if s.len() > 0 && !is_white(s[0]) {
        1 + word_len(s.skip(1))
    } else {
        0
    }
}

/// The maximal runs of `s` without white space, in order.
pub open spec fn words(s: Seq<char>) -> Seq<Seq<char>>
    decreases s.len(),
{
    let t = trim_start(s);
    if t.len() == 0 {
        Seq::empty()
    } else {
        proof {
            lemma_trim_start(s);
            lemma_word_len(t);
        }
        seq![t.take(word_len(t) as int)] + words(t.skip(word_len(t) as int))
    }
}

/// `parts` one after the other, with one space between two of them.
pub open spec fn join_spaced(parts: Seq<Seq<char>>) -> Seq<char>
    decreases parts.len(),
{
    if parts.len() == 0 {
        Seq::empty()
    } else if parts.len() == 1 {
        parts[0]
    } else {
        parts[0] + seq![' '] + join_spaced(parts.skip(1))
    }
}

/// `s` with every run of white space replaced by one space, and none at the
/// ends.
pub open spec fn collapsed(s: Seq<char>) -> Seq<char> {
    join_spaced(words(s))
}

pub proof fn lemma_word_len(s: Seq<char>)
    ensures
        word_len(s) <= s.len(),
        forall|i: int| 0 <= i < word_len(s) ==> !is_white(#[trigger] s[i]),
        word_len(s) < s.len() ==> is_white(s[word_len(s) as int]),
    decreases s.len(),
{
    if s.len() > 0 && !is_white(s[0]) {
        lemma_word_len(s.skip(1));
        assert forall|i: int| 0 <= i < word_len(s) implies !is_white(#[trigger] s[i]) by {
            if i > 0 {
                assert(s.skip(1)[i - 1] == s[i]);
            }
        }
    }
}

/// What `out` becomes once the words `ws` have been written behind it.
spec fn spaced_after(out: Seq<char>, ws: Seq<Seq<char>>) -> Seq<char> {
    if ws.len() == 0 {
        out
    } else if out.len() == 0 {
        join_spaced(ws)
    } else {
        out + seq![' '] + join_spaced(ws)
    }
}

/// The end of the run without white space that starts at `from`.
fn word_end(chars: &Vec<char>, from: usize) -> (r: usize)
    requires
        from <= chars.len(),
    ensures
        from <= r <= chars.len(),
        word_len(chars@.skip(from as int)) == r - from,
{
    let mut i: usize = from;
    while i < chars.len() && !is_whitespace(chars[i])
        invariant
            from <= i <= chars.len(),
            word_len(chars@.skip(from as int)) == (i - from) + word_len(chars@.skip(i as int)),
        decreases chars.len() - i,
    {
        assert(chars@.skip(i as int).skip(1) =~= chars@.skip(i + 1));
        i += 1;
    }
    i
}

/// `s` with every run of white space replaced by one space, and none at the
/// ends.
pub fn collapse_whitespace(s: &str) -> (r: String)
    ensures
        r@ == collapsed(s@),
{
    let chars = chars_of(s);
    let mut out = String::new();
    let mut i: usize = 0;
    assert(chars@.skip(0) =~= chars@);
    loop
        invariant_except_break
            i <= chars.len(),
            chars@ == s@,
            collapsed(s@) == spaced_after(out@, words(chars@.skip(i as int))),
        ensures
            out@ == collapsed(s@),
        decreases chars.len() - i,
    {
        let ghost rest = chars@.skip(i as int);
        let from = skip_white(&chars, i);
        proof {
            lemma_trim_start(rest);
        }
        if from == chars.len() {
            assert(words(rest) =~= Seq::<Seq<char>>::empty());
            break;
        }
        let to = word_end(&chars, from);
        let word = text_between(&chars, from, to);
        let ghost before = out@;
        let ghost t = chars@.skip(from as int);
        proof {
            assert(t[0] == chars@[from as int]);
            lemma_word_len(t);
            assert(t.take(to - from) =~= word@);
            assert(t.skip(to - from) =~= chars@.skip(to as int));
            assert(words(rest) == seq![word@] + words(chars@.skip(to as int)));
            assert(words(rest)[0] == word@);
            assert(words(rest).skip(1) =~= words(chars@.skip(to as int)));
        }
        if out.as_str().is_empty() {
            out = word;
        } else {
            out.push(' ');
            out.append(&word);
        }
        proof {
            let ws = words(rest);
            let later = words(chars@.skip(to as int));
            if later.len() == 0 {
                assert(ws.len() == 1);
            } else {
                assert(join_spaced(ws) == ws[0] + seq![' '] + join_spaced(later));
            }
            if before.len() == 0 {
                assert(out@ =~= word@);
            } else {
                assert(out@ =~= before + seq![' '] + word@);
            }
            assert(spaced_after(before, ws) =~= spaced_after(out@, later));
        }
        i = to;
    }
    out
}

/// Every part is a word: not empty, and without white space.
pub open spec fn all_words(parts: Seq<Seq<char>>) -> bool {
    forall|i: int|
        0 <= i < parts.len() ==> (#[trigger] parts[i]).len() > 0 && word_len(parts[i])
            == parts[i].len()
}

proof fn lemma_words_are_words(s: Seq<char>)
    ensures
        all_words(words(s)),
    decreases s.len(),
{
    let t = trim_start(s);
    lemma_trim_start(s);
    lemma_word_len(t);
    if t.len() > 0 {
        let n = word_len(t);
        lemma_word_then(t.take(n as int), t.skip(n as int));
        assert(t.take(n as int) + t.skip(n as int) =~= t);
        lemma_words_are_words(t.skip(n as int));
    }
}

/// A run without white space is as long as it is, whatever white space follows.
proof fn lemma_word_then(w: Seq<char>, rest: Seq<char>)
    requires
        forall|i: int| 0 <= i < w.len() ==> !is_white(#[trigger] w[i]),
        rest.len() > 0 ==> is_white(rest[0]),
    ensures
        word_len(w) == w.len(),
        word_len(w + rest) == w.len(),
    decreases w.len(),
{
    if w.len() > 0 {
        let v = w.skip(1);
        assert forall|i: int| 0 <= i < v.len() implies !is_white(#[trigger] v[i]) by {
            assert(v[i] == w[i + 1]);
        }
        lemma_word_then(v, rest);
        assert((w + rest).skip(1) =~= v + rest);
    } else {
        assert(w + rest =~= rest);
    }
}

proof fn lemma_words_of_joined(parts: Seq<Seq<char>>)
    requires
        all_words(parts),
    ensures
        words(join_spaced(parts)) == parts,
    decreases parts.len(),
{
    if parts.len() == 0 {
        assert(words(join_spaced(parts)) =~= parts);
    } else {
        let w = parts[0];
        lemma_word_len(w);
        let tail = parts.skip(1);
        let rest: Seq<char> = if parts.len() == 1 {
            Seq::empty()
        } else {
            seq![' '] + join_spaced(tail)
        };
        let s = join_spaced(parts);
        assert(s =~= w + rest);
        assert(!is_white(w[0]));
        assert(s[0] == w[0]);
        assert(trim_start(s) == s);
        lemma_word_then(w, rest);
        assert(s.take(w.len() as int) =~= w);
        assert(s.skip(w.len() as int) =~= rest);
        if parts.len() > 1 {
            lemma_words_of_joined(tail);
            assert(rest.skip(1) =~= join_spaced(tail));
            assert(trim_start(rest) == trim_start(join_spaced(tail)));
            assert(words(rest) == words(join_spaced(tail)));
        } else {
            assert(words(rest) =~= tail);
        }
        assert(words(s) =~= seq![w] + tail);
        assert(parts =~= seq![w] + tail);
    }
}

/// Collapsing white space keeps the words, in their order.
pub proof fn law_collapsing_keeps_the_words(s: Seq<char>)
    ensures
        words(collapsed(s)) == words(s),
{
    lemma_words_are_words(s);
    lemma_words_of_joined(words(s));
}

/// Once white space is collapsed, the only white space that is left is single
/// spaces between words.
pub proof fn law_collapsed_has_single_spaces(s: Seq<char>)
    ensures
        forall|i: int|
            0 <= i < collapsed(s).len() && is_white(#[trigger] collapsed(s)[i]) ==> {
                &&& collapsed(s)[i] == ' '
                &&& 0 < i < collapsed(s).len() - 1
                &&& !is_white(collapsed(s)[i - 1])
                &&& !is_white(collapsed(s)[i + 1])
            },
{
    lemma_words_are_words(s);
    lemma_joined_has_single_spaces(words(s));
}

proof fn lemma_joined_has_single_spaces(parts: Seq<Seq<char>>)
    requires
        all_words(parts),
    ensures
        parts.len() > 0 ==> join_spaced(parts).len() > 0 && !is_white(join_spaced(parts)[0]),
        forall|i: int|
            0 <= i < join_spaced(parts).len() && is_white(#[trigger] join_spaced(parts)[i]) ==> {
                &&& join_spaced(parts)[i] == ' '
                &&& 0 < i < join_spaced(parts).len() - 1
                &&& !is_white(join_spaced(parts)[i - 1])
                &&& !is_white(join_spaced(parts)[i + 1])
            },
    decreases parts.len(),
{
    if parts.len() > 0 {
        let w = parts[0];
        lemma_word_len(w);
        assert(!is_white(w[0]));
        if parts.len() > 1 {
            let tail = parts.skip(1);
            assert forall|i: int| 0 <= i < tail.len() implies (#[trigger] tail[i]).len() > 0
                && word_len(tail[i]) == tail[i].len() by {
                assert(tail[i] == parts[i + 1]);
            }
            lemma_joined_has_single_spaces(tail);
            let later = join_spaced(tail);
            let s = join_spaced(parts);
            assert(s == w + seq![' '] + later);
            assert forall|i: int| 0 <= i < s.len() && is_white(#[trigger] s[i]) implies {
                &&& s[i] == ' '
                &&& 0 < i < s.len() - 1
                &&& !is_white(s[i - 1])
                &&& !is_white(s[i + 1])
            } by {
                if i < w.len() {
                    assert(s[i] == w[i]);
                } else if i == w.len() {
                    assert(s[i - 1] == w[i - 1]);
                    assert(s[i + 1] == later[0]);
                } else {
                    let j = i - w.len() - 1;
                    assert(s[i] == later[j]);
                    assert(is_white(later[j]));
                    assert(s[i - 1] == later[j - 1]);
                    assert(s[i + 1] == later[j + 1]);
                }
            }
        }
    }
}

/// Collapsing white space a second time changes nothing.
pub proof fn law_collapsed_is_settled(s: Seq<char>)
    ensures
        collapsed(collapsed(s)) == collapsed(s),
{
    lemma_words_are_words(s);
    lemma_words_of_joined(words(s));
}

// ---------------------------------------------------------------------------
// Searching
// ---------------------------------------------------------------------------

/// `needle` stands in `hay` at position `at`.
pub open spec fn occurs_at(hay: Seq<char>, needle: Seq<char>, at: int) -> bool {
    &&& 0 <= at
    &&& at + needle.len() <= hay.len()
    &&& hay.subrange(at, at + needle.len()) == needle
}

/// `needle` stands somewhere in `hay`.
pub open spec fn has_text(hay: Seq<char>, needle: Seq<char>) -> bool {
    exists|at: int| occurs_at(hay, needle, at)
}

/// Whether `needle` stands in `hay` at position `at`.
fn matches_at(hay: &Vec<char>, needle: &Vec<char>, at: usize) -> (r: bool)
    ensures
        r == occurs_at(hay@, needle@, at as int),
{
    if needle.len() > hay.len() || at > hay.len() - needle.len() {
        return false;
    }
    let mut i: usize = 0;
    while i < needle.len()
        invariant
            i <= needle.len(),
            at + needle.len() <= hay.len(),
            forall|j: int| 0 <= j < i ==> hay@[at + j] == #[trigger] needle@[j],
        decreases needle.len() - i,
    {
        if hay[at + i] != needle[i] {
            assert(hay@.subrange(at as int, at + needle@.len())[i as int] != needle@[i as int]);
            return false;
        }
        i += 1;
    }
    assert(hay@.subrange(at as int, at + needle@.len()) =~= needle@);
    true
}

/// Whether `needle` stands somewhere in `hay`.
pub fn contains_text(hay: &str, needle: &str) -> (r: bool)
    ensures
        r == has_text(hay@, needle@),
{
    let h = chars_of(hay);
    let n = chars_of(needle);
    let mut at: usize = 0;
    loop
        invariant_except_break
            at <= h.len(),
            h@ == hay@,
            n@ == needle@,
            forall|k: int| 0 <= k < at ==> !occurs_at(hay@, needle@, k),
        ensures
            forall|k: int| 0 <= k <= hay@.len() ==> !occurs_at(hay@, needle@, k),
        decreases h.len() - at,
    {
        if matches_at(&h, &n, at) {
            return true;
        }
        if at == h.len() {
            break;
        }
        at += 1;
    }
    false
}

/// `s` with every occurrence of `from` replaced by `to`, taken from the left
/// and without overlap.
pub open spec fn replaced(s: Seq<char>, from: Seq<char>, to: Seq<char>) -> Seq<char>
    decreases s.len(),
{
    if from.len() == 0 || s.len() < from.len() {
        s
    } else if occurs_at(s, from, 0) {
        to + replaced(s.skip(from.len() as int), from, to)
    } else {
        seq![s[0]] + replaced(s.skip(1), from, to)
    }
}

/// `s` with every occurrence of `from` replaced by `to`, taken from the left
/// and without overlap.
pub fn replace_text(s: &str, from: &str, to: &str) -> (r: String)
    requires
        from@.len() > 0,
    ensures
        r@ == replaced(s@, from@, to@),
{
    let h = chars_of(s);
    let n = chars_of(from);
    let mut out = String::new();
    let mut i: usize = 0;
    assert(h@.skip(0) =~= h@);
    while i < h.len()
        invariant
            i <= h.len(),
            h@ == s@,
            n@ == from@,
            n@.len() > 0,
            replaced(s@, from@, to@) =~= out@ + replaced(h@.skip(i as int), from@, to@),
        decreases h.len() - i,
    {
        let ghost rest = h@.skip(i as int);
        let ghost before = out@;
        if matches_at(&h, &n, i) {
            proof {
                assert(rest.subrange(0, n@.len() as int) =~= h@.subrange(i as int, i + n@.len()));
                assert(occurs_at(rest, from@, 0));
                assert(rest.skip(n@.len() as int) =~= h@.skip(i + n@.len()));
            }
            out.append(to);
            i += n.len();
        } else {
            proof {
                if occurs_at(rest, from@, 0) {
                    assert(h@.subrange(i as int, i + n@.len()) =~= rest.subrange(
                        0,
                        n@.len() as int,
                    ));
                    assert(false);
                }
                assert(rest.skip(1) =~= h@.skip(i + 1));
                if rest.len() < n@.len() {
                    assert(rest =~= seq![rest[0]] + rest.skip(1));
                }
            }
            out.push(h[i]);
            i += 1;
        }
    }
    assert(h@.skip(h@.len() as int) =~= Seq::<char>::empty());
    assert(replaced(Seq::<char>::empty(), from@, to@) =~= Seq::<char>::empty());
    out
}

// ---------------------------------------------------------------------------
// Filling
// ---------------------------------------------------------------------------

/// `n` times the character `c`.
pub open spec fn repeated(c: char, n: nat) -> Seq<char> {
    Seq::new(n, |i: int| c)
}

/// `n` times the character `c`.
pub fn repeat_char(c: char, n: usize) -> (r: String)
    ensures
        r@ == repeated(c, n as nat),
{
    let mut r = String::new();
    for i in 0..n
        invariant
            r@ =~= repeated(c, i as nat),
    {
        r.push(c);
    }
    r
}

/// `s`, filled up with spaces on the right to at least `width` characters.
pub open spec fn padded(s: Seq<char>, width: int) -> Seq<char> {
    if s.len() >= width {
        s
    } else {
        s + repeated(' ', (width - s.len()) as nat)
    }
}

/// `s`, filled up with spaces on the right to at least `width` characters.
pub fn pad_right(s: &str, width: usize) -> (r: String)
    ensures
        r@ == padded(s@, width as int),
{
    let n = s.unicode_len();
    let mut r = s.to_owned();
    if n < width {
        let fill = repeat_char(' ', width - n);
        r.append(&fill);
    }
    r
}

/// At most `max_len` characters of `name`: a longer name is cut and ends in an
/// ellipsis, where there is room for one.
pub open spec fn truncated(name: Seq<char>, max_len: int) -> Seq<char> {
    if name.len() <= max_len {
        name
    } else if max_len <= 0 {
        Seq::empty()
    } else {
        name.take(max_len - 1).push('\u{2026}')
    }
}

/// At most `max_len` characters of `name`: a longer name is cut and ends in an
/// ellipsis, where there is room for one.
pub fn truncate_text(name: &str, max_len: usize) -> (r: String)
    ensures
        r@ == truncated(name@, max_len as int),
        r@.len() <= max_len,
{
    let chars = chars_of(name);
    if chars.len() <= max_len {
        return name.to_owned();
    }
    if max_len == 0 {
        return String::new();
    }
    let keep: usize = max_len - 1;
    let mut r = text_between(&chars, 0, keep);
    r.push('\u{2026}');
    assert(chars@.subrange(0, keep as int) =~= name@.take(keep as int));
    r
}

} // verus!
