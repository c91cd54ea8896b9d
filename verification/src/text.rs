//! Text as sequences of characters: the handful of string operations the parsers and the
//! tree builders share.

use vstd::prelude::*;
use vstd::slice::slice_subrange;

verus! {

/// `String::push` appends one character to the end of the string.
pub assume_specification[ String::push ](s: &mut String, c: char)
    ensures
        final(s)@ == old(s)@.push(c),
;

/// The lower-case form of a text, by Unicode's rules.
pub uninterp spec fn lowercase(s: Seq<char>) -> Seq<char>;

/// The lower-case form of a text: `str::to_lowercase`. The mapping is Unicode's, and is named
/// rather than spelled out.
#[verifier::external_body]
pub(crate) fn to_lowercase(s: &str) -> (lower: String)
    ensures
        lower@ == lowercase(s@),
{
    s.to_lowercase()
}

// ---------------------------------------------------------------------------------------------
// Specifications
// ---------------------------------------------------------------------------------------------

/// The texts held by a sequence of strings.
pub open spec fn texts(s: Seq<String>) -> Seq<Seq<char>> {
    Seq::new(s.len(), |i: int| s[i]@)
}

/// The text of an optional string.
pub open spec fn opt_text(s: Option<String>) -> Option<Seq<char>> {
    match s {
        Some(text) => Some(text@),
        None => None,
    }
}

/// The present elements of `s`, in order.
pub open spec fn present<A>(s: Seq<Option<A>>) -> Seq<A>
    decreases s.len(),
{
    if s.len() == 0 {
        Seq::empty()
    } else {
        match s.last() {
            Some(a) => present(s.drop_last()).push(a),
            None => present(s.drop_last()),
        }
    }
}

/// Where `c` first stands in `s`; the length of `s` when it does not occur.
pub open spec fn first_index(s: Seq<char>, c: char) -> nat
    decreases s.len(),
{
    if s.len() == 0 || s[0] == c {
        0
    } else {
        1 + first_index(s.drop_first(), c)
    }
}

/// Where `c` last stands in `s`; -1 when it does not occur.
pub open spec fn last_index(s: Seq<char>, c: char) -> int
    decreases s.len(),
{
    if s.len() == 0 {
        -1
    } else if s.last() == c {
        s.len() - 1
    } else {
        last_index(s.drop_last(), c)
    }
}

/// What stands before and after the first `c`, or `None` when it does not occur.
pub open spec fn split_once(s: Seq<char>, c: char) -> Option<(Seq<char>, Seq<char>)> {
    let i = first_index(s, c) as int;
    if i < s.len() {
        Some((s.take(i), s.skip(i + 1)))
    } else {
        None
    }
}

/// The pieces of `s` between the occurrences of `c`: one more than there are occurrences.
pub open spec fn split(s: Seq<char>, c: char) -> Seq<Seq<char>>
    decreases s.len(),
{
    let i = first_index(s, c) as int;
    if i < s.len() {
        seq![s.take(i)] + split(s.skip(i + 1), c)
    } else {
        seq![s]
    }
}

/// The pieces strung together with `c` between them.
pub open spec fn join(pieces: Seq<Seq<char>>, c: char) -> Seq<char>
    decreases pieces.len(),
{
    if pieces.len() == 0 {
        Seq::empty()
    } else if pieces.len() == 1 {
        pieces[0]
    } else {
        join(pieces.drop_last(), c).push(c) + pieces.last()
    }
}

pub open spec fn starts_with(s: Seq<char>, prefix: Seq<char>) -> bool {
    prefix.len() <= s.len() && s.take(prefix.len() as int) == prefix
}

pub open spec fn ends_with(s: Seq<char>, suffix: Seq<char>) -> bool {
    suffix.len() <= s.len() && s.skip(s.len() - suffix.len()) == suffix
}

/// What follows `prefix`, or `None` when `s` does not start with it.
pub open spec fn strip_prefix(s: Seq<char>, prefix: Seq<char>) -> Option<Seq<char>> {
    if starts_with(s, prefix) {
        Some(s.skip(prefix.len() as int))
    } else {
        None
    }
}

/// `s` without any repetition of `suffix` at its end.
pub open spec fn strip_suffixes(s: Seq<char>, suffix: Seq<char>) -> Seq<char>
    decreases s.len(),
{
    if suffix.len() > 0 && ends_with(s, suffix) {
        strip_suffixes(s.take(s.len() - suffix.len()), suffix)
    } else {
        s
    }
}

/// `s` without the characters at its start that satisfy `drop`.
pub open spec fn trim_start_by(s: Seq<char>, drop: spec_fn(char) -> bool) -> Seq<char>
    decreases s.len(),
{
    if s.len() > 0 && drop(s[0]) {
        trim_start_by(s.drop_first(), drop)
    } else {
        s
    }
}

/// `s` without the characters at its end that satisfy `drop`.
pub open spec fn trim_end_by(s: Seq<char>, drop: spec_fn(char) -> bool) -> Seq<char>
    decreases s.len(),
{
    if s.len() > 0 && drop(s.last()) {
        trim_end_by(s.drop_last(), drop)
    } else {
        s
    }
}

/// `s` without the characters at either end that satisfy `drop`.
pub open spec fn trim_by(s: Seq<char>, drop: spec_fn(char) -> bool) -> Seq<char> {
    trim_end_by(trim_start_by(s, drop), drop)
}

/// Unicode's `White_Space` property.
pub open spec fn is_white_space(c: char) -> bool {
    ||| '\u{9}' <= c <= '\u{d}'
    ||| c == '\u{20}'
    ||| c == '\u{85}'
    ||| c == '\u{a0}'
    ||| c == '\u{1680}'
    ||| '\u{2000}' <= c <= '\u{200a}'
    ||| '\u{2028}' <= c <= '\u{2029}'
    ||| c == '\u{202f}'
    ||| c == '\u{205f}'
    ||| c == '\u{3000}'
}

/// `s` without white space at either end.
pub open spec fn trimmed(s: Seq<char>) -> Seq<char> {
    trim_by(s, |c: char| is_white_space(c))
}

/// The test for being the character `c`.
pub open spec fn equals(c: char) -> spec_fn(char) -> bool {
    |d: char| d == c
}

/// `s` without the character `c` at either end.
pub open spec fn trimmed_of(s: Seq<char>, c: char) -> Seq<char> {
    trim_by(s, equals(c))
}

/// An ASCII capital as the corresponding small letter; any other character as it is.
pub open spec fn ascii_lower(c: char) -> char {
    if 'A' <= c <= 'Z' {
        (c as u8 + 32) as char
    } else {
        c
    }
}

/// `s` with its ASCII capitals made small.
pub open spec fn ascii_lowercase(s: Seq<char>) -> Seq<char> {
    s.map_values(|c: char| ascii_lower(c))
}

// ---------------------------------------------------------------------------------------------
// Lemmas
// ---------------------------------------------------------------------------------------------

pub proof fn lemma_present_push<A>(s: Seq<Option<A>>, last: Option<A>)
    ensures
        present(s.push(last)) == match last {
            Some(a) => present(s).push(a),
            None => present(s),
        },
{
    assert(s.push(last).drop_last() == s);
}

pub proof fn lemma_present_add<A>(s: Seq<Option<A>>, t: Seq<Option<A>>)
    ensures
        present(s + t) == present(s) + present(t),
    decreases t.len(),
{
    if t.len() == 0 {
        assert(s + t == s);
        assert(present(s) + present(t) == present(s));
    } else {
        assert((s + t).drop_last() == s + t.drop_last());
        lemma_present_add(s, t.drop_last());
        assert(present(s + t) == present(s) + present(t));
    }
}

/// What is present in `s` was an element of `s`, and the other way round.
pub proof fn lemma_present_contains<A>(s: Seq<Option<A>>, a: A)
    ensures
        present(s).contains(a) <==> s.contains(Some(a)),
    decreases s.len(),
{
    if s.len() > 0 {
        let rest = s.drop_last();
        lemma_present_contains(rest, a);
        assert(s == rest.push(s.last()));
        if present(s).contains(a) {
            let i = choose|i: int| 0 <= i < present(s).len() && present(s)[i] == a;
            if s.last() is Some && i == present(s).len() - 1 {
                assert(s[s.len() - 1] == Some(a));
            } else {
                assert(present(rest)[i] == a);
                let j = choose|j: int| 0 <= j < rest.len() && rest[j] == Some(a);
                assert(s[j] == Some(a));
            }
        }
        if s.contains(Some(a)) {
            let j = choose|j: int| 0 <= j < s.len() && s[j] == Some(a);
            if j == s.len() - 1 {
                assert(present(s)[present(s).len() - 1] == a);
            } else {
                assert(rest[j] == Some(a));
                let i = choose|i: int| 0 <= i < present(rest).len() && present(rest)[i] == a;
                assert(present(s)[i] == a);
            }
        }
    }
}

pub proof fn lemma_first_index(s: Seq<char>, c: char)
    ensures
        first_index(s, c) <= s.len(),
        first_index(s, c) < s.len() ==> s[first_index(s, c) as int] == c,
        forall|j: int| 0 <= j < first_index(s, c) ==> s[j] != c,
    decreases s.len(),
{
    if s.len() > 0 && s[0] != c {
        lemma_first_index(s.drop_first(), c);
        assert forall|j: int| 0 <= j < first_index(s, c) implies s[j] != c by {
            if j > 0 {
                assert(s[j] == s.drop_first()[j - 1]);
            }
        }
    }
}

/// The first index is the only one with nothing but other characters before it and either `c`
/// or the end at it.
pub proof fn lemma_first_index_is(s: Seq<char>, c: char, i: int)
    requires
        0 <= i <= s.len(),
        i < s.len() ==> s[i] == c,
        forall|j: int| 0 <= j < i ==> s[j] != c,
    ensures
        first_index(s, c) == i,
{
    lemma_first_index(s, c);
}

pub proof fn lemma_last_index(s: Seq<char>, c: char)
    ensures
        -1 <= last_index(s, c) < s.len(),
        last_index(s, c) >= 0 ==> s[last_index(s, c)] == c,
        forall|j: int| last_index(s, c) < j < s.len() ==> s[j] != c,
    decreases s.len(),
{
    if s.len() > 0 && s.last() != c {
        lemma_last_index(s.drop_last(), c);
        assert forall|j: int| last_index(s, c) < j < s.len() implies s[j] != c by {
            if j < s.len() - 1 {
                assert(s[j] == s.drop_last()[j]);
            }
        }
    }
}

pub proof fn lemma_last_index_is(s: Seq<char>, c: char, i: int)
    requires
        -1 <= i < s.len(),
        i >= 0 ==> s[i] == c,
        forall|j: int| i < j < s.len() ==> s[j] != c,
    ensures
        last_index(s, c) == i,
{
    lemma_last_index(s, c);
}

/// A text without `c`, followed by `c` and anything, splits there.
pub proof fn lemma_split_once_at(before: Seq<char>, c: char, after: Seq<char>)
    requires
        !before.contains(c),
    ensures
        split_once(before.push(c) + after, c) == Some((before, after)),
{
    let s = before.push(c) + after;
    let i = before.len() as int;
    assert forall|j: int| 0 <= j < i implies s[j] != c by {
        assert(s[j] == before[j]);
    }
    lemma_first_index_is(s, c, i);
    assert(s.take(i) == before);
    assert(s.skip(i + 1) == after);
}

/// Splitting a text that ends a line and goes on splits the two parts.
pub proof fn lemma_split_add(s: Seq<char>, c: char, t: Seq<char>)
    ensures
        split(s.push(c) + t, c) == split(s, c) + split(t, c),
    decreases s.len(),
{
    let all = s.push(c) + t;
    lemma_first_index(s, c);
    let i = first_index(s, c) as int;
    assert forall|j: int| 0 <= j < i implies all[j] != c by {
        assert(all[j] == s[j]);
    }
    assert(all[i] == c);
    lemma_first_index_is(all, c, i);
    assert(all.take(i) == s.take(i));
    if i < s.len() {
        assert(all.skip(i + 1) == s.skip(i + 1).push(c) + t);
        lemma_split_add(s.skip(i + 1), c, t);
        assert(split(all, c) == split(s, c) + split(t, c));
    } else {
        assert(s.take(i) == s);
        assert(all.skip(i + 1) == t);
    }
}

/// A text without `c` is its own only piece.
pub proof fn lemma_split_whole(s: Seq<char>, c: char)
    requires
        !s.contains(c),
    ensures
        split(s, c) == seq![s],
{
    lemma_first_index(s, c);
}

/// No piece of a text holds the character it is split by.
pub proof fn lemma_split_pieces(s: Seq<char>, c: char)
    ensures
        split(s, c).len() > 0,
        forall|i: int| 0 <= i < split(s, c).len() ==> !(#[trigger] split(s, c)[i]).contains(c),
    decreases s.len(),
{
    lemma_first_index(s, c);
    let i = first_index(s, c) as int;
    if i < s.len() {
        lemma_split_pieces(s.skip(i + 1), c);
        assert forall|j: int| 0 <= j < split(s, c).len() implies !(#[trigger] split(s, c)[j]).contains(
            c,
        ) by {
            if j > 0 {
                assert(split(s, c)[j] == split(s.skip(i + 1), c)[j - 1]);
            }
        }
    }
}

proof fn lemma_trim_start_push(s: Seq<char>, c: char, drop: spec_fn(char) -> bool)
    requires
        drop(c),
    ensures
        trim_start_by(s.push(c), drop) == (if trim_start_by(s, drop).len() == 0 {
            Seq::empty()
        } else {
            trim_start_by(s, drop).push(c)
        }),
    decreases s.len(),
{
    let all = s.push(c);
    if s.len() == 0 {
        assert(all.drop_first() == Seq::<char>::empty());
        assert(all[0] == c);
        assert(trim_start_by(all.drop_first(), drop) == Seq::<char>::empty());
    } else {
        assert(all[0] == s[0]);
        if drop(s[0]) {
            assert(all.drop_first() == s.drop_first().push(c));
            lemma_trim_start_push(s.drop_first(), c, drop);
        }
    }
}

/// White space at the end of a text is trimmed away.
pub proof fn lemma_trimmed_push(s: Seq<char>, c: char)
    requires
        is_white_space(c),
    ensures
        trimmed(s.push(c)) == trimmed(s),
{
    let drop = |c: char| is_white_space(c);
    lemma_trim_start_push(s, c, drop);
    let started = trim_start_by(s, drop);
    if started.len() == 0 {
        assert(started == Seq::<char>::empty());
    } else {
        assert(started.push(c).drop_last() == started);
        assert(trim_end_by(started.push(c), drop) == trim_end_by(started, drop));
    }
}

// ---------------------------------------------------------------------------------------------
// Conversions
// ---------------------------------------------------------------------------------------------

/// The characters of a string, as a vector.
pub fn to_chars(s: &str) -> (chars: Vec<char>)
    ensures
        chars@ == s@,
{
    let mut chars: Vec<char> = Vec::new();
    for c in it: s.chars()
        invariant
            it.seq() == s@,
            chars@ == s@.take(it.index()),
    {
        chars.push(c);
    }
    chars
}

/// The string made of the given characters.
pub fn to_text(chars: &[char]) -> (s: String)
    ensures
        s@ == chars@,
{
    let mut s = String::new();
    for i in 0..chars.len()
        invariant
            s@ == chars@.take(i as int),
    {
        s.push(chars[i]);
    }
    s
}

/// Appends a text to a string.
pub fn push_text(s: &mut String, more: &str)
    ensures
        final(s)@ == old(s)@ + more@,
{
    let ghost before = s@;
    for c in it: more.chars()
        invariant
            it.seq() == more@,
            s@ == before + more@.take(it.index()),
    {
        s.push(c);
    }
    assert(more@.take(more@.len() as int) == more@);
}

/// Whether two runs of characters are the same.
pub fn same_chars(a: &[char], b: &[char]) -> (same: bool)
    ensures
        same == (a@ == b@),
{
    if a.len() != b.len() {
        return false;
    }
    for i in 0..a.len()
        invariant
            a@.len() == b@.len(),
            forall|j: int| 0 <= j < i ==> a@[j] == b@[j],
    {
        if a[i] != b[i] {
            return false;
        }
    }
    assert(a@ == b@);
    true
}

/// Whether two texts are the same.
pub fn same_text(a: &str, b: &str) -> (same: bool)
    ensures
        same == (a@ == b@),
{
    same_chars(to_chars(a).as_slice(), to_chars(b).as_slice())
}

// ---------------------------------------------------------------------------------------------
// Searching and cutting
// ---------------------------------------------------------------------------------------------

/// Where `c` first stands in `s`; the length of `s` when it does not occur.
pub fn find_first(s: &[char], c: char) -> (i: usize)
    ensures
        i == first_index(s@, c),
        i <= s@.len(),
{
    let mut i: usize = 0;
    while i < s.len() && s[i] != c
        invariant
            i <= s@.len(),
            forall|j: int| 0 <= j < i ==> s@[j] != c,
        decreases s@.len() - i,
    {
        i = i + 1;
    }
    proof {
        lemma_first_index_is(s@, c, i as int);
    }
    i
}

/// Where `c` last stands in `s`, or `None` when it does not occur.
pub fn find_last(s: &[char], c: char) -> (found: Option<usize>)
    ensures
        match found {
            Some(i) => i == last_index(s@, c) && i < s@.len(),
            None => last_index(s@, c) == -1,
        },
{
    let mut i: usize = s.len();
    while i > 0
        invariant
            i <= s@.len(),
            forall|j: int| i <= j < s@.len() ==> s@[j] != c,
        decreases i,
    {
        if s[i - 1] == c {
            proof {
                lemma_last_index_is(s@, c, i - 1);
            }
            return Some(i - 1);
        }
        i = i - 1;
    }
    proof {
        lemma_last_index_is(s@, c, -1);
    }
    None
}

/// The pieces held by a sequence of character vectors.
pub open spec fn pieces(s: Seq<Vec<char>>) -> Seq<Seq<char>> {
    Seq::new(s.len(), |i: int| s[i]@)
}

/// A copy of the characters from `from` up to `to`.
pub fn cut(s: &[char], from: usize, to: usize) -> (piece: Vec<char>)
    requires
        from <= to <= s@.len(),
    ensures
        piece@ == s@.subrange(from as int, to as int),
{
    let mut piece: Vec<char> = Vec::new();
    for i in from..to
        invariant
            from <= to <= s@.len(),
            piece@ == s@.subrange(from as int, i as int),
    {
        piece.push(s[i]);
    }
    piece
}

/// The pieces of `s` between the occurrences of `c`.
pub fn split_chars(s: &[char], c: char) -> (parts: Vec<Vec<char>>)
    ensures
        pieces(parts@) == split(s@, c),
{
    let mut parts: Vec<Vec<char>> = Vec::new();
    let mut rest: &[char] = s;
    proof {
        assert(pieces(parts@) + split(s@, c) == split(s@, c));
    }
    loop
        invariant
            pieces(parts@) + split(rest@, c) == split(s@, c),
        decreases rest@.len(),
    {
        let i = find_first(rest, c);
        let ghost before = parts@;
        parts.push(cut(rest, 0, i));
        if i == rest.len() {
            proof {
                assert(rest@.subrange(0, i as int) == rest@);
                assert(pieces(parts@) == pieces(before) + seq![rest@]);
            }
            return parts;
        }
        proof {
            assert(pieces(parts@) == pieces(before) + seq![rest@.take(i as int)]);
            assert(pieces(parts@) + split(rest@.skip(i + 1), c) == pieces(before) + (
            seq![rest@.take(i as int)] + split(rest@.skip(i + 1), c)));
        }
        rest = slice_subrange(rest, i + 1, rest.len());
    }
}

/// Whether `s` starts with `prefix`.
pub fn has_prefix(s: &[char], prefix: &[char]) -> (yes: bool)
    ensures
        yes == starts_with(s@, prefix@),
{
    if s.len() < prefix.len() {
        return false;
    }
    same_chars(slice_subrange(s, 0, prefix.len()), prefix)
}

/// Whether `s` ends with `suffix`.
pub fn has_suffix(s: &[char], suffix: &[char]) -> (yes: bool)
    ensures
        yes == ends_with(s@, suffix@),
{
    if s.len() < suffix.len() {
        return false;
    }
    same_chars(slice_subrange(s, s.len() - suffix.len(), s.len()), suffix)
}

/// What follows `prefix`, or `None` when `s` does not start with it.
pub fn after_prefix<'a>(s: &'a [char], prefix: &[char]) -> (rest: Option<&'a [char]>)
    ensures
        match strip_prefix(s@, prefix@) {
            Some(after) => rest is Some && rest->0@ == after,
            None => rest is None,
        },
{
    if has_prefix(s, prefix) {
        Some(slice_subrange(s, prefix.len(), s.len()))
    } else {
        None
    }
}

/// `s` without any repetition of `suffix` at its end.
pub fn without_suffixes<'a>(s: &'a [char], suffix: &[char]) -> (rest: &'a [char])
    ensures
        rest@ == strip_suffixes(s@, suffix@),
{
    let mut rest: &[char] = s;
    while suffix.len() > 0 && has_suffix(rest, suffix)
        invariant
            strip_suffixes(rest@, suffix@) == strip_suffixes(s@, suffix@),
        decreases rest@.len(),
    {
        rest = slice_subrange(rest, 0, rest.len() - suffix.len());
    }
    rest
}

/// Whether `c` is white space.
pub fn is_space(c: char) -> (yes: bool)
    ensures
        yes == is_white_space(c),
{
    ('\u{9}' <= c && c <= '\u{d}') || c == '\u{20}' || c == '\u{85}' || c == '\u{a0}' || c
        == '\u{1680}' || ('\u{2000}' <= c && c <= '\u{200a}') || ('\u{2028}' <= c && c
        <= '\u{2029}') || c == '\u{202f}' || c == '\u{205f}' || c == '\u{3000}'
}

/// `s` without white space at either end.
pub fn trim_space<'a>(s: &'a [char]) -> (rest: &'a [char])
    ensures
        rest@ == trimmed(s@),
{
    let ghost drop = |c: char| is_white_space(c);
    let mut rest: &[char] = s;
    while rest.len() > 0 && is_space(rest[0])
        invariant
            drop == (|c: char| is_white_space(c)),
            trim_start_by(rest@, drop) == trim_start_by(s@, drop),
        decreases rest@.len(),
    {
        proof {
            assert(rest@.subrange(1, rest@.len() as int) == rest@.drop_first());
        }
        rest = slice_subrange(rest, 1, rest.len());
    }
    let ghost started = rest@;
    while rest.len() > 0 && is_space(rest[rest.len() - 1])
        invariant
            drop == (|c: char| is_white_space(c)),
            trim_end_by(rest@, drop) == trim_end_by(started, drop),
        decreases rest@.len(),
    {
        proof {
            assert(rest@.subrange(0, rest@.len() - 1) == rest@.drop_last());
        }
        rest = slice_subrange(rest, 0, rest.len() - 1);
    }
    rest
}

/// `s` without the character `c` at either end.
pub fn trim_char<'a>(s: &'a [char], c: char) -> (rest: &'a [char])
    ensures
        rest@ == trimmed_of(s@, c),
{
    let ghost drop = equals(c);
    let mut rest: &[char] = s;
    while rest.len() > 0 && rest[0] == c
        invariant
            drop == equals(c),
            trim_start_by(rest@, drop) == trim_start_by(s@, drop),
        decreases rest@.len(),
    {
        proof {
            assert(rest@.subrange(1, rest@.len() as int) == rest@.drop_first());
        }
        rest = slice_subrange(rest, 1, rest.len());
    }
    let ghost started = rest@;
    while rest.len() > 0 && rest[rest.len() - 1] == c
        invariant
            drop == equals(c),
            trim_end_by(rest@, drop) == trim_end_by(started, drop),
        decreases rest@.len(),
    {
        proof {
            assert(rest@.subrange(0, rest@.len() - 1) == rest@.drop_last());
        }
        rest = slice_subrange(rest, 0, rest.len() - 1);
    }
    rest
}

/// An ASCII capital as the corresponding small letter; any other character as it is.
pub fn lower_ascii(c: char) -> (lower: char)
    ensures
        lower == ascii_lower(c),
{
    if 'A' <= c && c <= 'Z' {
        (c as u8 + 32) as char
    } else {
        c
    }
}

/// `s` with its ASCII capitals made small.
pub fn lower_ascii_chars(s: &[char]) -> (lower: Vec<char>)
    ensures
        lower@ == ascii_lowercase(s@),
{
    let mut lower: Vec<char> = Vec::new();
    for i in 0..s.len()
        invariant
            lower@ == ascii_lowercase(s@).take(i as int),
    {
        lower.push(lower_ascii(s[i]));
    }
    assert(ascii_lowercase(s@).take(s@.len() as int) == ascii_lowercase(s@));
    lower
}

/// The pieces strung together with `c` between them.
pub fn join_chars(parts: &Vec<Vec<char>>, c: char) -> (joined: Vec<char>)
    ensures
        joined@ == join(pieces(parts@), c),
{
    let mut joined: Vec<char> = Vec::new();
    for i in 0..parts.len()
        invariant
            joined@ == join(pieces(parts@).take(i as int), c),
    {
        let ghost before = joined@;
        if i > 0 {
            joined.push(c);
        }
        joined.extend_from_slice(parts[i].as_slice());
        proof {
            let done = pieces(parts@).take(i + 1);
            assert(done.drop_last() == pieces(parts@).take(i as int));
            assert(done.last() == parts@[i as int]@);
            if i == 0 {
                assert(joined@ == parts@[0]@);
            } else {
                assert(joined@ == before.push(c) + parts@[i as int]@);
            }
        }
    }
    assert(pieces(parts@).take(parts@.len() as int) == pieces(parts@));
    joined
}

// ---------------------------------------------------------------------------------------------
// Laws
// ---------------------------------------------------------------------------------------------

/// Whether every character of `s` satisfies `drop`.
pub open spec fn all_of(s: Seq<char>, drop: spec_fn(char) -> bool) -> bool {
    forall|i: int| 0 <= i < s.len() ==> drop(#[trigger] s[i])
}

proof fn lemma_trim_start_all(front: Seq<char>, rest: Seq<char>, drop: spec_fn(char) -> bool)
    requires
        all_of(front, drop),
    ensures
        trim_start_by(front + rest, drop) == trim_start_by(rest, drop),
    decreases front.len(),
{
    if front.len() == 0 {
        assert(front + rest == rest);
    } else {
        assert((front + rest)[0] == front[0]);
        assert((front + rest).drop_first() == front.drop_first() + rest);
        assert(all_of(front.drop_first(), drop)) by {
            assert forall|i: int| 0 <= i < front.drop_first().len() implies drop(
                #[trigger] front.drop_first()[i],
            ) by {
                assert(front.drop_first()[i] == front[i + 1]);
            }
        }
        lemma_trim_start_all(front.drop_first(), rest, drop);
    }
}

proof fn lemma_trim_end_all(rest: Seq<char>, back: Seq<char>, drop: spec_fn(char) -> bool)
    requires
        all_of(back, drop),
    ensures
        trim_end_by(rest + back, drop) == trim_end_by(rest, drop),
    decreases back.len(),
{
    if back.len() == 0 {
        assert(rest + back == rest);
    } else {
        assert((rest + back).last() == back[back.len() - 1]);
        assert((rest + back).drop_last() == rest + back.drop_last());
        assert(all_of(back.drop_last(), drop)) by {
            assert forall|i: int| 0 <= i < back.drop_last().len() implies drop(
                #[trigger] back.drop_last()[i],
            ) by {
                assert(back.drop_last()[i] == back[i]);
            }
        }
        lemma_trim_end_all(rest, back.drop_last(), drop);
    }
}

proof fn lemma_trim_by(
    front: Seq<char>,
    core: Seq<char>,
    back: Seq<char>,
    drop: spec_fn(char) -> bool,
)
    requires
        all_of(front, drop),
        all_of(back, drop),
        core.len() > 0 ==> !drop(core[0]) && !drop(core.last()),
    ensures
        trim_by(front + core + back, drop) == core,
{
    assert(front + core + back == front + (core + back));
    lemma_trim_start_all(front, core + back, drop);
    if core.len() == 0 {
        assert(core + back == back + Seq::<char>::empty());
        lemma_trim_start_all(back, Seq::empty(), drop);
        assert(core == Seq::<char>::empty());
    } else {
        assert((core + back)[0] == core[0]);
        lemma_trim_end_all(core, back, drop);
    }
}

/// Whether every character of `s` is white space.
pub open spec fn all_white_space(s: Seq<char>) -> bool {
    forall|i: int| 0 <= i < s.len() ==> is_white_space(#[trigger] s[i])
}

/// Trimming takes off the white space around a text and nothing else.
pub proof fn trimming_takes_off_white_space(front: Seq<char>, core: Seq<char>, back: Seq<char>)
    requires
        all_white_space(front),
        all_white_space(back),
        core.len() > 0 ==> !is_white_space(core[0]) && !is_white_space(core.last()),
    ensures
        trimmed(front + core + back) == core,
{
    lemma_trim_by(front, core, back, |c: char| is_white_space(c));
}

/// Trimming a character takes it off both ends, however often it stands there, and nothing else.
pub proof fn trimming_takes_off_a_character(
    front: Seq<char>,
    core: Seq<char>,
    back: Seq<char>,
    c: char,
)
    requires
        forall|i: int| 0 <= i < front.len() ==> front[i] == c,
        forall|i: int| 0 <= i < back.len() ==> back[i] == c,
        core.len() > 0 ==> core[0] != c && core.last() != c,
    ensures
        trimmed_of(front + core + back, c) == core,
{
    lemma_trim_by(front, core, back, equals(c));
}

/// A text starts with another, and has a rest, exactly when it is the two strung together.
pub proof fn prefixes_are_followed_by_the_rest(s: Seq<char>, prefix: Seq<char>, rest: Seq<char>)
    ensures
        strip_prefix(s, prefix) == Some(rest) <==> s == prefix + rest,
        s == prefix + rest ==> starts_with(s, prefix),
        strip_prefix(s, prefix) is None <==> !starts_with(s, prefix),
{
    if s == prefix + rest {
        assert(s.take(prefix.len() as int) == prefix);
        assert(s.skip(prefix.len() as int) == rest);
    }
    if strip_prefix(s, prefix) == Some(rest) {
        assert(s == s.take(prefix.len() as int) + s.skip(prefix.len() as int));
    }
}

/// A text ends with another exactly when it is something followed by it.
pub proof fn suffixes_follow_the_rest(s: Seq<char>, suffix: Seq<char>)
    ensures
        ends_with(s, suffix) <==> exists|rest: Seq<char>| s == #[trigger] (rest + suffix),
{
    if ends_with(s, suffix) {
        assert(s == s.take(s.len() - suffix.len()) + suffix);
    }
    if exists|rest: Seq<char>| s == #[trigger] (rest + suffix) {
        let rest = choose|rest: Seq<char>| s == #[trigger] (rest + suffix);
        assert(s.skip(s.len() - suffix.len()) == suffix);
    }
}

/// Stripping a suffix takes it off as often as it stands at the end, and nothing else.
pub proof fn stripping_takes_off_every_suffix(s: Seq<char>, suffix: Seq<char>)
    requires
        suffix.len() > 0,
    ensures
        strip_suffixes(s + suffix, suffix) == strip_suffixes(s, suffix),
        (forall|rest: Seq<char>| s != #[trigger] (rest + suffix)) ==> strip_suffixes(s, suffix)
            == s,
{
    assert((s + suffix).skip((s + suffix).len() - suffix.len()) == suffix);
    assert((s + suffix).take((s + suffix).len() - suffix.len()) == s);
    suffixes_follow_the_rest(s, suffix);
}

/// Making ASCII capitals small goes character by character, changes nothing but ASCII capitals, and
/// leaves none.
pub proof fn ascii_case_is_per_character(s: Seq<char>, i: int)
    requires
        0 <= i < s.len(),
    ensures
        ascii_lowercase(s).len() == s.len(),
        'A' <= s[i] <= 'Z' ==> ascii_lowercase(s)[i] as int == s[i] as int + 32,
        !('A' <= s[i] <= 'Z') ==> ascii_lowercase(s)[i] == s[i],
{
}

/// The texts of strings are all there, in order.
pub proof fn texts_hold_every_string(s: Seq<String>, i: int)
    requires
        0 <= i < s.len(),
    ensures
        texts(s).len() == s.len(),
        texts(s)[i] == s[i]@,
{
}

/// The text of an optional string is there exactly when the string is.
pub proof fn optional_texts_are_there_with_their_strings(s: Option<String>)
    ensures
        s is None <==> opt_text(s) is None,
        s matches Some(text) ==> opt_text(s) == Some(text@),
{
}

}
