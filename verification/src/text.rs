//! Text as sequences of characters: trimming, searching, splitting into lines.
//!
//! The specifications describe a string by its characters (`s@`). The
//! executable functions work on vectors of characters, which index in constant
//! time.

use vstd::prelude::*;

verus! {

/// `String::push` appends one character to the end of the string.
pub assume_specification[ String::push ](s: &mut String, c: char)
    ensures
        final(s)@ == old(s)@.push(c),
;

/// The views of some strings.
pub open spec fn views(strings: Seq<String>) -> Seq<Seq<char>> {
    strings.map_values(|s: String| s@)
}

/// The view of an optional string.
pub open spec fn maybe(s: Option<String>) -> Option<Seq<char>> {
    match s {
        Some(text) => Some(text@),
        None => None,
    }
}

/// A character with the Unicode `White_Space` property.
pub open spec fn white_space(c: char) -> bool {
    let n = c as u32;
    ||| 0x9 <= n <= 0xd
    ||| n == 0x20
    ||| n == 0x85
    ||| n == 0xa0
    ||| n == 0x1680
    ||| 0x2000 <= n <= 0x200a
    ||| n == 0x2028
    ||| n == 0x2029
    ||| n == 0x202f
    ||| n == 0x205f
    ||| n == 0x3000
}

/// Nothing but white space.
pub open spec fn blank(s: Seq<char>) -> bool {
    forall|i: int| 0 <= i < s.len() ==> white_space(#[trigger] s[i])
}

/// `s` without its leading white space.
pub open spec fn trim_start(s: Seq<char>) -> Seq<char>
    decreases s.len(),
{
    if s.len() > 0 && white_space(s[0]) {
        trim_start(s.skip(1))
    } else {
        s
    }
}

/// `s` without its trailing white space.
pub open spec fn trim_end(s: Seq<char>) -> Seq<char>
    decreases s.len(),
{
    if s.len() > 0 && white_space(s.last()) {
        trim_end(s.drop_last())
    } else {
        s
    }
}

/// `s` without white space at either end.
pub open spec fn trim(s: Seq<char>) -> Seq<char> {
    trim_end(trim_start(s))
}

/// `pattern` stands in `s` at position `i`.
pub open spec fn occurs_at<T>(s: Seq<T>, pattern: Seq<T>, i: int) -> bool {
    0 <= i && i + pattern.len() <= s.len() && s.subrange(i, i + pattern.len()) == pattern
}

/// `pattern` stands somewhere in `s`.
pub open spec fn contains<T>(s: Seq<T>, pattern: Seq<T>) -> bool {
    exists|i: int| occurs_at(s, pattern, i)
}

/// The first position, from `i` on, at which `pattern` stands in `s`.
pub open spec fn find_from<T>(s: Seq<T>, pattern: Seq<T>, i: int) -> Option<int>
    decreases s.len() + 1 - i,
{
    if i + pattern.len() > s.len() {
        None
    } else if occurs_at(s, pattern, i) {
        Some(i)
    } else {
        find_from(s, pattern, i + 1)
    }
}

/// The first position at which `pattern` stands in `s`.
pub open spec fn find<T>(s: Seq<T>, pattern: Seq<T>) -> Option<int> {
    find_from(s, pattern, 0)
}

/// `s` begins with `prefix`.
pub open spec fn starts_with(s: Seq<char>, prefix: Seq<char>) -> bool {
    prefix.len() <= s.len() && s.take(prefix.len() as int) == prefix
}

/// `s` ends with `suffix`.
pub open spec fn ends_with(s: Seq<char>, suffix: Seq<char>) -> bool {
    suffix.len() <= s.len() && s.skip(s.len() - suffix.len()) == suffix
}

/// `s` without `prefix`, where it begins with it.
pub open spec fn without_prefix(s: Seq<char>, prefix: Seq<char>) -> Seq<char> {
    if starts_with(s, prefix) {
        s.skip(prefix.len() as int)
    } else {
        s
    }
}

/// `s` without `suffix`, where it ends with it.
pub open spec fn without_suffix(s: Seq<char>, suffix: Seq<char>) -> Seq<char> {
    if ends_with(s, suffix) {
        s.take(s.len() - suffix.len())
    } else {
        s
    }
}

/// The ASCII lower-case form of a character; other characters stay.
pub open spec fn lower_char(c: char) -> char {
    if 'A' <= c <= 'Z' {
        ((c as u8) + 32) as char
    } else {
        c
    }
}

/// `s` with its ASCII upper-case letters lowered.
pub open spec fn lower(s: Seq<char>) -> Seq<char> {
    s.map_values(|c: char| lower_char(c))
}

/// The position of the first line feed of `s`, or its length.
pub open spec fn line_end(s: Seq<char>) -> int
    decreases s.len(),
{
    if s.len() == 0 || s[0] == '\n' {
        0
    } else {
        1 + line_end(s.skip(1))
    }
}

/// The lines of `s`. A line ends with a line feed or with a carriage return
/// and a line feed, neither of which belongs to it. The last line needs no end.
pub open spec fn lines(s: Seq<char>) -> Seq<Seq<char>>
    decreases s.len(),
    via lines_decreases
{
    if s.len() == 0 {
        Seq::empty()
    } else if line_end(s) >= s.len() {
        seq![s]
    } else {
        seq![without_suffix(s.take(line_end(s)), seq!['\r'])] + lines(s.skip(line_end(s) + 1))
    }
}

#[via_fn]
proof fn lines_decreases(s: Seq<char>) {
    lemma_line_end(s);
}

/// The words of `s`: its longest runs without white space.
pub open spec fn words(s: Seq<char>) -> Seq<Seq<char>>
    decreases s.len(),
    via words_decreases
{
    let t = trim_start(s);
    if t.len() == 0 {
        Seq::empty()
    } else {
        seq![t.take(word_end(t))] + words(t.skip(word_end(t)))
    }
}

/// The position of the first white space of `s`, or its length.
pub open spec fn word_end(s: Seq<char>) -> int
    decreases s.len(),
{
    if s.len() == 0 || white_space(s[0]) {
        0
    } else {
        1 + word_end(s.skip(1))
    }
}

#[via_fn]
proof fn words_decreases(s: Seq<char>) {
    lemma_trim_start(s);
    lemma_word_end(trim_start(s));
}

pub(crate) proof fn lemma_line_end(s: Seq<char>)
    ensures
        0 <= line_end(s) <= s.len(),
        line_end(s) < s.len() ==> s[line_end(s)] == '\n',
        forall|i: int| 0 <= i < line_end(s) ==> s[i] != '\n',
    decreases s.len(),
{
    if s.len() > 0 && s[0] != '\n' {
        let t = s.skip(1);
        lemma_line_end(t);
        assert forall|i: int| 0 <= i < line_end(s) implies s[i] != '\n' by {
            if i > 0 {
                assert(s[i] == t[i - 1]);
            }
        }
    }
}

pub(crate) proof fn lemma_word_end(s: Seq<char>)
    ensures
        0 <= word_end(s) <= s.len(),
        word_end(s) < s.len() ==> white_space(s[word_end(s)]),
        forall|i: int| 0 <= i < word_end(s) ==> !white_space(s[i]),
    decreases s.len(),
{
    if s.len() > 0 && !white_space(s[0]) {
        let t = s.skip(1);
        lemma_word_end(t);
        assert forall|i: int| 0 <= i < word_end(s) implies !white_space(s[i]) by {
            if i > 0 {
                assert(s[i] == t[i - 1]);
            }
        }
    }
}

/// A position with no line feed before it and none after it but its own is
/// where the line ends.
pub(crate) proof fn lemma_line_end_is(s: Seq<char>, n: int)
    requires
        0 <= n <= s.len(),
        n < s.len() ==> s[n] == '\n',
        forall|i: int| 0 <= i < n ==> s[i] != '\n',
    ensures
        line_end(s) == n,
{
    lemma_line_end(s);
    if line_end(s) < n {
        assert(s[line_end(s)] != '\n');
    }
}

/// A position with no white space before it, and white space or the end at
/// it, is where the word ends.
pub(crate) proof fn lemma_word_end_is(s: Seq<char>, n: int)
    requires
        0 <= n <= s.len(),
        n < s.len() ==> white_space(s[n]),
        forall|i: int| 0 <= i < n ==> !white_space(s[i]),
    ensures
        word_end(s) == n,
{
    lemma_word_end(s);
    if word_end(s) < n {
        assert(!white_space(s[word_end(s)]));
    }
}

pub(crate) proof fn lemma_trim_start(s: Seq<char>)
    ensures
        trim_start(s).len() <= s.len(),
        trim_start(s) == s.skip(s.len() - trim_start(s).len()),
        trim_start(s).len() > 0 ==> !white_space(trim_start(s)[0]),
        trim_start(s).len() == 0 <==> blank(s),
    decreases s.len(),
{
    if s.len() > 0 && white_space(s[0]) {
        let t = s.skip(1);
        lemma_trim_start(t);
        assert(trim_start(s) =~= s.skip(s.len() - trim_start(s).len()));
        if blank(t) {
            assert forall|i: int| 0 <= i < s.len() implies white_space(#[trigger] s[i]) by {
                if i > 0 {
                    assert(white_space(t[i - 1]));
                }
            }
        }
        if blank(s) {
            assert forall|i: int| 0 <= i < t.len() implies white_space(#[trigger] t[i]) by {
                assert(white_space(s[i + 1]));
            }
        }
    } else {
        assert(s =~= s.skip(0));
        if s.len() > 0 && blank(s) {
            assert(white_space(s[0]));
        }
    }
}

/// The characters up to a position are white space and the one at it is not:
/// trimming starts there.
pub(crate) proof fn lemma_trim_start_is(s: Seq<char>, n: int)
    requires
        0 <= n <= s.len(),
        forall|i: int| 0 <= i < n ==> white_space(s[i]),
        n < s.len() ==> !white_space(s[n]),
    ensures
        trim_start(s) == s.skip(n),
    decreases s.len(),
{
    if n == 0 {
        assert(s =~= s.skip(0));
    } else {
        let t = s.skip(1);
        assert forall|i: int| 0 <= i < n - 1 implies white_space(t[i]) by {
            assert(white_space(s[i + 1]));
        }
        lemma_trim_start_is(t, n - 1);
        assert(t.skip(n - 1) =~= s.skip(n));
    }
}

pub(crate) proof fn lemma_trim_end_is(s: Seq<char>, n: int)
    requires
        0 <= n <= s.len(),
        forall|i: int| n <= i < s.len() ==> white_space(s[i]),
        n > 0 ==> !white_space(s[n - 1]),
    ensures
        trim_end(s) == s.take(n),
    decreases s.len(),
{
    if n == s.len() {
        assert(s =~= s.take(n));
    } else {
        let t = s.drop_last();
        lemma_trim_end_is(t, n);
        assert(t.take(n) =~= s.take(n));
    }
}

pub(crate) proof fn lemma_find_from<T>(s: Seq<T>, pattern: Seq<T>, i: int)
    requires
        0 <= i,
    ensures
        match find_from(s, pattern, i) {
            Some(k) => {
                &&& i <= k
                &&& occurs_at(s, pattern, k)
                &&& forall|j: int| i <= j < k ==> !occurs_at(s, pattern, j)
            },
            None => forall|j: int| i <= j ==> !occurs_at(s, pattern, j),
        },
    decreases s.len() + 1 - i,
{
    if i + pattern.len() <= s.len() && !occurs_at(s, pattern, i) {
        lemma_find_from(s, pattern, i + 1);
    }
}

/// The first of the positions at which a pattern stands is what `find` gives.
pub(crate) proof fn lemma_find_is<T>(s: Seq<T>, pattern: Seq<T>, k: int)
    requires
        occurs_at(s, pattern, k),
        forall|j: int| 0 <= j < k ==> !occurs_at(s, pattern, j),
    ensures
        find(s, pattern) == Some(k),
{
    lemma_find_from(s, pattern, 0);
}

pub(crate) proof fn lemma_find_none<T>(s: Seq<T>, pattern: Seq<T>)
    ensures
        find(s, pattern) is None <==> !contains(s, pattern),
{
    lemma_find_from(s, pattern, 0);
}

/// Whether `c` has the `White_Space` property.
pub fn is_white_space(c: char) -> (r: bool)
    ensures
        r == white_space(c),
{
    let n: u32 = c as u32;
    (0x9 <= n && n <= 0xd) || n == 0x20 || n == 0x85 || n == 0xa0 || n == 0x1680 || (0x2000 <= n
        && n <= 0x200a) || n == 0x2028 || n == 0x2029 || n == 0x202f || n == 0x205f || n == 0x3000
}

/// The characters of a string.
pub fn chars_of(s: &str) -> (r: Vec<char>)
    ensures
        r@ == s@,
{
    let mut out: Vec<char> = Vec::new();
    for c in it: s.chars()
        invariant
            it.seq() == s@,
            out@ == s@.take(it.index()),
    {
        out.push(c);
        assert(out@ =~= s@.take(it.index() + 1));
    }
    assert(out@ =~= s@);
    out
}

/// The string of some characters.
pub fn string_of(chars: &[char]) -> (r: String)
    ensures
        r@ == chars@,
{
    let mut out = String::new();
    let mut i: usize = 0;
    while i < chars.len()
        invariant
            i <= chars.len(),
            out@ == chars@.take(i as int),
        decreases chars.len() - i,
    {
        out.push(chars[i]);
        i += 1;
        assert(out@ =~= chars@.take(i as int));
    }
    assert(out@ =~= chars@);
    out
}

/// Whether two strings hold the same characters.
pub fn same(a: &str, b: &str) -> (r: bool)
    ensures
        r == (a@ == b@),
{
    a.to_owned() == b.to_owned()
}

/// The characters of `s` from `from` up to `to`.
pub fn slice_of(s: &[char], from: usize, to: usize) -> (r: Vec<char>)
    requires
        from <= to <= s@.len(),
    ensures
        r@ == s@.subrange(from as int, to as int),
{
    let mut out: Vec<char> = Vec::new();
    let mut i: usize = from;
    while i < to
        invariant
            from <= i <= to <= s@.len(),
            out@ == s@.subrange(from as int, i as int),
        decreases to - i,
    {
        out.push(s[i]);
        i += 1;
        assert(out@ =~= s@.subrange(from as int, i as int));
    }
    out
}

/// `s` without white space at either end.
pub fn trimmed(s: &[char]) -> (r: Vec<char>)
    ensures
        r@ == trim(s@),
{
    let mut from: usize = 0;
    while from < s.len() && is_white_space(s[from])
        invariant
            from <= s@.len(),
            forall|i: int| 0 <= i < from ==> white_space(s@[i]),
        decreases s@.len() - from,
    {
        from += 1;
    }
    let mut to: usize = s.len();
    while from < to && is_white_space(s[to - 1])
        invariant
            from <= to <= s@.len(),
            forall|i: int| to <= i < s@.len() ==> white_space(s@[i]),
        decreases to,
    {
        to -= 1;
    }
    proof {
        lemma_trim_start_is(s@, from as int);
        let t = s@.skip(from as int);
        lemma_trim_end_is(t, to - from);
        assert(t.take(to - from) =~= s@.subrange(from as int, to as int));
    }
    slice_of(s, from, to)
}

/// `s` without white space at either end.
pub fn trimmed_string(s: &str) -> (r: String)
    ensures
        r@ == trim(s@),
{
    string_of(&trimmed(&chars_of(s)))
}

/// Whether `pattern` stands in `s` at position `i`.
pub fn stands_at(s: &[char], pattern: &[char], i: usize) -> (r: bool)
    ensures
        r == occurs_at(s@, pattern@, i as int),
{
    if pattern.len() > s.len() || i > s.len() - pattern.len() {
        return false;
    }
    let mut k: usize = 0;
    let n: usize = s.len();
    while k < pattern.len()
        invariant
            k <= pattern@.len(),
            i + pattern@.len() <= s@.len(),
            n == s@.len(),
            forall|j: int| 0 <= j < k ==> s@[i + j] == pattern@[j],
        decreases pattern@.len() - k,
    {
        if s[i + k] != pattern[k] {
            assert(s@.subrange(i as int, i + pattern@.len())[k as int] == s@[i + k]);
            return false;
        }
        k += 1;
    }
    assert(s@.subrange(i as int, i + pattern@.len()) =~= pattern@);
    true
}

/// The first position, from `from` on, at which `pattern` stands in `s`.
pub fn position_from(s: &[char], pattern: &[char], from: usize) -> (r: Option<usize>)
    ensures
        match r {
            Some(k) => find_from(s@, pattern@, from as int) == Some(k as int),
            None => find_from(s@, pattern@, from as int) is None,
        },
{
    let mut i: usize = from;
    while pattern.len() <= s.len() && i <= s.len() - pattern.len()
        invariant
            from <= i,
            find_from(s@, pattern@, from as int) == find_from(s@, pattern@, i as int),
        decreases s@.len() + 1 - i,
    {
        if stands_at(s, pattern, i) {
            return Some(i);
        }
        if i == s.len() - pattern.len() {
            assert(find_from(s@, pattern@, i + 1) is None);
            return None;
        }
        i += 1;
    }
    None
}

/// Whether `s` begins with `prefix`.
pub fn begins_with(s: &[char], prefix: &[char]) -> (r: bool)
    ensures
        r == starts_with(s@, prefix@),
{
    let r = stands_at(s, prefix, 0);
    proof {
        if prefix@.len() <= s@.len() {
            assert(s@.subrange(0, prefix@.len() as int) =~= s@.take(prefix@.len() as int));
        }
    }
    r
}

/// Whether `s` ends with `suffix`.
pub fn finishes_with(s: &[char], suffix: &[char]) -> (r: bool)
    ensures
        r == ends_with(s@, suffix@),
{
    if suffix.len() > s.len() {
        return false;
    }
    let at: usize = s.len() - suffix.len();
    let r = stands_at(s, suffix, at);
    proof {
        assert(s@.subrange(at as int, at + suffix@.len()) =~= s@.skip(at as int));
    }
    r
}

/// `s` without `prefix`, where it begins with it.
pub fn strip_prefix(s: Vec<char>, prefix: &str) -> (r: Vec<char>)
    ensures
        r@ == without_prefix(s@, prefix@),
{
    let prefix = chars_of(prefix);
    if begins_with(&s, &prefix) {
        assert(s@.subrange(prefix@.len() as int, s@.len() as int) =~= s@.skip(prefix@.len() as int));
        slice_of(&s, prefix.len(), s.len())
    } else {
        s
    }
}

/// `s` without `suffix`, where it ends with it.
pub fn strip_suffix(s: Vec<char>, suffix: &str) -> (r: Vec<char>)
    ensures
        r@ == without_suffix(s@, suffix@),
{
    let suffix = chars_of(suffix);
    if finishes_with(&s, &suffix) {
        assert(s@.subrange(0, s@.len() - suffix@.len()) =~= s@.take(s@.len() - suffix@.len()));
        slice_of(&s, 0, s.len() - suffix.len())
    } else {
        s
    }
}

/// `s` with its ASCII upper-case letters lowered.
pub fn lowered(s: &[char]) -> (r: Vec<char>)
    ensures
        r@ == lower(s@),
{
    let mut out: Vec<char> = Vec::new();
    let mut i: usize = 0;
    while i < s.len()
        invariant
            i <= s@.len(),
            out@ == lower(s@).take(i as int),
        decreases s@.len() - i,
    {
        let c: char = s[i];
        if 'A' <= c && c <= 'Z' {
            out.push((c as u8 + 32) as char);
        } else {
            out.push(c);
        }
        i += 1;
        assert(out@ =~= lower(s@).take(i as int));
    }
    assert(out@ =~= lower(s@));
    out
}

/// The lines of `s`.
pub fn split_lines(s: &[char]) -> (r: Vec<Vec<char>>)
    ensures
        r@.len() == lines(s@).len(),
        forall|i: int| 0 <= i < r@.len() ==> (#[trigger] r@[i])@ == lines(s@)[i],
{
    let mut out: Vec<Vec<char>> = Vec::new();
    let mut from: usize = 0;
    assert(s@.skip(0) =~= s@);
    while from < s.len()
        invariant
            from <= s@.len(),
            lines(s@) == lines(s@).take(out@.len() as int) + lines(s@.skip(from as int)),
            out@.len() + lines(s@.skip(from as int)).len() == lines(s@).len(),
            forall|i: int| 0 <= i < out@.len() ==> (#[trigger] out@[i])@ == lines(s@)[i],
        decreases s@.len() - from,
    {
        let ghost rest = s@.skip(from as int);
        let ghost whole = lines(s@);
        let mut to: usize = from;
        while to < s.len() && s[to] != '\n'
            invariant
                from <= to <= s@.len(),
                forall|i: int| from <= i < to ==> s@[i] != '\n',
            decreases s@.len() - to,
        {
            to += 1;
        }
        proof {
            assert forall|i: int| 0 <= i < to - from implies rest[i] != '\n' by {
                assert(rest[i] == s@[from + i]);
            }
            lemma_line_end_is(rest, to - from);
        }
        let ghost n = out@.len() as int;
        if to == s.len() {
            let line = slice_of(s, from, to);
            assert(line@ =~= rest);
            assert(lines(rest) == seq![rest]);
            assert(whole[n] == lines(rest)[0]);
            out.push(line);
            from = to;
            assert(lines(s@.skip(from as int)) =~= Seq::empty());
            assert(whole =~= whole.take(n + 1) + lines(s@.skip(from as int)));
        } else {
            let end: usize = if to > from && s[to - 1] == '\r' {
                to - 1
            } else {
                to
            };
            let line = slice_of(s, from, end);
            proof {
                let l = rest.take(to - from);
                assert(l.len() > 0 ==> l.last() == s@[to - 1]);
                if l.len() > 0 {
                    assert(l.skip(l.len() - 1) =~= seq![l.last()]);
                }
                assert(ends_with(l, seq!['\r']) <==> end != to) by {
                    if l.len() > 0 && l.skip(l.len() - 1) == seq!['\r'] {
                        assert(seq!['\r'][0] == l.skip(l.len() - 1)[0]);
                    }
                }
                assert(line@ =~= without_suffix(l, seq!['\r']));
                assert(rest.skip(to - from + 1) =~= s@.skip(to + 1));
                assert(lines(rest) == seq![line@] + lines(s@.skip(to + 1)));
                assert(whole[n] == lines(rest)[0]);
            }
            out.push(line);
            from = to + 1;
            assert(whole =~= whole.take(n + 1) + lines(s@.skip(from as int)));
        }
    }
    assert(s@.skip(from as int) =~= Seq::empty());
    out
}

/// The words of `s`.
pub fn split_words(s: &[char]) -> (r: Vec<Vec<char>>)
    ensures
        r@.len() == words(s@).len(),
        forall|i: int| 0 <= i < r@.len() ==> (#[trigger] r@[i])@ == words(s@)[i],
{
    let mut out: Vec<Vec<char>> = Vec::new();
    let mut from: usize = 0;
    assert(s@.skip(0) =~= s@);
    loop
        invariant
            from <= s@.len(),
            words(s@) == words(s@).take(out@.len() as int) + words(s@.skip(from as int)),
            out@.len() + words(s@.skip(from as int)).len() == words(s@).len(),
            forall|i: int| 0 <= i < out@.len() ==> (#[trigger] out@[i])@ == words(s@)[i],
        decreases s@.len() - from,
    {
        let ghost rest = s@.skip(from as int);
        let ghost whole = words(s@);
        let mut start: usize = from;
        while start < s.len() && is_white_space(s[start])
            invariant
                from <= start <= s@.len(),
                forall|i: int| from <= i < start ==> white_space(s@[i]),
            decreases s@.len() - start,
        {
            start += 1;
        }
        let ghost t = s@.skip(start as int);
        proof {
            assert forall|i: int| 0 <= i < start - from implies white_space(rest[i]) by {
                assert(rest[i] == s@[from + i]);
            }
            lemma_trim_start_is(rest, start - from);
            assert(rest.skip(start - from) =~= t);
        }
        if start == s.len() {
            return out;
        }
        let mut to: usize = start;
        while to < s.len() && !is_white_space(s[to])
            invariant
                start <= to <= s@.len(),
                forall|i: int| start <= i < to ==> !white_space(s@[i]),
                start < s@.len(),
                to == start ==> !white_space(s@[start as int]),
            decreases s@.len() - to,
        {
            to += 1;
        }
        let word = slice_of(s, start, to);
        let ghost n = out@.len() as int;
        proof {
            assert forall|i: int| 0 <= i < to - start implies !white_space(t[i]) by {
                assert(t[i] == s@[start + i]);
            }
            lemma_word_end_is(t, to - start);
            assert(word@ =~= t.take(to - start));
            assert(t.skip(to - start) =~= s@.skip(to as int));
            assert(words(rest) == seq![word@] + words(s@.skip(to as int)));
            assert(whole[n] == words(rest)[0]);
        }
        out.push(word);
        from = to;
        assert(whole =~= whole.take(n + 1) + words(s@.skip(from as int)));
    }
}

// ---- Laws ----

/// Trimming takes white space from either end and nothing else: the text is
/// what is left with white space around it, and what is left has none at its
/// ends.
pub proof fn trimming_takes_white_space_only(s: Seq<char>)
    ensures
        exists|lead: Seq<char>, trail: Seq<char>|
            {
                &&& s == #[trigger] (lead + trim(s) + trail)
                &&& forall|i: int| 0 <= i < lead.len() ==> white_space(#[trigger] lead[i])
                &&& forall|i: int| 0 <= i < trail.len() ==> white_space(#[trigger] trail[i])
            },
        trim(s).len() > 0 ==> !white_space(trim(s)[0]) && !white_space(trim(s).last()),
{
    let t = trim_start(s);
    let lead = s.take(s.len() - t.len());
    let trail = t.skip(trim(s).len() as int);
    lemma_trim_start(s);
    lemma_leading(s);
    lemma_trailing(t);
    assert(s =~= lead + trim(s) + trail);
}

proof fn lemma_leading(s: Seq<char>)
    ensures
        forall|i: int| 0 <= i < s.len() - trim_start(s).len() ==> white_space(#[trigger] s[i]),
    decreases s.len(),
{
    if s.len() > 0 && white_space(s[0]) {
        let t = s.skip(1);
        lemma_leading(t);
        assert forall|i: int| 0 <= i < s.len() - trim_start(s).len() implies white_space(
            #[trigger] s[i],
        ) by {
            if i > 0 {
                assert(white_space(t[i - 1]));
            }
        }
    }
}

proof fn lemma_trailing(s: Seq<char>)
    ensures
        trim_end(s).len() <= s.len(),
        trim_end(s) == s.take(trim_end(s).len() as int),
        forall|i: int| trim_end(s).len() <= i < s.len() ==> white_space(#[trigger] s[i]),
        trim_end(s).len() > 0 ==> !white_space(trim_end(s).last()),
    decreases s.len(),
{
    if s.len() > 0 && white_space(s.last()) {
        let t = s.drop_last();
        lemma_trailing(t);
        assert(trim_end(s) =~= s.take(trim_end(s).len() as int));
        assert forall|i: int| trim_end(s).len() <= i < s.len() implies white_space(
            #[trigger] s[i],
        ) by {
            if i < s.len() - 1 {
                assert(white_space(t[i]));
            }
        }
    } else {
        assert(s =~= s.take(s.len() as int));
    }
}

/// White space around a text makes no difference to what trimming leaves.
pub proof fn trimming_ignores_what_it_takes(lead: Seq<char>, s: Seq<char>, trail: Seq<char>)
    requires
        forall|i: int| 0 <= i < lead.len() ==> white_space(#[trigger] lead[i]),
        forall|i: int| 0 <= i < trail.len() ==> white_space(#[trigger] trail[i]),
        s.len() > 0 ==> !white_space(s[0]) && !white_space(s.last()),
    ensures
        trim(lead + s + trail) == s,
{
    let whole = lead + s + trail;
    if s.len() > 0 {
        lemma_trim_start_is(whole, lead.len() as int);
        let rest = whole.skip(lead.len() as int);
        assert(rest =~= s + trail);
        lemma_trim_end_is(rest, s.len() as int);
        assert(rest.take(s.len() as int) =~= s);
    } else {
        lemma_trim_start_is(whole, whole.len() as int);
        assert(trim(whole) =~= s);
    }
}

/// A pattern stands in a text where its characters do, one after the other.
pub proof fn a_pattern_stands_where_its_characters_do<T>(s: Seq<T>, pattern: Seq<T>, i: int)
    ensures
        occurs_at(s, pattern, i) <==> {
            &&& 0 <= i
            &&& i + pattern.len() <= s.len()
            &&& forall|k: int| 0 <= k < pattern.len() ==> s[i + k] == #[trigger] pattern[k]
        },
        occurs_at(s, pattern, i) ==> contains(s, pattern),
{
    if 0 <= i && i + pattern.len() <= s.len() {
        let part = s.subrange(i, i + pattern.len());
        if forall|k: int| 0 <= k < pattern.len() ==> s[i + k] == #[trigger] pattern[k] {
            assert(part =~= pattern);
        }
        if part == pattern {
            assert forall|k: int| 0 <= k < pattern.len() implies s[i + k] == #[trigger] pattern[k] by {
                assert(part[k] == s[i + k]);
            }
        }
    }
}

/// A pattern is found at the first place where it stands, and missed only
/// where it stands nowhere.
pub proof fn the_first_place_is_found<T>(s: Seq<T>, pattern: Seq<T>)
    ensures
        match find(s, pattern) {
            Some(k) => {
                &&& 0 <= k
                &&& k + pattern.len() <= s.len()
                &&& s.subrange(k, k + pattern.len()) == pattern
                &&& forall|j: int|
                    0 <= j < k ==> #[trigger] s.subrange(j, j + pattern.len()) != pattern
            },
            None => forall|j: int|
                0 <= j && j + pattern.len() <= s.len() ==> #[trigger] s.subrange(
                    j,
                    j + pattern.len(),
                ) != pattern,
        },
{
    lemma_find_from(s, pattern, 0);
    match find(s, pattern) {
        Some(k) => {
            assert forall|j: int| 0 <= j < k implies #[trigger] s.subrange(j, j + pattern.len())
                != pattern by {
                assert(!occurs_at(s, pattern, j));
            }
        },
        None => {
            assert forall|j: int| 0 <= j && j + pattern.len() <= s.len() implies #[trigger] s.subrange(
                j,
                j + pattern.len(),
            ) != pattern by {
                assert(!occurs_at(s, pattern, j));
            }
        },
    }
}

/// A prefix is what a text begins with and a suffix what it ends with; taking
/// one off leaves the rest, and a text without it stays.
pub proof fn affixes_come_off(s: Seq<char>, affix: Seq<char>)
    ensures
        starts_with(affix + s, affix),
        without_prefix(affix + s, affix) == s,
        starts_with(s, affix) ==> s == affix + without_prefix(s, affix),
        !starts_with(s, affix) ==> without_prefix(s, affix) == s,
        starts_with(s, affix) <==> {
            &&& affix.len() <= s.len()
            &&& forall|i: int| 0 <= i < affix.len() ==> s[i] == #[trigger] affix[i]
        },
        ends_with(s + affix, affix),
        without_suffix(s + affix, affix) == s,
        ends_with(s, affix) ==> s == without_suffix(s, affix) + affix,
        !ends_with(s, affix) ==> without_suffix(s, affix) == s,
        ends_with(s, affix) <==> {
            &&& affix.len() <= s.len()
            &&& forall|i: int|
                0 <= i < affix.len() ==> s[s.len() - affix.len() + i] == #[trigger] affix[i]
        },
{
    let n = affix.len() as int;
    let m = s.len() - n;
    assert((affix + s).take(n) =~= affix);
    assert((affix + s).skip(n) =~= s);
    assert((s + affix).skip(s.len() as int) =~= affix);
    assert((s + affix).take(s.len() as int) =~= s);
    if n <= s.len() {
        assert(s =~= s.take(n) + s.skip(n));
        assert(s =~= s.take(m) + s.skip(m));
        if forall|i: int| 0 <= i < n ==> s[i] == #[trigger] affix[i] {
            assert(s.take(n) =~= affix);
        }
        if s.take(n) == affix {
            assert forall|i: int| 0 <= i < n implies s[i] == #[trigger] affix[i] by {
                assert(s.take(n)[i] == s[i]);
            }
        }
        if forall|i: int| 0 <= i < n ==> s[m + i] == #[trigger] affix[i] {
            assert(s.skip(m) =~= affix);
        }
        if s.skip(m) == affix {
            assert forall|i: int| 0 <= i < n implies s[m + i] == #[trigger] affix[i] by {
                assert(s.skip(m)[i] == s[m + i]);
            }
        }
    }
}

/// Lowering changes the letters from `A` to `Z`, each into the letter that
/// stands 32 places later, and no other character.
pub proof fn lowering_changes_ascii_capitals_only(s: Seq<char>, i: int)
    requires
        0 <= i < s.len(),
    ensures
        lower(s).len() == s.len(),
        65 <= s[i] as int <= 90 ==> lower(s)[i] as int == s[i] as int + 32,
        !(65 <= s[i] as int <= 90) ==> lower(s)[i] == s[i],
{
}

/// A line feed ends a line: a text is its first line, without a carriage return
/// before the line feed, and then the lines of what follows. A text without a
/// line feed is one line, or none where it is empty.
pub proof fn a_line_feed_ends_a_line(line: Seq<char>, rest: Seq<char>)
    requires
        forall|i: int| 0 <= i < line.len() ==> #[trigger] line[i] != '\n',
    ensures
        lines(line + seq!['\n'] + rest) == seq![
            if line.len() > 0 && line.last() == '\r' {
                line.drop_last()
            } else {
                line
            },
        ] + lines(rest),
        line.len() > 0 ==> lines(line) == seq![line],
        lines(Seq::<char>::empty()) == Seq::<Seq<char>>::empty(),
{
    let whole = line + seq!['\n'] + rest;
    let n = line.len() as int;
    assert forall|i: int| 0 <= i < n implies whole[i] != '\n' by {
        assert(whole[i] == line[i]);
    }
    lemma_line_end_is(whole, n);
    lemma_line_end_is(line, n);
    assert(whole.take(n) =~= line);
    assert(whole.skip(n + 1) =~= rest);
    if n > 0 {
        assert(line.skip(n - 1) =~= seq![line.last()]);
        assert(line.take(n - 1) =~= line.drop_last());
        if ends_with(line, seq!['\r']) {
            assert(line.skip(n - 1)[0] == '\r');
        }
    }
}

/// White space separates words: the words of two texts with white space between
/// them are those of the one and those of the other. A run without white space
/// is one word, and an empty text has none.
pub proof fn white_space_separates_words(a: Seq<char>, space: char, b: Seq<char>)
    requires
        white_space(space),
    ensures
        words(a + seq![space] + b) == words(a) + words(b),
        a.len() > 0 && (forall|i: int| 0 <= i < a.len() ==> !white_space(#[trigger] a[i]))
            ==> words(a) == seq![a],
        words(Seq::<char>::empty()) == Seq::<Seq<char>>::empty(),
    decreases a.len(),
{
    let whole = a + seq![space] + b;
    lemma_trim_start(a);
    if a.len() > 0 && white_space(a[0]) {
        let t = a.skip(1);
        white_space_separates_words(t, space, b);
        assert(whole.skip(1) =~= t + seq![space] + b);
        assert(whole[0] == a[0]);
        assert(trim_start(whole) == trim_start(t + seq![space] + b));
        assert(trim_start(a) == trim_start(t));
        assert(words(whole) == words(t + seq![space] + b)) by {
            lemma_words_of_trimmed(whole);
            lemma_words_of_trimmed(t + seq![space] + b);
        }
        assert(words(a) == words(t)) by {
            lemma_words_of_trimmed(a);
            lemma_words_of_trimmed(t);
        }
    } else if a.len() == 0 {
        assert(whole.skip(1) =~= b);
        assert(whole[0] == space);
        assert(trim_start(whole) == trim_start(b));
        lemma_words_of_trimmed(whole);
        lemma_words_of_trimmed(b);
        assert(trim_start(a).len() == 0);
        assert(words(a) + words(b) =~= words(b));
    } else {
        let n = word_end(a);
        lemma_word_end(a);
        assert(n > 0) by {
            if n == 0 {
                assert(white_space(a[0]));
            }
        }
        assert forall|i: int| 0 <= i < n implies !white_space(whole[i]) by {
            assert(whole[i] == a[i]);
        }
        lemma_word_end_is(whole, n);
        let t = a.skip(n);
        white_space_separates_words(t, space, b);
        assert(whole.take(n) =~= a.take(n));
        assert(whole.skip(n) =~= t + seq![space] + b);
        assert(trim_start(whole) == whole && trim_start(a) == a);
        assert(words(whole) =~= words(a) + words(b));
        if forall|i: int| 0 <= i < a.len() ==> !white_space(#[trigger] a[i]) {
            lemma_word_end_is(a, a.len() as int);
            assert(a.take(n) =~= a);
            assert(t.len() == 0);
            assert(trim_start(t).len() == 0);
            assert(words(a) =~= seq![a]);
        }
    }
}

proof fn lemma_words_of_trimmed(s: Seq<char>)
    ensures
        words(s) == words(trim_start(s)),
{
    lemma_trim_start(s);
    assert(trim_start(trim_start(s)) == trim_start(s));
}

/// The views of some strings are theirs, one for each and in their order.
pub proof fn strings_are_viewed_in_order(strings: Seq<String>, i: int, s: Option<String>)
    ensures
        views(strings).len() == strings.len(),
        0 <= i < strings.len() ==> views(strings)[i] == strings[i]@,
        s matches Some(text) ==> maybe(s) == Some(text@),
        s is None ==> maybe(s) is None,
{
}

} // verus!
