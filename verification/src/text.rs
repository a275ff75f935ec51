//! Strings as sequences of characters: white space, words, prefixes, order, decimal numbers.

use vstd::prelude::*;

verus! {

// ---------------------------------------------------------------------------
// Taken from the standard library
// ---------------------------------------------------------------------------

/// `String::push` appends one character.
pub assume_specification[ String::push ](s: &mut String, c: char)
    ensures
        final(s)@ == old(s)@.push(c),
;

/// What `str::to_lowercase` makes of a string.
pub uninterp spec fn lowercase(s: Seq<char>) -> Seq<char>;

/// `str::to_lowercase`: the Unicode lower case of a string, which depends on the string alone.
/// On a string of ASCII characters it maps `A`..`Z` to `a`..`z` and keeps every other character.
#[verifier::external_body]
pub(crate) fn to_lowercase(s: &str) -> (out: String)
    ensures
        out@ == lowercase(s@),
        is_ascii_text(s@) ==> out@ == ascii_lowercase(s@),
{
    s.to_lowercase()
}

// ---------------------------------------------------------------------------
// Characters
// ---------------------------------------------------------------------------

pub open spec fn is_ascii_text(s: Seq<char>) -> bool {
    forall|i: int| 0 <= i < s.len() ==> #[trigger] s[i] <= '\u{7f}'
}

pub open spec fn ascii_lower(c: char) -> char {
    if 'A' <= c <= 'Z' {
        (c as u32 + 32) as char
    } else {
        c
    }
}

pub open spec fn ascii_lowercase(s: Seq<char>) -> Seq<char> {
    s.map_values(|c: char| ascii_lower(c))
}

/// The lower case of `s`, if `s` is ASCII text, is its ASCII lower case.
pub open spec fn lowers_ascii(s: Seq<char>) -> bool {
    is_ascii_text(s) ==> lowercase(s) == ascii_lowercase(s)
}

/// The characters with Unicode's `White_Space` property.
pub open spec fn is_space(c: char) -> bool {
    let n = c as u32;
    ||| 0x9 <= n <= 0xd
    ||| n == 0x20 || n == 0x85 || n == 0xa0 || n == 0x1680
    ||| 0x2000 <= n <= 0x200a
    ||| n == 0x2028 || n == 0x2029 || n == 0x202f || n == 0x205f || n == 0x3000
}

/// Whether `c` is white space.
pub fn is_white_space(c: char) -> (yes: bool)
    ensures
        yes == is_space(c),
{
    let n: u32 = c as u32;
    (0x9 <= n && n <= 0xd) || n == 0x20 || n == 0x85 || n == 0xa0 || n == 0x1680 || (0x2000 <= n
        && n <= 0x200a) || n == 0x2028 || n == 0x2029 || n == 0x202f || n == 0x205f || n == 0x3000
}

/// The code point of `c`, with `A`..`Z` read as `a`..`z`.
fn lower_code(c: char) -> (code: u32)
    ensures
        code == ascii_lower(c) as u32,
{
    let n: u32 = c as u32;
    if 'A' <= c && c <= 'Z' {
        n + 32
    } else {
        n
    }
}

/// The characters of `s`.
pub fn chars_of(s: &str) -> (chars: Vec<char>)
    ensures
        chars@ == s@,
{
    let mut chars: Vec<char> = Vec::new();
    for c in it: s.chars()
        invariant
            chars@ == s@.take(it.index()),
            it.seq() == s@,
    {
        chars.push(c);
    }
    chars
}

/// The string of the characters of `chars` from `from` up to `to`.
pub fn string_of(chars: &Vec<char>, from: usize, to: usize) -> (out: String)
    requires
        from <= to <= chars.len(),
    ensures
        out@ == chars@.subrange(from as int, to as int),
{
    let mut out = String::new();
    let mut i: usize = from;
    while i < to
        invariant
            from <= i <= to <= chars.len(),
            out@ == chars@.subrange(from as int, i as int),
        decreases to - i,
    {
        out.push(chars[i]);
        i += 1;
    }
    out
}

// ---------------------------------------------------------------------------
// Comparing
// ---------------------------------------------------------------------------

/// Whether two strings have the same characters.
pub fn same(a: &str, b: &str) -> (yes: bool)
    ensures
        yes == (a@ == b@),
{
    let x = chars_of(a);
    let y = chars_of(b);
    if x.len() != y.len() {
        return false;
    }
    let mut i: usize = 0;
    while i < x.len()
        invariant
            i <= x.len() == y.len(),
            x@.take(i as int) == y@.take(i as int),
            x@ == a@,
            y@ == b@,
        decreases x.len() - i,
    {
        if x[i] != y[i] {
            assert(a@[i as int] != b@[i as int]);
            return false;
        }
        assert(x@.take(i + 1) == x@.take(i as int).push(x@[i as int]));
        assert(y@.take(i + 1) == y@.take(i as int).push(y@[i as int]));
        i += 1;
    }
    assert(x@.take(i as int) == x@);
    assert(y@.take(i as int) == y@);
    true
}

/// Equal up to the case of ASCII letters.
pub open spec fn same_ignoring_case(a: Seq<char>, b: Seq<char>) -> bool {
    ascii_lowercase(a) == ascii_lowercase(b)
}

/// Whether two strings are equal up to the case of ASCII letters.
pub fn eq_ignore_ascii_case(a: &str, b: &str) -> (yes: bool)
    ensures
        yes == same_ignoring_case(a@, b@),
{
    let x = chars_of(a);
    let y = chars_of(b);
    let ghost lx = ascii_lowercase(a@);
    let ghost ly = ascii_lowercase(b@);
    if x.len() != y.len() {
        assert(lx.len() != ly.len());
        return false;
    }
    let mut i: usize = 0;
    while i < x.len()
        invariant
            i <= x.len() == y.len(),
            x@ == a@,
            y@ == b@,
            lx == ascii_lowercase(a@),
            ly == ascii_lowercase(b@),
            forall|j: int| 0 <= j < i ==> lx[j] == ly[j],
        decreases x.len() - i,
    {
        if lower_code(x[i]) != lower_code(y[i]) {
            assert(lx[i as int] != ly[i as int]);
            return false;
        }
        assert(lx[i as int] == ly[i as int]);
        i += 1;
    }
    assert(lx =~= ly);
    true
}

/// Whether `s` begins with `prefix`.
pub fn starts_with(s: &str, prefix: &str) -> (yes: bool)
    ensures
        yes == prefix@.is_prefix_of(s@),
{
    let x = chars_of(s);
    let p = chars_of(prefix);
    if p.len() > x.len() {
        return false;
    }
    let mut i: usize = 0;
    while i < p.len()
        invariant
            i <= p.len() <= x.len(),
            x@ == s@,
            p@ == prefix@,
            forall|j: int| 0 <= j < i ==> x@[j] == p@[j],
        decreases p.len() - i,
    {
        if x[i] != p[i] {
            assert(s@.subrange(0, prefix@.len() as int)[i as int] != prefix@[i as int]);
            return false;
        }
        i += 1;
    }
    assert(prefix@ =~= s@.subrange(0, prefix@.len() as int));
    true
}

/// `a` comes before `b`, or equals it, in the lexicographic order of code points.
pub open spec fn text_le(a: Seq<char>, b: Seq<char>) -> bool
    decreases a.len(),
{
    if a.len() == 0 {
        true
    } else if b.len() == 0 {
        false
    } else if a[0] == b[0] {
        text_le(a.drop_first(), b.drop_first())
    } else {
        a[0] < b[0]
    }
}

/// Whether `a` comes before `b`, or equals it, in the lexicographic order of code points.
pub fn not_after(a: &str, b: &str) -> (yes: bool)
    ensures
        yes == text_le(a@, b@),
{
    let x = chars_of(a);
    let y = chars_of(b);
    let mut i: usize = 0;
    assert(x@.skip(0) == x@);
    assert(y@.skip(0) == y@);
    while i < x.len() && i < y.len()
        invariant
            i <= x.len(),
            i <= y.len(),
            x@ == a@,
            y@ == b@,
            text_le(a@, b@) == text_le(x@.skip(i as int), y@.skip(i as int)),
        decreases x.len() - i,
    {
        if x[i] != y[i] {
            return x[i] < y[i];
        }
        assert(x@.skip(i as int).drop_first() == x@.skip(i + 1));
        assert(y@.skip(i as int).drop_first() == y@.skip(i + 1));
        i += 1;
    }
    i == x.len()
}

/// The order of code points is total.
pub proof fn lemma_text_le_total(a: Seq<char>, b: Seq<char>)
    ensures
        text_le(a, b) || text_le(b, a),
    decreases a.len(),
{
    if a.len() > 0 && b.len() > 0 && a[0] == b[0] {
        lemma_text_le_total(a.drop_first(), b.drop_first());
    }
}

/// The order of code points is transitive.
pub proof fn lemma_text_le_transitive(a: Seq<char>, b: Seq<char>, c: Seq<char>)
    requires
        text_le(a, b),
        text_le(b, c),
    ensures
        text_le(a, c),
    decreases a.len(),
{
    if a.len() > 0 && b.len() > 0 && c.len() > 0 && a[0] == b[0] && b[0] == c[0] {
        lemma_text_le_transitive(a.drop_first(), b.drop_first(), c.drop_first());
    }
}

// ---------------------------------------------------------------------------
// Cutting
// ---------------------------------------------------------------------------

/// `s` without the white space at its start.
pub open spec fn trim_start(s: Seq<char>) -> Seq<char>
    decreases s.len(),
{
    if s.len() > 0 && is_space(s[0]) {
        trim_start(s.drop_first())
    } else {
        s
    }
}

/// `s` without the white space at its end.
pub open spec fn trim_end(s: Seq<char>) -> Seq<char>
    decreases s.len(),
{
    if s.len() > 0 && is_space(s.last()) {
        trim_end(s.drop_last())
    } else {
        s
    }
}

/// `s` without the white space at either end.
pub open spec fn trimmed(s: Seq<char>) -> Seq<char> {
    trim_end(trim_start(s))
}

/// `s` without the white space at either end.
pub fn trim(s: &str) -> (out: String)
    ensures
        out@ == trimmed(s@),
{
    let chars = chars_of(s);
    let mut from: usize = 0;
    assert(chars@.skip(0) == chars@);
    while from < chars.len() && is_white_space(chars[from])
        invariant
            from <= chars.len(),
            trim_start(chars@) == trim_start(chars@.skip(from as int)),
        decreases chars.len() - from,
    {
        assert(chars@.skip(from as int).drop_first() == chars@.skip(from + 1));
        from += 1;
    }
    let mut to: usize = chars.len();
    assert(chars@.subrange(from as int, to as int) == chars@.skip(from as int));
    while to > from && is_white_space(chars[to - 1])
        invariant
            from <= to <= chars.len(),
            trim_end(chars@.subrange(from as int, to as int)) == trimmed(chars@),
        decreases to,
    {
        assert(chars@.subrange(from as int, to as int).drop_last() == chars@.subrange(
            from as int,
            to - 1,
        ));
        to -= 1;
    }
    string_of(&chars, from, to)
}

/// How trimming the end of a text goes through its first character.
pub proof fn lemma_trim_end_first(s: Seq<char>)
    requires
        s.len() > 0,
    ensures
        trim_end(s) == if trim_end(s.drop_first()).len() == 0 && is_space(s[0]) {
            Seq::empty()
        } else {
            seq![s[0]] + trim_end(s.drop_first())
        },
    decreases s.len(),
{
    if s.len() == 1 {
        assert(s.drop_first() =~= Seq::<char>::empty());
        if is_space(s[0]) {
            assert(s.drop_last() =~= Seq::<char>::empty());
        } else {
            assert(seq![s[0]] + trim_end(s.drop_first()) =~= s);
        }
    } else if is_space(s.last()) {
        assert(s.drop_first().drop_last() =~= s.drop_last().drop_first());
        lemma_trim_end_first(s.drop_last());
    } else {
        assert(seq![s[0]] + s.drop_first() =~= s);
    }
}

/// The two ends of a text can be trimmed in either order.
pub proof fn lemma_trim_commutes(s: Seq<char>)
    ensures
        trim_start(trim_end(s)) == trimmed(s),
    decreases s.len(),
{
    if s.len() > 0 {
        lemma_trim_end_first(s);
        let rest = s.drop_first();
        if is_space(s[0]) {
            lemma_trim_commutes(rest);
            let end = trim_end(s);
            if end.len() > 0 {
                assert(end.drop_first() =~= trim_end(rest));
            } else {
                assert(trim_start(trim_end(rest)) =~= Seq::<char>::empty());
            }
        }
    }
}

pub proof fn lemma_trim_end_twice(s: Seq<char>)
    ensures
        trim_end(trim_end(s)) == trim_end(s),
        trim_end(s).len() <= s.len(),
        trim_end(s).len() > 0 ==> !is_space(trim_end(s).last()),
    decreases s.len(),
{
    if s.len() > 0 && is_space(s.last()) {
        lemma_trim_end_twice(s.drop_last());
    }
}

/// White space at the end of a text does not count when it is trimmed.
pub proof fn lemma_trimmed_ignores_end(s: Seq<char>)
    ensures
        trimmed(trim_end(s)) == trimmed(s),
{
    lemma_trim_commutes(trim_end(s));
    lemma_trim_end_twice(s);
    lemma_trim_commutes(s);
}

/// Trimming the end of a text that goes on after `a` with something other than white space.
pub proof fn lemma_trim_end_after(a: Seq<char>, b: Seq<char>)
    requires
        trim_end(b).len() > 0,
    ensures
        trim_end(a + b) == a + trim_end(b),
    decreases b.len(),
{
    assert((a + b).last() == b.last());
    if is_space(b.last()) {
        assert((a + b).drop_last() =~= a + b.drop_last());
        lemma_trim_end_after(a, b.drop_last());
    }
}

/// The position of the first white space in `s`, or its length.
pub open spec fn word_end(s: Seq<char>) -> int
    decreases s.len(),
{
    if s.len() == 0 || is_space(s[0]) {
        0
    } else {
        1 + word_end(s.drop_first())
    }
}

/// What stands before the first white space of `s`.
pub open spec fn first_word(s: Seq<char>) -> Seq<char> {
    s.take(word_end(s))
}

/// What stands after the first white space of `s`; nothing if there is none.
pub open spec fn after_word(s: Seq<char>) -> Seq<char> {
    if word_end(s) < s.len() {
        s.skip(word_end(s) + 1)
    } else {
        Seq::empty()
    }
}

/// A word followed by white space ends there.
pub proof fn lemma_word_end_at(s: Seq<char>, n: int)
    requires
        0 <= n <= s.len(),
        forall|i: int| 0 <= i < n ==> !is_space(#[trigger] s[i]),
        n < s.len() ==> is_space(s[n]),
    ensures
        word_end(s) == n,
    decreases n,
{
    if n > 0 {
        let rest = s.drop_first();
        assert forall|i: int| 0 <= i < n - 1 implies !is_space(#[trigger] rest[i]) by {
            assert(rest[i] == s[i + 1]);
        }
        lemma_word_end_at(rest, n - 1);
    }
}

/// Split `s` at its first white space.
pub fn split_word(s: &str) -> (parts: (String, String))
    ensures
        parts.0@ == first_word(s@),
        parts.1@ == after_word(s@),
{
    let chars = chars_of(s);
    let mut i: usize = 0;
    assert(chars@.skip(0) == chars@);
    while i < chars.len() && !is_white_space(chars[i])
        invariant
            i <= chars.len(),
            word_end(chars@) == i + word_end(chars@.skip(i as int)),
        decreases chars.len() - i,
    {
        assert(chars@.skip(i as int).drop_first() == chars@.skip(i + 1));
        i += 1;
    }
    let word = string_of(&chars, 0, i);
    let rest = if i < chars.len() {
        string_of(&chars, i + 1, chars.len())
    } else {
        String::new()
    };
    (word, rest)
}

/// `s` from its `n`th character on.
pub fn skip_chars(s: &str, n: usize) -> (out: String)
    requires
        n <= s@.len(),
    ensures
        out@ == s@.skip(n as int),
{
    let chars = chars_of(s);
    let out = string_of(&chars, n, chars.len());
    assert(out@ == s@.skip(n as int));
    out
}

/// Whether the first character of `s` is `c`.
pub fn begins_with(s: &str, c: char) -> (yes: bool)
    ensures
        yes == (s@.len() > 0 && s@[0] == c),
{
    let chars = chars_of(s);
    chars.len() > 0 && chars[0] == c
}

/// Whether `c` occurs in `s`.
pub fn contains_char(s: &str, c: char) -> (yes: bool)
    ensures
        yes == s@.contains(c),
{
    let chars = chars_of(s);
    let mut i: usize = 0;
    while i < chars.len()
        invariant
            i <= chars.len(),
            chars@ == s@,
            forall|j: int| 0 <= j < i ==> s@[j] != c,
        decreases chars.len() - i,
    {
        if chars[i] == c {
            assert(s@[i as int] == c);
            return true;
        }
        i += 1;
    }
    false
}

/// `s` without the `c`s at its start.
pub open spec fn trim_start_char(s: Seq<char>, c: char) -> Seq<char>
    decreases s.len(),
{
    if s.len() > 0 && s[0] == c {
        trim_start_char(s.drop_first(), c)
    } else {
        s
    }
}

/// `s` without the `c`s at its start.
pub fn trim_start_of(s: &str, c: char) -> (out: String)
    ensures
        out@ == trim_start_char(s@, c),
{
    let chars = chars_of(s);
    let mut i: usize = 0;
    assert(chars@.skip(0) == chars@);
    while i < chars.len() && chars[i] == c
        invariant
            i <= chars.len(),
            trim_start_char(chars@, c) == trim_start_char(chars@.skip(i as int), c),
        decreases chars.len() - i,
    {
        assert(chars@.skip(i as int).drop_first() == chars@.skip(i + 1));
        i += 1;
    }
    assert(chars@.subrange(i as int, chars.len() as int) == chars@.skip(i as int));
    string_of(&chars, i, chars.len())
}

/// `s` with every `from` turned into `to`.
pub open spec fn replaced(s: Seq<char>, from: char, to: char) -> Seq<char> {
    s.map_values(|c: char| if c == from { to } else { c })
}

/// `s` with every `from` turned into `to`.
pub fn replace_char(s: &str, from: char, to: char) -> (out: String)
    ensures
        out@ == replaced(s@, from, to),
{
    let chars = chars_of(s);
    let mut out = String::new();
    let mut i: usize = 0;
    while i < chars.len()
        invariant
            i <= chars.len(),
            chars@ == s@,
            out@ == replaced(s@, from, to).take(i as int),
        decreases chars.len() - i,
    {
        let c = chars[i];
        out.push(if c == from { to } else { c });
        i += 1;
    }
    out
}

// ---------------------------------------------------------------------------
// Joining
// ---------------------------------------------------------------------------

/// The views of a list of strings.
pub open spec fn texts(v: Seq<String>) -> Seq<Seq<char>> {
    v.map_values(|s: String| s@)
}

/// The parts of a list, one after the other, with `sep` between neighbours.
pub open spec fn joined(parts: Seq<Seq<char>>, sep: Seq<char>) -> Seq<char>
    decreases parts.len(),
{
    if parts.len() == 0 {
        Seq::empty()
    } else if parts.len() == 1 {
        parts[0]
    } else {
        joined(parts.drop_last(), sep) + sep + parts.last()
    }
}

/// The parts of a list, one after the other, with `sep` between neighbours.
pub fn join(parts: &Vec<String>, sep: &str) -> (out: String)
    ensures
        out@ == joined(texts(parts@), sep@),
{
    let mut out = String::new();
    let ghost all = texts(parts@);
    let mut i: usize = 0;
    while i < parts.len()
        invariant
            i <= parts.len(),
            all == texts(parts@),
            out@ == joined(all.take(i as int), sep@),
        decreases parts.len() - i,
    {
        assert(all.take(i + 1).drop_last() == all.take(i as int));
        if i > 0 {
            out.append(sep);
        }
        out.append(parts[i].as_str());
        i += 1;
    }
    assert(all.take(i as int) == all);
    out
}

// ---------------------------------------------------------------------------
// Words
// ---------------------------------------------------------------------------

/// The maximal runs of characters of `s` that are not white space, in order.
pub open spec fn words(s: Seq<char>) -> Seq<Seq<char>>
    decreases s.len(),
{
    if s.len() == 0 {
        Seq::empty()
    } else {
        let before = s.drop_last();
        let ws = words(before);
        if is_space(s.last()) {
            ws
        } else if before.len() == 0 || is_space(before.last()) {
            ws.push(seq![s.last()])
        } else {
            ws.drop_last().push(ws.last().push(s.last()))
        }
    }
}

/// The words of `s` with one space between neighbours.
pub open spec fn one_line(s: Seq<char>) -> Seq<char> {
    joined(words(s), seq![' '])
}

/// A text that ends in a word has one.
pub proof fn lemma_ends_in_word(s: Seq<char>)
    requires
        s.len() > 0,
        !is_space(s.last()),
    ensures
        words(s).len() > 0,
    decreases s.len(),
{
    let before = s.drop_last();
    if before.len() > 0 && !is_space(before.last()) {
        lemma_ends_in_word(before);
    }
}

/// How the line of words grows by one character.
pub proof fn lemma_one_line_step(s: Seq<char>)
    requires
        s.len() > 0,
    ensures
        one_line(s) == {
            let before = s.drop_last();
            if is_space(s.last()) {
                one_line(before)
            } else if words(before).len() > 0 && is_space(before.last()) {
                one_line(before).push(' ').push(s.last())
            } else {
                one_line(before).push(s.last())
            }
        },
        words(s).len() == 0 <==> one_line(s).len() == 0,
    decreases s.len(),
{
    let before = s.drop_last();
    let ws = words(before);
    let c = s.last();
    let sep = seq![' '];
    if before.len() > 0 {
        lemma_one_line_step(before);
    }
    if is_space(c) {
    } else if before.len() == 0 || is_space(before.last()) {
        let all = ws.push(seq![c]);
        assert(all.drop_last() == ws);
        assert(words(s) == all);
        if ws.len() > 0 {
            assert(joined(all, sep) == joined(ws, sep) + sep + seq![c]);
            assert(joined(all, sep) =~= one_line(before).push(' ').push(c));
        } else {
            assert(one_line(before) =~= Seq::<char>::empty());
            assert(joined(all, sep) == seq![c]);
            assert(joined(all, sep) =~= one_line(before).push(c));
        }
    } else {
        lemma_ends_in_word(before);
        let all = ws.drop_last().push(ws.last().push(c));
        assert(words(s) == all);
        assert(all.drop_last() == ws.drop_last());
        assert(joined(all, sep) =~= joined(ws, sep).push(c));
    }
}

/// The words of `s` with one space between neighbours, as a string.
pub fn to_one_line(s: &str) -> (out: String)
    ensures
        out@ == one_line(s@),
{
    let chars = chars_of(s);
    let mut out = String::new();
    let mut empty = true;
    let mut i: usize = 0;
    while i < chars.len()
        invariant
            i <= chars.len(),
            chars@ == s@,
            out@ == one_line(s@.take(i as int)),
            empty == (words(s@.take(i as int)).len() == 0),
        decreases chars.len() - i,
    {
        let c = chars[i];
        proof {
            let next = s@.take(i + 1);
            assert(next.drop_last() == s@.take(i as int));
            lemma_one_line_step(next);
            if i > 0 {
                assert(s@.take(i as int).last() == s@[i - 1]);
            }
        }
        if !is_white_space(c) {
            if !empty && is_white_space(chars[i - 1]) {
                out.push(' ');
            }
            out.push(c);
            empty = false;
        }
        i += 1;
    }
    assert(s@.take(i as int) == s@);
    out
}

// ---------------------------------------------------------------------------
// Numbers
// ---------------------------------------------------------------------------

/// The digit `d`, for `d` under ten.
pub open spec fn digit(d: nat) -> char {
    (48 + d) as char
}

/// `n` in decimal.
pub open spec fn decimal(n: nat) -> Seq<char>
    decreases n,
{
    if n < 10 {
        seq![digit(n)]
    } else {
        decimal(n / 10).push(digit(n % 10))
    }
}

/// `n` in decimal, as a string.
pub fn decimal_string(n: u64) -> (out: String)
    ensures
        out@ == decimal(n as nat),
    decreases n,
{
    let d: u8 = (n % 10) as u8;
    let c: char = (48 + d) as char;
    let mut out = if n < 10 {
        String::new()
    } else {
        decimal_string(n / 10)
    };
    out.push(c);
    out
}

// ---------------------------------------------------------------------------
// Laws
// ---------------------------------------------------------------------------

/// Whether every character of `s` is white space.
pub open spec fn is_blank(s: Seq<char>) -> bool {
    forall|i: int| 0 <= i < s.len() ==> is_space(#[trigger] s[i])
}

/// Whether no character of `s` is white space.
pub open spec fn is_word(s: Seq<char>) -> bool {
    forall|i: int| 0 <= i < s.len() ==> !is_space(#[trigger] s[i])
}

proof fn lemma_trim_start_splits(s: Seq<char>)
    ensures
        trim_start(s).len() <= s.len(),
        s == s.take(s.len() - trim_start(s).len()) + trim_start(s),
        is_blank(s.take(s.len() - trim_start(s).len())),
        trim_start(s).len() > 0 ==> !is_space(trim_start(s)[0]),
    decreases s.len(),
{
    if s.len() > 0 && is_space(s[0]) {
        let rest = s.drop_first();
        lemma_trim_start_splits(rest);
        let n = s.len() - trim_start(s).len();
        let head = s.take(n);
        assert forall|i: int| 0 <= i < head.len() implies is_space(#[trigger] head[i]) by {
            if i > 0 {
                assert(rest.take(n - 1)[i - 1] == head[i]);
            }
        }
        assert(s =~= head + trim_start(s)) by {
            assert(rest =~= rest.take(n - 1) + trim_start(rest));
            assert forall|i: int| 0 <= i < s.len() implies s[i] == (head + trim_start(s))[i] by {
                if i > 0 {
                    assert(s[i] == rest[i - 1]);
                    assert(rest[i - 1] == (rest.take(n - 1) + trim_start(rest))[i - 1]);
                }
            }
        }
    } else {
        assert(s =~= s.take(0) + s);
    }
}

proof fn lemma_trim_end_splits(s: Seq<char>)
    ensures
        trim_end(s).len() <= s.len(),
        s == trim_end(s) + s.skip(trim_end(s).len() as int),
        is_blank(s.skip(trim_end(s).len() as int)),
        trim_end(s).len() > 0 ==> !is_space(trim_end(s).last()),
    decreases s.len(),
{
    let kept = trim_end(s);
    if s.len() > 0 && is_space(s.last()) {
        let init = s.drop_last();
        lemma_trim_end_splits(init);
        let tail = s.skip(kept.len() as int);
        assert(tail =~= init.skip(kept.len() as int).push(s.last()));
        assert(s =~= init.push(s.last()));
        assert(s =~= kept + tail);
    } else {
        assert(s =~= s + s.skip(s.len() as int));
    }
}

/// Trimming takes white space off the two ends of a text and nothing else: the text is what was kept
/// between two blank ends, and what was kept neither begins nor ends with white space.
pub proof fn law_trim(s: Seq<char>)
    ensures
        exists|a: Seq<char>, b: Seq<char>| #[trigger]
            is_blank(a) && #[trigger] is_blank(b) && s == a + trimmed(s) + b,
        trimmed(s).len() > 0 ==> !is_space(trimmed(s)[0]) && !is_space(trimmed(s).last()),
{
    let tail = trim_start(s);
    lemma_trim_start_splits(s);
    lemma_trim_end_splits(tail);
    let a = s.take(s.len() - tail.len());
    let b = tail.skip(trimmed(s).len() as int);
    assert(is_blank(a) && is_blank(b));
    assert(s =~= a + trimmed(s) + b);
    if trimmed(s).len() > 0 {
        assert(tail[0] == (trimmed(s) + b)[0]);
    }
}

/// A text that neither begins nor ends with white space is trimmed already, and blank text around it
/// does not matter.
pub proof fn law_trim_ignores_blank_ends(a: Seq<char>, s: Seq<char>, b: Seq<char>)
    requires
        is_blank(a),
        is_blank(b),
        s.len() > 0 ==> !is_space(s[0]) && !is_space(s.last()),
    ensures
        trimmed(a + s + b) == s,
{
    lemma_trim_start_blank(a, s + b);
    assert(a + s + b =~= a + (s + b));
    if s.len() > 0 {
        assert((s + b)[0] == s[0]);
        lemma_trim_end_blank(s, b);
    } else {
        assert(s + b =~= b);
        lemma_trim_start_blank(b, s);
        assert(b + s =~= b);
        assert(trim_start(b) =~= s);
    }
}

proof fn lemma_trim_start_blank(a: Seq<char>, s: Seq<char>)
    requires
        is_blank(a),
    ensures
        trim_start(a + s) == trim_start(s),
    decreases a.len(),
{
    if a.len() > 0 {
        let rest = a.drop_first();
        assert forall|i: int| 0 <= i < rest.len() implies is_space(#[trigger] rest[i]) by {
            assert(rest[i] == a[i + 1]);
        }
        lemma_trim_start_blank(rest, s);
        assert((a + s)[0] == a[0]);
        assert((a + s).drop_first() =~= rest + s);
    } else {
        assert(a + s =~= s);
    }
}

proof fn lemma_trim_end_blank(s: Seq<char>, b: Seq<char>)
    requires
        is_blank(b),
    ensures
        trim_end(s + b) == trim_end(s),
    decreases b.len(),
{
    if b.len() > 0 {
        let init = b.drop_last();
        assert forall|i: int| 0 <= i < init.len() implies is_space(#[trigger] init[i]) by {
            assert(init[i] == b[i]);
        }
        lemma_trim_end_blank(s, init);
        assert((s + b).last() == b[b.len() - 1]);
        assert((s + b).drop_last() =~= s + init);
    } else {
        assert(s + b =~= s);
    }
}

/// Splitting a text at its first white space gives back the word before it and the rest after it; a
/// text without white space is all word.
pub proof fn law_split_at_first_space(word: Seq<char>, gap: char, rest: Seq<char>)
    requires
        is_word(word),
        is_space(gap),
    ensures
        first_word(word + seq![gap] + rest) == word,
        after_word(word + seq![gap] + rest) == rest,
        first_word(word) == word,
        after_word(word) == Seq::<char>::empty(),
{
    let s = word + seq![gap] + rest;
    let n = word.len() as int;
    assert forall|i: int| 0 <= i < n implies !is_space(#[trigger] s[i]) by {
        assert(s[i] == word[i]);
    }
    assert(s[n] == gap);
    lemma_word_end_at(s, n);
    lemma_word_end_at(word, n);
    assert(first_word(s) =~= word);
    assert(after_word(s) =~= rest);
    assert(first_word(word) =~= word);
}

/// Replacing a character keeps the length of a text and changes exactly the places where it stands.
pub proof fn law_replace_is_pointwise(s: Seq<char>, from: char, to: char, i: int)
    requires
        0 <= i < s.len(),
    ensures
        replaced(s, from, to).len() == s.len(),
        s[i] == from ==> replaced(s, from, to)[i] == to,
        s[i] != from ==> replaced(s, from, to)[i] == s[i],
{
}

/// Taking a character off the start of a text takes off all of its repetitions there and nothing else.
pub proof fn law_trim_start_of(n: nat, s: Seq<char>, c: char)
    requires
        s.len() > 0 ==> s[0] != c,
    ensures
        trim_start_char(Seq::new(n, |i: int| c) + s, c) == s,
    decreases n,
{
    let run = Seq::new(n, |i: int| c);
    if n > 0 {
        law_trim_start_of((n - 1) as nat, s, c);
        assert((run + s).drop_first() =~= Seq::new((n - 1) as nat, |i: int| c) + s);
    } else {
        assert(run + s =~= s);
    }
}

/// Joining puts the separator between two neighbours and nowhere else: a single part stands for itself,
/// and two lists are joined by joining each and putting the separator between.
pub proof fn law_join(a: Seq<Seq<char>>, b: Seq<Seq<char>>, part: Seq<char>, sep: Seq<char>)
    requires
        a.len() > 0,
        b.len() > 0,
    ensures
        joined(Seq::empty(), sep) == Seq::<char>::empty(),
        joined(seq![part], sep) == part,
        joined(a + b, sep) == joined(a, sep) + sep + joined(b, sep),
    decreases b.len(),
{
    let init = b.drop_last();
    assert((a + b).drop_last() =~= a + init);
    assert((a + b).last() == b.last());
    if b.len() == 1 {
        assert(a + init =~= a);
    } else {
        law_join(a, init, part, sep);
        assert(joined(a, sep) + sep + joined(init, sep) + sep + b.last() =~= joined(a, sep) + sep
            + joined(b, sep));
    }
}

proof fn lemma_words_of_word(s: Seq<char>)
    requires
        is_word(s),
        s.len() > 0,
    ensures
        words(s) == seq![s],
    decreases s.len(),
{
    let init = s.drop_last();
    assert(!is_space(s[s.len() - 1]));
    if init.len() > 0 {
        assert forall|i: int| 0 <= i < init.len() implies !is_space(#[trigger] init[i]) by {
            assert(init[i] == s[i]);
        }
        lemma_words_of_word(init);
        assert(!is_space(init[init.len() - 1]));
        assert(init.push(s.last()) =~= s);
        assert(words(s) =~= seq![s]);
    } else {
        assert(seq![s.last()] =~= s);
        assert(words(init) =~= Seq::<Seq<char>>::empty());
        assert(words(s) =~= seq![s]);
    }
}

/// The words of a text are its parts between white space: a part without white space is one word, and
/// white space between two texts separates their words.
pub proof fn law_words(a: Seq<char>, gap: char, b: Seq<char>, word: Seq<char>)
    requires
        is_space(gap),
        is_word(word),
        word.len() > 0,
    ensures
        words(Seq::empty()) == Seq::<Seq<char>>::empty(),
        words(word) == seq![word],
        words(a + seq![gap] + b) == words(a) + words(b),
    decreases b.len(),
{
    lemma_words_of_word(word);
    let s = a + seq![gap] + b;
    if b.len() == 0 {
        assert(s.drop_last() =~= a);
        assert(words(a) + words(b) =~= words(a));
    } else {
        let init = b.drop_last();
        law_words(a, gap, init, word);
        assert(s.drop_last() =~= a + seq![gap] + init);
        assert(s.last() == b.last());
        if is_space(b.last()) {
        } else if init.len() == 0 {
            assert(s.drop_last().last() == gap);
            assert(words(s) =~= words(a) + words(b));
        } else {
            assert(s.drop_last().last() == init.last());
            if !is_space(init.last()) {
                lemma_ends_in_word(init);
            }
            assert(words(s) =~= words(a) + words(b));
        }
    }
}

/// A text on one line has the words of the text, with a single space between neighbours.
pub proof fn law_one_line(a: Seq<char>, gap: char, b: Seq<char>, word: Seq<char>)
    requires
        is_space(gap),
        is_word(word),
        word.len() > 0,
    ensures
        one_line(Seq::empty()) == Seq::<char>::empty(),
        one_line(word) == word,
        one_line(a + seq![gap] + b) == if words(a).len() == 0 {
            one_line(b)
        } else if words(b).len() == 0 {
            one_line(a)
        } else {
            one_line(a) + seq![' '] + one_line(b)
        },
{
    law_words(a, gap, b, word);
    let sep = seq![' '];
    if words(a).len() == 0 {
        assert(words(a) + words(b) =~= words(b));
    } else if words(b).len() == 0 {
        assert(words(a) + words(b) =~= words(a));
    } else {
        law_join(words(a), words(b), word, sep);
    }
}

/// The number that a string of decimal digits stands for.
pub open spec fn number(s: Seq<char>) -> int
    decreases s.len(),
{
    if s.len() == 0 {
        0
    } else {
        10 * number(s.drop_last()) + (s.last() as u32 - '0' as u32)
    }
}

/// A number in decimal is made of digits, without a leading zero unless it is zero, and stands for that
/// number.
pub proof fn law_decimal(n: nat)
    ensures
        decimal(n).len() > 0,
        forall|i: int| 0 <= i < decimal(n).len() ==> '0' <= #[trigger] decimal(n)[i] <= '9',
        decimal(n)[0] == '0' <==> n == 0,
        n == 0 ==> decimal(n).len() == 1,
        number(decimal(n)) == n,
    decreases n,
{
    let d = digit(n % 10);
    assert(d as u32 == 48 + n % 10);
    if n < 10 {
        assert(decimal(n).drop_last() =~= Seq::<char>::empty());
        assert(number(Seq::<char>::empty()) == 0);
    } else {
        law_decimal(n / 10);
        assert(decimal(n).drop_last() =~= decimal(n / 10));
        assert(decimal(n)[0] == decimal(n / 10)[0]);
    }
}

/// The order of texts is lexicographic in the code points: a text comes before another if it is a
/// prefix of it, or if it has the smaller character at the first place where they differ. The order is
/// total, and only equal texts stand in it both ways.
pub proof fn law_text_order(s: Seq<char>, a: Seq<char>, b: Seq<char>)
    ensures
        text_le(s, s + a),
        a.len() > 0 ==> !text_le(s + a, s),
        a.len() > 0 && b.len() > 0 && a[0] != b[0] ==> (text_le(s + a, s + b) <==> a[0] < b[0]),
        text_le(a, b) || text_le(b, a),
        text_le(a, b) && text_le(b, a) ==> a == b,
    decreases s.len() + a.len(),
{
    lemma_text_le_total(a, b);
    if s.len() > 0 {
        let rest = s.drop_first();
        law_text_order(rest, a, b);
        assert((s + a).drop_first() =~= rest + a);
        assert((s + b).drop_first() =~= rest + b);
        assert((s + a)[0] == s[0] && (s + b)[0] == s[0]);
    } else {
        assert(s + a =~= a);
        assert(s + b =~= b);
        if a.len() > 0 && b.len() > 0 && a[0] == b[0] {
            law_text_order(s, a.drop_first(), b.drop_first());
            if a.drop_first() == b.drop_first() {
                assert(a =~= seq![a[0]] + a.drop_first());
                assert(b =~= seq![b[0]] + b.drop_first());
            }
        } else if a.len() == 0 && b.len() == 0 {
            assert(a =~= b);
        }
    }
}

/// Two characters that are equal but for the case of an ASCII letter.
pub open spec fn alike(x: char, y: char) -> bool {
    ||| x == y
    ||| 'A' <= x <= 'Z' && y as u32 == x as u32 + 32
    ||| 'A' <= y <= 'Z' && x as u32 == y as u32 + 32
}

/// Comparing without case means that the texts have the same length and at each place the same
/// character, up to the case of ASCII letters.
pub proof fn law_same_ignoring_case(a: Seq<char>, b: Seq<char>)
    ensures
        same_ignoring_case(a, b) <==> a.len() == b.len() && forall|i: int|
            0 <= i < a.len() ==> alike(#[trigger] a[i], b[i]),
{
    let x = ascii_lowercase(a);
    let y = ascii_lowercase(b);
    if same_ignoring_case(a, b) {
        assert(x.len() == y.len());
        assert forall|i: int| 0 <= i < a.len() implies alike(#[trigger] a[i], b[i]) by {
            assert(x[i] == y[i]);
        }
    }
    if a.len() == b.len() && forall|i: int| 0 <= i < a.len() ==> alike(#[trigger] a[i], b[i]) {
        assert forall|i: int| 0 <= i < a.len() implies x[i] == y[i] by {
            assert(alike(a[i], b[i]));
        }
        assert(x =~= y);
    }
}

/// Lower case of ASCII text: each capital letter is 32 code points on, all else stays.
pub proof fn law_ascii_lowercase(s: Seq<char>, i: int)
    requires
        0 <= i < s.len(),
    ensures
        ascii_lowercase(s).len() == s.len(),
        'A' <= s[i] <= 'Z' ==> ascii_lowercase(s)[i] as u32 == s[i] as u32 + 32,
        !('A' <= s[i] <= 'Z') ==> ascii_lowercase(s)[i] == s[i],
{
}

/// The first `n` positions of a list.
pub open spec fn positions(n: int) -> Seq<int> {
    Seq::new(n as nat, |i: int| i)
}

/// One more position comes last.
pub proof fn lemma_positions(n: int)
    requires
        n > 0,
    ensures
        positions(n).drop_last() == positions(n - 1),
        positions(n).last() == n - 1,
        positions(n).len() == n,
{
    assert(positions(n).drop_last() =~= positions(n - 1));
}

} // verus!
