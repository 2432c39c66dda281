//! Text as sequences of characters: trimming, searching, splitting into lines.
//!
//! The specification functions speak of `Seq<char>`, the view of `str` and
//! `String`. The executable functions work on slices of `char`.

use vstd::prelude::*;
use vstd::slice::slice_subrange;
use vstd::utf8::{char_is_scalar, encode_scalar, encode_utf8};

verus! {

/// `String::push` of the standard library: appends one character to the end.
pub assume_specification[ String::push ](string: &mut String, ch: char)
    ensures
        final(string)@ == old(string)@.push(ch),
;

/// The views of a sequence of strings.
pub open spec fn texts(strings: Seq<String>) -> Seq<Seq<char>> {
    strings.map_values(|s: String| s@)
}

/// The views of a sequence of character vectors.
pub open spec fn char_texts(rows: Seq<Vec<char>>) -> Seq<Seq<char>> {
    rows.map_values(|row: Vec<char>| row@)
}

/// The view of an optional string.
pub open spec fn opt_text(string: Option<String>) -> Option<Seq<char>> {
    match string {
        Some(s) => Some(s@),
        None => None,
    }
}

/// The view of an optional borrowed string.
pub open spec fn opt_view(string: Option<&str>) -> Option<Seq<char>> {
    match string {
        Some(s) => Some(s@),
        None => None,
    }
}

/// Strings as text are their texts, one by one; an optional string is its text, also where
/// that is empty, or none.
pub proof fn lemma_strings_as_text(
    strings: Seq<String>,
    rows: Seq<Vec<char>>,
    i: int,
    string: String,
    part: &str,
)
    ensures
        texts(strings).len() == strings.len(),
        0 <= i < strings.len() ==> texts(strings)[i] == strings[i]@,
        char_texts(rows).len() == rows.len(),
        0 <= i < rows.len() ==> char_texts(rows)[i] == rows[i]@,
        opt_text(Some(string)) == Some(string@),
        opt_text(None) is None,
        opt_view(Some(part)) == Some(part@),
        opt_view(None) is None,
{
}

/// The number of bytes of the UTF-8 encoding of `s`.
pub open spec fn byte_len(s: Seq<char>) -> nat {
    encode_utf8(s).len()
}

/// The characters with the Unicode property `White_Space`.
pub open spec fn is_white_space(c: char) -> bool {
    let code = c as u32;
    ||| 0x09 <= code <= 0x0d
    ||| code == 0x20
    ||| code == 0x85
    ||| code == 0xa0
    ||| code == 0x1680
    ||| 0x2000 <= code <= 0x200a
    ||| code == 0x2028
    ||| code == 0x2029
    ||| code == 0x202f
    ||| code == 0x205f
    ||| code == 0x3000
}

/// `s` without its leading white space.
pub open spec fn trim_start(s: Seq<char>) -> Seq<char>
    decreases s.len(),
{
    if s.len() > 0 && is_white_space(s[0]) {
        trim_start(s.skip(1))
    } else {
        s
    }
}

/// `s` without its trailing white space.
pub open spec fn trim_end(s: Seq<char>) -> Seq<char>
    decreases s.len(),
{
    if s.len() > 0 && is_white_space(s.last()) {
        trim_end(s.drop_last())
    } else {
        s
    }
}

/// `s` without leading and trailing white space.
pub open spec fn trim(s: Seq<char>) -> Seq<char> {
    trim_end(trim_start(s))
}

/// `pattern` stands in `s` at index `i`.
pub open spec fn occurs_at(s: Seq<char>, pattern: Seq<char>, i: int) -> bool {
    &&& 0 <= i
    &&& i + pattern.len() <= s.len()
    &&& s.subrange(i, i + pattern.len()) == pattern
}

/// `pattern` stands in `s` at index `i` and nowhere before it.
pub open spec fn first_occurrence(s: Seq<char>, pattern: Seq<char>, i: int) -> bool {
    &&& occurs_at(s, pattern, i)
    &&& forall|j: int| #[trigger] occurs_at(s, pattern, j) ==> i <= j
}

/// `pattern` stands in `s` at index `i` and nowhere after it.
pub open spec fn last_occurrence(s: Seq<char>, pattern: Seq<char>, i: int) -> bool {
    &&& occurs_at(s, pattern, i)
    &&& forall|j: int| #[trigger] occurs_at(s, pattern, j) ==> j <= i
}

/// `pattern` stands somewhere in `s`.
pub open spec fn contains(s: Seq<char>, pattern: Seq<char>) -> bool {
    exists|i: int| #[trigger] occurs_at(s, pattern, i)
}

/// The index at which `pattern` first stands in `s`.
pub open spec fn find(s: Seq<char>, pattern: Seq<char>) -> Option<int> {
    if contains(s, pattern) {
        Some(choose|i: int| first_occurrence(s, pattern, i))
    } else {
        None
    }
}

/// The index at which `pattern` last stands in `s`.
pub open spec fn rfind(s: Seq<char>, pattern: Seq<char>) -> Option<int> {
    if contains(s, pattern) {
        Some(choose|i: int| last_occurrence(s, pattern, i))
    } else {
        None
    }
}

/// What stands before the first `separator`, or all of `s` where there is none.
pub open spec fn before_first(s: Seq<char>, separator: char) -> Seq<char> {
    match find(s, seq![separator]) {
        Some(i) => s.take(i),
        None => s,
    }
}

/// What follows `prefix`, where `s` starts with it.
pub open spec fn strip_prefix(s: Seq<char>, prefix: Seq<char>) -> Option<Seq<char>> {
    if prefix.is_prefix_of(s) {
        Some(s.skip(prefix.len() as int))
    } else {
        None
    }
}

/// `s` without one carriage return at its end.
pub open spec fn strip_cr(s: Seq<char>) -> Seq<char> {
    if s.len() > 0 && s.last() == '\r' {
        s.drop_last()
    } else {
        s
    }
}

/// The lines of `s`: each ends at a line feed, or a carriage return and a line
/// feed, neither of which belongs to it; the last may end with the text.
pub open spec fn lines(s: Seq<char>) -> Seq<Seq<char>>
    decreases s.len(),
{
    if s.len() == 0 {
        seq![]
    } else {
        match find(s, seq!['\n']) {
            Some(i) => {
                proof {
                    lemma_found(s, seq!['\n']);
                }
                seq![strip_cr(s.take(i))] + lines(s.skip(i + 1))
            },
            None => seq![s],
        }
    }
}

/// The ASCII lower-case form of one character.
pub open spec fn lower_char(c: char) -> char {
    if 'A' <= c <= 'Z' {
        ((c as u8) + 32) as char
    } else {
        c
    }
}

/// `s` with its ASCII letters in lower case.
pub open spec fn ascii_lower(s: Seq<char>) -> Seq<char> {
    s.map_values(|c: char| lower_char(c))
}

/// The two texts are equal up to the case of ASCII letters.
pub open spec fn same_ignoring_case(a: Seq<char>, b: Seq<char>) -> bool {
    ascii_lower(a) == ascii_lower(b)
}

/// The byte offset `col` stands between two characters of `line`, or at an end of it.
pub open spec fn on_boundary(line: Seq<char>, col: int) -> bool {
    exists|k: int| #[trigger] splits_at(line, col, k)
}

/// The first `k` characters of `line` take up `col` bytes.
pub open spec fn splits_at(line: Seq<char>, col: int, k: int) -> bool {
    0 <= k <= line.len() && byte_len(line.take(k)) == col
}

/// The part of `line` before the byte offset `col`; all of it where it is shorter.
pub open spec fn before_offset(line: Seq<char>, col: int) -> Seq<char> {
    if col <= byte_len(line) {
        line.take(choose|k: int| splits_at(line, col, k))
    } else {
        line
    }
}

/// A first occurrence is what `find` returns.
pub proof fn lemma_find(s: Seq<char>, pattern: Seq<char>, i: int)
    requires
        first_occurrence(s, pattern, i),
    ensures
        find(s, pattern) == Some(i),
{
    let k = choose|k: int| first_occurrence(s, pattern, k);
    assert(first_occurrence(s, pattern, k));
    assert(occurs_at(s, pattern, k));
}

/// A last occurrence is what `rfind` returns.
pub proof fn lemma_rfind(s: Seq<char>, pattern: Seq<char>, i: int)
    requires
        last_occurrence(s, pattern, i),
    ensures
        rfind(s, pattern) == Some(i),
{
    let k = choose|k: int| last_occurrence(s, pattern, k);
    assert(last_occurrence(s, pattern, k));
    assert(occurs_at(s, pattern, k));
}

/// Where a pattern occurs, there is a first occurrence of it, and `find` returns it.
proof fn lemma_find_exists(s: Seq<char>, pattern: Seq<char>, from: int)
    requires
        occurs_at(s, pattern, from),
    ensures
        find(s, pattern) is Some,
        first_occurrence(s, pattern, find(s, pattern)->0),
    decreases from,
{
    if exists|j: int| #[trigger] occurs_at(s, pattern, j) && j < from {
        let j = choose|j: int| #[trigger] occurs_at(s, pattern, j) && j < from;
        lemma_find_exists(s, pattern, j);
    } else {
        assert(first_occurrence(s, pattern, from));
        lemma_find(s, pattern, from);
    }
}

/// What `find` returns is a first occurrence.
pub proof fn lemma_found(s: Seq<char>, pattern: Seq<char>)
    ensures
        find(s, pattern) matches Some(i) ==> first_occurrence(s, pattern, i),
{
    if contains(s, pattern) {
        let j = choose|j: int| #[trigger] occurs_at(s, pattern, j);
        lemma_find_exists(s, pattern, j);
    }
}

/// Trimming the end leaves a prefix without white space at its end.
proof fn lemma_trim_end_clean(s: Seq<char>)
    ensures
        trim_end(s).len() > 0 ==> !is_white_space(trim_end(s).last()),
        trim_end(s).is_prefix_of(s),
    decreases s.len(),
{
    if s.len() > 0 && is_white_space(s.last()) {
        lemma_trim_end_clean(s.drop_last());
        assert(trim_end(s) =~= s.take(trim_end(s).len() as int));
    } else {
        assert(s =~= s.take(s.len() as int));
    }
}

/// Trimming the start leaves no white space there.
proof fn lemma_trim_start_clean(s: Seq<char>)
    ensures
        trim_start(s).len() > 0 ==> !is_white_space(trim_start(s)[0]),
    decreases s.len(),
{
    if s.len() > 0 && is_white_space(s[0]) {
        lemma_trim_start_clean(s.skip(1));
    }
}

/// A trimmed text has no white space at its ends.
pub proof fn lemma_trim_clean(s: Seq<char>)
    ensures
        trim(s).len() > 0 ==> !is_white_space(trim(s)[0]) && !is_white_space(trim(s).last()),
{
    lemma_trim_start_clean(s);
    lemma_trim_end_clean(trim_start(s));
}

/// All characters of `s` are white space.
pub open spec fn is_blank(s: Seq<char>) -> bool {
    forall|i: int| 0 <= i < s.len() ==> is_white_space(#[trigger] s[i])
}

/// `s` is not empty and has no white space at its ends.
pub open spec fn is_clean(s: Seq<char>) -> bool {
    s.len() > 0 && !is_white_space(s[0]) && !is_white_space(s.last())
}

/// Trimming the start takes all white space in front away.
proof fn lemma_trim_start_padded(left: Seq<char>, rest: Seq<char>)
    requires
        is_blank(left),
        rest.len() == 0 || !is_white_space(rest[0]),
    ensures
        trim_start(left + rest) == rest,
    decreases left.len(),
{
    if left.len() == 0 {
        assert(left + rest =~= rest);
    } else {
        assert((left + rest)[0] == left[0]);
        assert((left + rest).skip(1) =~= left.skip(1) + rest);
        lemma_trim_start_padded(left.skip(1), rest);
    }
}

/// Trimming the end takes all white space behind away.
proof fn lemma_trim_end_padded(rest: Seq<char>, right: Seq<char>)
    requires
        is_blank(right),
        rest.len() == 0 || !is_white_space(rest.last()),
    ensures
        trim_end(rest + right) == rest,
    decreases right.len(),
{
    if right.len() == 0 {
        assert(rest + right =~= rest);
    } else {
        assert((rest + right).last() == right.last());
        assert((rest + right).drop_last() =~= rest + right.drop_last());
        lemma_trim_end_padded(rest, right.drop_last());
    }
}

/// Trimming starts with what follows the white space in front.
pub proof fn lemma_trim_start_of_padded(left: Seq<char>, start: Seq<char>, rest: Seq<char>)
    requires
        is_blank(left),
        start.len() > 0,
        !is_white_space(start[0]),
    ensures
        trim(left + (start + rest)) == trim_end(start + rest),
{
    assert((start + rest)[0] == start[0]);
    lemma_trim_start_padded(left, start + rest);
}

/// Trimming the end takes nothing of a text that does not end in white space, whatever it
/// takes of what follows.
pub proof fn lemma_trim_end_keeps(start: Seq<char>, rest: Seq<char>) -> (kept: Seq<char>)
    requires
        start.len() > 0,
        !is_white_space(start.last()),
    ensures
        trim_end(start + rest) == start + kept,
        kept.is_prefix_of(rest),
    decreases rest.len(),
{
    if rest.len() == 0 {
        assert(start + rest =~= start);
        assert(rest.take(0) =~= rest);
        rest
    } else if is_white_space(rest.last()) {
        assert((start + rest).drop_last() =~= start + rest.drop_last());
        let kept = lemma_trim_end_keeps(start, rest.drop_last());
        assert(rest.take(kept.len() as int) =~= rest.drop_last().take(kept.len() as int));
        kept
    } else {
        assert(rest.take(rest.len() as int) =~= rest);
        rest
    }
}

/// Trimming takes the white space around a text away, and nothing of the text.
pub proof fn lemma_trim_padded(left: Seq<char>, core: Seq<char>, right: Seq<char>)
    requires
        is_blank(left),
        is_clean(core),
        is_blank(right),
    ensures
        trim(left + core + right) == core,
{
    assert(left + core + right =~= left + (core + right));
    assert((core + right)[0] == core[0]);
    lemma_trim_start_padded(left, core + right);
    lemma_trim_end_padded(core, right);
}

/// Nothing is left of white space alone.
pub proof fn lemma_trim_blank(s: Seq<char>)
    requires
        is_blank(s),
    ensures
        trim(s).len() == 0,
{
    let nothing = Seq::<char>::empty();
    assert(s + nothing =~= s);
    lemma_trim_start_padded(s, nothing);
}

/// A text is what trimming leaves of it with white space around it.
pub proof fn lemma_trim_divides(s: Seq<char>)
    ensures
        exists|left: Seq<char>, right: Seq<char>|
            s == #[trigger] (left + trim(s) + right) && is_blank(left) && is_blank(right),
{
    let (left, rest) = lemma_trim_start_divides(s);
    let right = lemma_trim_end_divides(rest);
    assert(s =~= left + trim(s) + right);
}

/// What trimming the start takes away, and what it leaves.
proof fn lemma_trim_start_divides(s: Seq<char>) -> (r: (Seq<char>, Seq<char>))
    ensures
        r.0 + r.1 == s,
        r.1 == trim_start(s),
        is_blank(r.0),
    decreases s.len(),
{
    if s.len() > 0 && is_white_space(s[0]) {
        let (left, rest) = lemma_trim_start_divides(s.skip(1));
        let longer = seq![s[0]] + left;
        assert(longer + rest =~= s) by {
            assert(s =~= seq![s[0]] + s.skip(1));
        }
        (longer, rest)
    } else {
        let nothing = Seq::<char>::empty();
        assert(nothing + s =~= s);
        (nothing, s)
    }
}

/// What trimming the end takes away.
proof fn lemma_trim_end_divides(s: Seq<char>) -> (right: Seq<char>)
    ensures
        trim_end(s) + right == s,
        is_blank(right),
    decreases s.len(),
{
    if s.len() > 0 && is_white_space(s.last()) {
        let right = lemma_trim_end_divides(s.drop_last());
        let longer = right.push(s.last());
        assert(trim_end(s) + longer =~= s) by {
            assert(s =~= s.drop_last().push(s.last()));
        }
        longer
    } else {
        let nothing = Seq::<char>::empty();
        assert(s + nothing =~= s);
        nothing
    }
}

/// Where a pattern is found, the text divides there, and the pattern stands nowhere before;
/// where it is not found, it stands nowhere.
pub proof fn lemma_find_divides(s: Seq<char>, pattern: Seq<char>)
    ensures
        match find(s, pattern) {
            Some(i) => {
                &&& 0 <= i
                &&& i + pattern.len() <= s.len()
                &&& s == s.take(i) + pattern + s.skip(i + pattern.len())
                &&& forall|j: int|
                    0 <= j < i ==> #[trigger] s.subrange(j, j + pattern.len()) != pattern
            },
            None => forall|j: int|
                0 <= j <= s.len() - pattern.len() ==> #[trigger] s.subrange(j, j + pattern.len())
                    != pattern,
        },
{
    lemma_found(s, pattern);
    match find(s, pattern) {
        Some(i) => {
            assert(s =~= s.take(i) + s.subrange(i, i + pattern.len()) + s.skip(i + pattern.len()));
            assert forall|j: int| 0 <= j < i implies #[trigger] s.subrange(j, j + pattern.len())
                != pattern by {
                if s.subrange(j, j + pattern.len()) == pattern {
                    assert(occurs_at(s, pattern, j));
                }
            }
        },
        None => {
            assert forall|j: int| 0 <= j <= s.len() - pattern.len() implies #[trigger] s.subrange(
                j,
                j + pattern.len(),
            ) != pattern by {
                if s.subrange(j, j + pattern.len()) == pattern {
                    assert(occurs_at(s, pattern, j));
                }
            }
        },
    }
}

/// A text contains a pattern exactly where it is made of a text, the pattern and another text.
pub proof fn lemma_contains_divides(s: Seq<char>, pattern: Seq<char>, i: int)
    ensures
        0 <= i <= s.len() - pattern.len() && s.subrange(i, i + pattern.len()) == pattern
            ==> contains(s, pattern),
        contains(s, pattern) ==> exists|j: int|
            0 <= j <= s.len() - pattern.len() && #[trigger] s.subrange(j, j + pattern.len())
                == pattern,
{
    if 0 <= i <= s.len() - pattern.len() && s.subrange(i, i + pattern.len()) == pattern {
        assert(occurs_at(s, pattern, i));
    }
    if contains(s, pattern) {
        let j = choose|j: int| #[trigger] occurs_at(s, pattern, j);
        assert(s.subrange(j, j + pattern.len()) == pattern);
    }
}

/// A pattern is found behind a text in which, with the pattern behind it, it does not stand
/// earlier.
pub proof fn lemma_find_behind(head: Seq<char>, pattern: Seq<char>, tail: Seq<char>)
    requires
        forall|j: int| #[trigger] occurs_at(head + pattern, pattern, j) ==> j >= head.len(),
    ensures
        find(head + pattern + tail, pattern) == Some(head.len() as int),
{
    let all = head + pattern + tail;
    let at = head.len() as int;
    assert(all.subrange(at, at + pattern.len()) =~= pattern);
    assert forall|j: int| #[trigger] occurs_at(all, pattern, j) implies at <= j by {
        if j < at {
            assert(all.subrange(j, j + pattern.len()) =~= (head + pattern).subrange(
                j,
                j + pattern.len(),
            ));
            assert(occurs_at(head + pattern, pattern, j));
        }
    }
    assert(first_occurrence(all, pattern, at));
    lemma_find(all, pattern, at);
}

/// A pattern is found last before a text in which, with the pattern in front, it does not
/// stand again.
pub proof fn lemma_rfind_before(head: Seq<char>, pattern: Seq<char>, tail: Seq<char>)
    requires
        forall|j: int| #[trigger] occurs_at(pattern + tail, pattern, j) ==> j <= 0,
    ensures
        rfind(head + pattern + tail, pattern) == Some(head.len() as int),
{
    let all = head + pattern + tail;
    let at = head.len() as int;
    assert(all.subrange(at, at + pattern.len()) =~= pattern);
    assert forall|j: int| #[trigger] occurs_at(all, pattern, j) implies j <= at by {
        if j > at {
            assert(all.subrange(j, j + pattern.len()) =~= (pattern + tail).subrange(
                j - at,
                j - at + pattern.len(),
            ));
            assert(occurs_at(pattern + tail, pattern, j - at));
        }
    }
    assert(last_occurrence(all, pattern, at));
    lemma_rfind(all, pattern, at);
}

/// Where a pattern is found last, the text divides there, and the pattern stands nowhere
/// behind.
pub proof fn lemma_rfind_divides(s: Seq<char>, pattern: Seq<char>)
    ensures
        match rfind(s, pattern) {
            Some(i) => {
                &&& 0 <= i
                &&& i + pattern.len() <= s.len()
                &&& s == s.take(i) + pattern + s.skip(i + pattern.len())
                &&& forall|j: int|
                    i < j <= s.len() - pattern.len() ==> #[trigger] s.subrange(
                        j,
                        j + pattern.len(),
                    ) != pattern
            },
            None => forall|j: int|
                0 <= j <= s.len() - pattern.len() ==> #[trigger] s.subrange(j, j + pattern.len())
                    != pattern,
        },
{
    if contains(s, pattern) {
        let from = choose|j: int| #[trigger] occurs_at(s, pattern, j);
        lemma_rfind_exists(s, pattern, from);
        let i = rfind(s, pattern)->0;
        assert(s =~= s.take(i) + s.subrange(i, i + pattern.len()) + s.skip(i + pattern.len()));
        assert forall|j: int| i < j <= s.len() - pattern.len() implies #[trigger] s.subrange(
            j,
            j + pattern.len(),
        ) != pattern by {
            if s.subrange(j, j + pattern.len()) == pattern {
                assert(occurs_at(s, pattern, j));
            }
        }
    } else {
        assert forall|j: int| 0 <= j <= s.len() - pattern.len() implies #[trigger] s.subrange(
            j,
            j + pattern.len(),
        ) != pattern by {
            if s.subrange(j, j + pattern.len()) == pattern {
                assert(occurs_at(s, pattern, j));
            }
        }
    }
}

/// Where a pattern occurs, there is a last occurrence of it, and `rfind` returns it.
proof fn lemma_rfind_exists(s: Seq<char>, pattern: Seq<char>, from: int)
    requires
        occurs_at(s, pattern, from),
    ensures
        rfind(s, pattern) is Some,
        last_occurrence(s, pattern, rfind(s, pattern)->0),
    decreases s.len() - from,
{
    if exists|j: int| #[trigger] occurs_at(s, pattern, j) && j > from {
        let j = choose|j: int| #[trigger] occurs_at(s, pattern, j) && j > from;
        lemma_rfind_exists(s, pattern, j);
    } else {
        assert(last_occurrence(s, pattern, from));
        lemma_rfind(s, pattern, from);
    }
}

/// A pattern of one character occurs exactly where that character stands.
pub proof fn lemma_occurs_char(s: Seq<char>, c: char, i: int)
    ensures
        occurs_at(s, seq![c], i) <==> 0 <= i < s.len() && s[i] == c,
{
    if 0 <= i < s.len() {
        assert(s.subrange(i, i + 1) =~= seq![s[i]]);
        assert(seq![s[i]][0] == s[i] && seq![c][0] == c);
    }
}

/// A text contains a pattern of one character exactly where that character is in it.
pub proof fn lemma_contains_char(s: Seq<char>, c: char)
    ensures
        contains(s, seq![c]) <==> s.contains(c),
{
    if contains(s, seq![c]) {
        let i = choose|i: int| #[trigger] occurs_at(s, seq![c], i);
        lemma_occurs_char(s, c, i);
    }
    if s.contains(c) {
        let i = choose|i: int| 0 <= i < s.len() && s[i] == c;
        lemma_occurs_char(s, c, i);
    }
}

/// What stands before the first separator is what has no separator in it, and all of a text
/// without one.
pub proof fn lemma_head_before_separator(head: Seq<char>, separator: char, tail: Seq<char>)
    requires
        !head.contains(separator),
    ensures
        before_first(head, separator) == head,
        before_first(head + seq![separator] + tail, separator) == head,
{
    lemma_contains_char(head, separator);
    lemma_before_first(head, separator, tail);
}

/// What is stripped from the front is in front of what is left, and only there.
pub proof fn lemma_strip_prefix(s: Seq<char>, prefix: Seq<char>, rest: Seq<char>)
    ensures
        strip_prefix(s, prefix) == Some(rest) <==> s == prefix + rest,
{
    if s == prefix + rest {
        assert(s.take(prefix.len() as int) =~= prefix);
        assert(s.skip(prefix.len() as int) =~= rest);
    }
    if strip_prefix(s, prefix) == Some(rest) {
        assert(s =~= s.take(prefix.len() as int) + s.skip(prefix.len() as int));
    }
}

/// A text without line feed is one line, where it is not empty; the empty text has no line.
pub proof fn lemma_last_line(row: Seq<char>)
    requires
        !row.contains('\n'),
    ensures
        lines(row) == (if row.len() == 0 {
            Seq::<Seq<char>>::empty()
        } else {
            seq![row]
        }),
{
    lemma_contains_char(row, '\n');
}

/// A line ends at a line feed, and what follows makes the other lines. A carriage return
/// right before the line feed belongs to neither.
pub proof fn lemma_first_line(row: Seq<char>, rest: Seq<char>)
    requires
        !row.contains('\n'),
        row.len() == 0 || row.last() != '\r',
    ensures
        lines(row + seq!['\n'] + rest) == seq![row] + lines(rest),
        lines(row + seq!['\r', '\n'] + rest) == seq![row] + lines(rest),
{
    let feed = seq!['\n'];
    lemma_line_step(row, rest);
    let longer = row.push('\r');
    assert forall|i: int| 0 <= i < longer.len() implies longer[i] != '\n' by {
        if i < row.len() {
            assert(row.contains(row[i]));
        }
    }
    lemma_line_step(longer, rest);
    assert(longer.drop_last() =~= row);
    assert(row + seq!['\r', '\n'] + rest =~= longer + feed + rest);
}

/// The text up to a line feed is the first line, but for a carriage return at its end.
proof fn lemma_line_step(row: Seq<char>, rest: Seq<char>)
    requires
        !row.contains('\n'),
    ensures
        lines(row + seq!['\n'] + rest) == seq![strip_cr(row)] + lines(rest),
{
    let feed = seq!['\n'];
    let all = row + feed + rest;
    assert forall|j: int| #[trigger] occurs_at(row + feed, feed, j) implies j >= row.len() by {
        lemma_occurs_char(row + feed, '\n', j);
        if j < row.len() {
            assert(row.contains(row[j]));
        }
    }
    lemma_find_behind(row, feed, rest);
    assert(all.take(row.len() as int) =~= row);
    assert(all.skip(row.len() as int + 1) =~= rest);
}

/// Lower case keeps the length of a text, makes small letters of the capital ones of ASCII
/// and leaves every other character.
pub proof fn lemma_lower_by_character(s: Seq<char>, i: int)
    requires
        0 <= i < s.len(),
    ensures
        ascii_lower(s).len() == s.len(),
        'A' <= s[i] <= 'Z' ==> ascii_lower(s)[i] as u32 == s[i] as u32 + 32,
        !('A' <= s[i] <= 'Z') ==> ascii_lower(s)[i] == s[i],
{
}

/// The part of a line before the bytes of its first part is that part; the offset stands
/// between two characters. Of a line that is shorter it is all.
pub proof fn lemma_before_offset(head: Seq<char>, tail: Seq<char>, col: int)
    ensures
        before_offset(head + tail, encode_utf8(head).len() as int) == head,
        on_boundary(head + tail, encode_utf8(head).len() as int),
        col > encode_utf8(head).len() ==> before_offset(head, col) == head,
{
    let line = head + tail;
    let n = head.len() as int;
    let at = encode_utf8(head).len() as int;
    assert(line.take(n) =~= head);
    assert(splits_at(line, at, n));
    lemma_prefix_grows(line, n, line.len() as int);
    assert(line.take(line.len() as int) =~= line);
    let k = choose|k: int| splits_at(line, at, k);
    lemma_split_unique(line, at, n, k);
}

/// Lower case keeps white space, and what is in lower case.
proof fn lemma_lower_char(c: char)
    ensures
        is_white_space(lower_char(c)) == is_white_space(c),
        lower_char(lower_char(c)) == lower_char(c),
{
}

/// Lower case before and after is lower case once.
pub proof fn lemma_lower_twice(s: Seq<char>)
    ensures
        ascii_lower(ascii_lower(s)) == ascii_lower(s),
{
    assert forall|i: int| 0 <= i < s.len() implies ascii_lower(ascii_lower(s))[i] == ascii_lower(
        s,
    )[i] by {
        lemma_lower_char(s[i]);
    }
    assert(ascii_lower(ascii_lower(s)) =~= ascii_lower(s));
}

/// Trimming the start and lower case commute.
proof fn lemma_lower_trim_start(s: Seq<char>)
    ensures
        trim_start(ascii_lower(s)) == ascii_lower(trim_start(s)),
    decreases s.len(),
{
    if s.len() > 0 {
        lemma_lower_char(s[0]);
        if is_white_space(s[0]) {
            lemma_lower_trim_start(s.skip(1));
            assert(ascii_lower(s).skip(1) =~= ascii_lower(s.skip(1)));
        }
    }
}

/// Trimming the end and lower case commute.
proof fn lemma_lower_trim_end(s: Seq<char>)
    ensures
        trim_end(ascii_lower(s)) == ascii_lower(trim_end(s)),
    decreases s.len(),
{
    if s.len() > 0 {
        lemma_lower_char(s.last());
        if is_white_space(s.last()) {
            lemma_lower_trim_end(s.drop_last());
            assert(ascii_lower(s).drop_last() =~= ascii_lower(s.drop_last()));
        }
    }
}

/// Trimming and lower case commute.
pub proof fn lemma_lower_trim(s: Seq<char>)
    ensures
        trim(ascii_lower(s)) == ascii_lower(trim(s)),
{
    lemma_lower_trim_start(s);
    lemma_lower_trim_end(trim_start(s));
}

/// What stands before a separator that is no letter, and lower case, commute.
pub proof fn lemma_lower_before_first(s: Seq<char>, separator: char)
    requires
        !('A' <= separator <= 'Z'),
        !('a' <= separator <= 'z'),
    ensures
        before_first(ascii_lower(s), separator) == ascii_lower(before_first(s, separator)),
{
    let pattern = seq![separator];
    let lower = ascii_lower(s);
    assert forall|i: int| occurs_at(lower, pattern, i) == occurs_at(s, pattern, i) by {
        if 0 <= i < s.len() {
            assert(lower.subrange(i, i + 1)[0] == lower_char(s[i]));
            assert(s.subrange(i, i + 1)[0] == s[i]);
            if s[i] == separator {
                assert(lower.subrange(i, i + 1) =~= pattern);
                assert(s.subrange(i, i + 1) =~= pattern);
            }
        }
    }
    lemma_found(s, pattern);
    lemma_found(lower, pattern);
    match find(s, pattern) {
        Some(i) => {
            assert(occurs_at(lower, pattern, i));
            assert(first_occurrence(lower, pattern, i));
            lemma_find(lower, pattern, i);
            assert(lower.take(i) =~= ascii_lower(s.take(i)));
        },
        None => {
            if contains(lower, pattern) {
                let i = choose|i: int| #[trigger] occurs_at(lower, pattern, i);
                assert(occurs_at(s, pattern, i));
            }
        },
    }
}

/// What stands before the first separator does not depend on what follows it.
pub proof fn lemma_before_first(head: Seq<char>, separator: char, tail: Seq<char>)
    ensures
        before_first(head + seq![separator] + tail, separator) == before_first(head, separator),
{
    let pattern = seq![separator];
    let all = head + pattern + tail;
    if contains(head, pattern) {
        lemma_found(head, pattern);
        let i = find(head, pattern)->0;
        assert(all.subrange(i, i + 1) =~= head.subrange(i, i + 1));
        assert forall|j: int| #[trigger] occurs_at(all, pattern, j) implies i <= j by {
            if j < i {
                assert(head.subrange(j, j + 1) =~= all.subrange(j, j + 1));
                assert(occurs_at(head, pattern, j));
            }
        }
        assert(first_occurrence(all, pattern, i));
        lemma_find(all, pattern, i);
        assert(all.take(i) =~= head.take(i));
    } else {
        let i = head.len() as int;
        assert(all.subrange(i, i + 1) =~= pattern);
        assert forall|j: int| #[trigger] occurs_at(all, pattern, j) implies i <= j by {
            if j < i {
                assert(head.subrange(j, j + 1) =~= all.subrange(j, j + 1));
                assert(occurs_at(head, pattern, j));
            }
        }
        assert(first_occurrence(all, pattern, i));
        lemma_find(all, pattern, i);
        assert(all.take(i) =~= head);
    }
}

/// The encoding of two texts in a row is that of the one, then that of the other.
pub proof fn lemma_encode_concat(a: Seq<char>, b: Seq<char>)
    ensures
        encode_utf8(a + b) == encode_utf8(a) + encode_utf8(b),
    decreases a.len(),
{
    if a.len() == 0 {
        assert(a + b =~= b);
    } else {
        lemma_encode_concat(a.drop_first(), b);
        assert((a + b).drop_first() =~= a.drop_first() + b);
        assert(encode_utf8(a + b) =~= encode_utf8(a) + encode_utf8(b));
    }
}

/// One character more makes a prefix longer by the bytes of that character.
proof fn lemma_prefix_step(line: Seq<char>, k: int)
    requires
        0 <= k < line.len(),
    ensures
        byte_len(line.take(k + 1)) == byte_len(line.take(k)) + encode_scalar(line[k] as u32).len(),
        encode_scalar(line[k] as u32).len() > 0,
{
    let one = seq![line[k]];
    assert(line.take(k + 1) =~= line.take(k) + one);
    lemma_encode_concat(line.take(k), one);
    assert(one.drop_first() =~= Seq::<char>::empty());
    assert(encode_utf8(one) =~= encode_scalar(line[k] as u32)) by {
        reveal_with_fuel(encode_utf8, 2);
    }
}

/// Longer prefixes take up more bytes.
proof fn lemma_prefix_grows(line: Seq<char>, j: int, k: int)
    requires
        0 <= j <= k <= line.len(),
    ensures
        byte_len(line.take(j)) <= byte_len(line.take(k)),
        j < k ==> byte_len(line.take(j)) < byte_len(line.take(k)),
    decreases k - j,
{
    if j < k {
        lemma_prefix_step(line, k - 1);
        lemma_prefix_grows(line, j, k - 1);
    }
}

/// At most one number of characters takes up a given number of bytes.
pub proof fn lemma_split_unique(line: Seq<char>, col: int, j: int, k: int)
    requires
        splits_at(line, col, j),
        splits_at(line, col, k),
    ensures
        j == k,
{
    if j < k {
        lemma_prefix_grows(line, j, k);
    } else {
        lemma_prefix_grows(line, k, j);
    }
}

/// The characters of a string.
pub fn chars_of(s: &str) -> (r: Vec<char>)
    ensures
        r@ == s@,
{
    let mut out: Vec<char> = Vec::new();
    for c in it: s.chars()
        invariant
            out@ == it.seq().take(it.index() as int),
            it.seq() == s@,
    {
        out.push(c);
        assert(it.seq().take(it.index() + 1) =~= it.seq().take(it.index() as int).push(c));
    }
    assert(s@.take(s@.len() as int) =~= s@);
    out
}

/// The string of a slice of characters.
pub fn string_of(s: &[char]) -> (r: String)
    ensures
        r@ == s@,
{
    let mut out: String = String::new();
    let mut i: usize = 0;
    while i < s.len()
        invariant
            i <= s@.len(),
            out@ == s@.take(i as int),
        decreases s@.len() - i,
    {
        out.push(s[i]);
        i += 1;
        assert(s@.take(i as int) =~= s@.take(i - 1).push(s@[i - 1]));
    }
    assert(s@.take(s@.len() as int) =~= s@);
    out
}

/// Whether the two slices hold the same characters.
pub fn same_chars(a: &[char], b: &[char]) -> (r: bool)
    ensures
        r == (a@ == b@),
{
    if a.len() != b.len() {
        return false;
    }
    let mut i: usize = 0;
    while i < a.len()
        invariant
            i <= a@.len(),
            a@.len() == b@.len(),
            a@.take(i as int) == b@.take(i as int),
        decreases a@.len() - i,
    {
        if a[i] != b[i] {
            assert(a@[i as int] != b@[i as int]);
            return false;
        }
        i += 1;
        assert(a@.take(i as int) =~= a@.take(i - 1).push(a@[i - 1]));
        assert(b@.take(i as int) =~= b@.take(i - 1).push(b@[i - 1]));
    }
    assert(a@.take(a@.len() as int) =~= a@);
    assert(b@.take(b@.len() as int) =~= b@);
    true
}

/// Whether the two strings hold the same text.
pub fn same_text(a: &str, b: &str) -> (r: bool)
    ensures
        r == (a@ == b@),
{
    let left = chars_of(a);
    let right = chars_of(b);
    same_chars(left.as_slice(), right.as_slice())
}

/// Whether a character is white space.
pub fn white_space(c: char) -> (r: bool)
    ensures
        r == is_white_space(c),
{
    let code: u32 = c as u32;
    (0x09 <= code && code <= 0x0d) || code == 0x20 || code == 0x85 || code == 0xa0 || code == 0x1680
        || (0x2000 <= code && code <= 0x200a) || code == 0x2028 || code == 0x2029 || code == 0x202f
        || code == 0x205f || code == 0x3000
}

/// The slice without leading and trailing white space.
pub fn trimmed<'a>(s: &'a [char]) -> (r: &'a [char])
    ensures
        r@ == trim(s@),
{
    let mut lo: usize = 0;
    assert(s@.skip(0) =~= s@);
    while lo < s.len() && white_space(s[lo])
        invariant
            lo <= s@.len(),
            trim_start(s@.skip(lo as int)) == trim_start(s@),
        decreases s@.len() - lo,
    {
        assert(s@.skip(lo as int).skip(1) =~= s@.skip(lo + 1));
        lo += 1;
    }
    let mut hi: usize = s.len();
    assert(s@.skip(lo as int) =~= s@.subrange(lo as int, hi as int));
    while hi > lo && white_space(s[hi - 1])
        invariant
            lo <= hi <= s@.len(),
            trim_end(s@.subrange(lo as int, hi as int)) == trim(s@),
        decreases hi,
    {
        assert(s@.subrange(lo as int, hi as int).drop_last() =~= s@.subrange(lo as int, hi - 1));
        hi -= 1;
    }
    slice_subrange(s, lo, hi)
}

/// Whether `pattern` stands in the slice at index `i`.
fn matches_at(s: &[char], pattern: &[char], i: usize) -> (r: bool)
    requires
        i <= s@.len(),
    ensures
        r == occurs_at(s@, pattern@, i as int),
{
    if pattern.len() > s.len() - i {
        return false;
    }
    same_chars(slice_subrange(s, i, i + pattern.len()), pattern)
}

/// The index at which `pattern` first stands in the slice.
pub fn find_in(s: &[char], pattern: &[char]) -> (r: Option<usize>)
    ensures
        find(s@, pattern@) == (match r {
            Some(i) => Some(i as int),
            None => None::<int>,
        }),
        r matches Some(i) ==> first_occurrence(s@, pattern@, i as int),
{
    let mut i: usize = 0;
    loop
        invariant
            i <= s@.len(),
            forall|j: int| #[trigger] occurs_at(s@, pattern@, j) ==> i <= j,
        decreases s@.len() - i,
    {
        if matches_at(s, pattern, i) {
            proof {
                lemma_find(s@, pattern@, i as int);
            }
            return Some(i);
        }
        if i == s.len() {
            return None;
        }
        i += 1;
    }
}

/// The index at which `pattern` last stands in the slice.
pub fn rfind_in(s: &[char], pattern: &[char]) -> (r: Option<usize>)
    ensures
        rfind(s@, pattern@) == (match r {
            Some(i) => Some(i as int),
            None => None::<int>,
        }),
        r matches Some(i) ==> last_occurrence(s@, pattern@, i as int),
{
    let mut i: usize = s.len();
    loop
        invariant
            i <= s@.len(),
            forall|j: int| #[trigger] occurs_at(s@, pattern@, j) ==> j <= i,
        decreases i,
    {
        if matches_at(s, pattern, i) {
            proof {
                lemma_rfind(s@, pattern@, i as int);
            }
            return Some(i);
        }
        if i == 0 {
            return None;
        }
        i -= 1;
    }
}

/// Whether `pattern` stands somewhere in the slice.
pub fn contains_in(s: &[char], pattern: &[char]) -> (r: bool)
    ensures
        r == contains(s@, pattern@),
{
    find_in(s, pattern).is_some()
}

/// What stands before the first `separator`.
pub fn head_of<'a>(s: &'a [char], separator: char) -> (r: &'a [char])
    ensures
        r@ == before_first(s@, separator),
{
    let pattern: Vec<char> = vec![separator];
    assert(pattern@ =~= seq![separator]);
    match find_in(s, pattern.as_slice()) {
        Some(i) => slice_subrange(s, 0, i),
        None => s,
    }
}

/// Whether the slice starts with `prefix`.
pub fn starts_with_in(s: &[char], prefix: &[char]) -> (r: bool)
    ensures
        r == prefix@.is_prefix_of(s@),
{
    let r = matches_at(s, prefix, 0);
    assert(s@.subrange(0, prefix@.len() as int) =~= s@.take(prefix@.len() as int) || !r
        && prefix@.len() > s@.len());
    r
}

/// Whether the slice ends with `suffix`.
pub fn ends_with_in(s: &[char], suffix: &[char]) -> (r: bool)
    ensures
        r == suffix@.is_suffix_of(s@),
{
    if suffix.len() > s.len() {
        return false;
    }
    matches_at(s, suffix, s.len() - suffix.len())
}

/// What follows `prefix`, where the slice starts with it.
pub fn after_prefix<'a>(s: &'a [char], prefix: &[char]) -> (r: Option<&'a [char]>)
    ensures
        strip_prefix(s@, prefix@) == (match r {
            Some(rest) => Some(rest@),
            None => None::<Seq<char>>,
        }),
{
    if starts_with_in(s, prefix) {
        let rest = slice_subrange(s, prefix.len(), s.len());
        assert(rest@ =~= s@.skip(prefix@.len() as int));
        Some(rest)
    } else {
        None
    }
}

/// The ASCII lower-case form of the slice.
pub fn lowered(s: &[char]) -> (r: Vec<char>)
    ensures
        r@ == ascii_lower(s@),
{
    let mut out: Vec<char> = Vec::new();
    let mut i: usize = 0;
    while i < s.len()
        invariant
            i <= s@.len(),
            out@ == ascii_lower(s@.take(i as int)),
        decreases s@.len() - i,
    {
        let c: char = s[i];
        if 'A' <= c && c <= 'Z' {
            out.push((c as u8 + 32) as char);
        } else {
            out.push(c);
        }
        i += 1;
        assert(out@ =~= ascii_lower(s@.take(i as int)));
    }
    assert(s@.take(s@.len() as int) =~= s@);
    out
}

/// Whether the two strings are equal up to the case of ASCII letters.
pub fn equal_ignoring_case(a: &str, b: &str) -> (r: bool)
    ensures
        r == same_ignoring_case(a@, b@),
{
    let left = lowered(chars_of(a).as_slice());
    let right = lowered(chars_of(b).as_slice());
    same_chars(left.as_slice(), right.as_slice())
}

/// The lines of a text.
pub fn lines_of(s: &str) -> (r: Vec<Vec<char>>)
    ensures
        char_texts(r@) == lines(s@),
{
    let chars = chars_of(s);
    let all = chars.as_slice();
    let feed: Vec<char> = vec!['\n'];
    assert(feed@ =~= seq!['\n']);
    let mut out: Vec<Vec<char>> = Vec::new();
    let mut pos: usize = 0;
    assert(all@.skip(0) =~= all@);
    assert(char_texts(out@) + lines(s@) =~= lines(s@));
    while pos < all.len()
        invariant
            pos <= all@.len(),
            all@ == s@,
            feed@ == seq!['\n'],
            char_texts(out@) + lines(all@.skip(pos as int)) == lines(s@),
        decreases all@.len() - pos,
    {
        let rest = slice_subrange(all, pos, all.len());
        assert(rest@ =~= all@.skip(pos as int));
        let ghost before = out@;
        match find_in(rest, feed.as_slice()) {
            Some(i) => {
                let hi: usize = if i > 0 && rest[i - 1] == '\r' {
                    i - 1
                } else {
                    i
                };
                let line = slice_subrange(rest, 0, hi);
                assert(line@ =~= strip_cr(rest@.take(i as int)));
                out.push(vstd::slice::slice_to_vec(line));
                pos = pos + i + 1;
                assert(rest@.skip(i + 1) =~= all@.skip(pos as int));
                assert(char_texts(out@) =~= char_texts(before).push(line@));
                assert(char_texts(out@) + lines(all@.skip(pos as int)) =~= char_texts(before) + (
                seq![line@] + lines(all@.skip(pos as int))));
            },
            None => {
                out.push(vstd::slice::slice_to_vec(rest));
                pos = all.len();
                assert(all@.skip(pos as int) =~= Seq::<char>::empty());
                assert(char_texts(out@) =~= char_texts(before).push(rest@));
                assert(char_texts(out@) + lines(all@.skip(pos as int)) =~= char_texts(before)
                    + seq![rest@]);
            },
        }
    }
    assert(all@.skip(pos as int) =~= Seq::<char>::empty());
    assert(char_texts(out@) + lines(all@.skip(pos as int)) =~= char_texts(out@));
    out
}

/// The number of bytes that a character takes up in UTF-8.
fn char_width(c: char) -> (r: usize)
    ensures
        r == encode_scalar(c as u32).len(),
        1 <= r <= 4,
{
    proof {
        char_is_scalar(c);
    }
    let code: u32 = c as u32;
    if code <= 0x7f {
        1
    } else if code <= 0x7ff {
        2
    } else if code <= 0xffff {
        3
    } else {
        4
    }
}

/// The number of bytes of the UTF-8 encoding of the characters.
pub fn bytes_of(s: &[char]) -> (r: usize)
    ensures
        r == byte_len(s@),
{
    string_of(s).as_str().as_bytes().len()
}

/// The number of characters of `line` before the byte offset `col`: `None` where
/// the offset falls inside a character, all of them where the line is shorter.
pub fn chars_before(line: &[char], col: usize) -> (r: Option<usize>)
    ensures
        match r {
            Some(k) => {
                &&& k <= line@.len()
                &&& col <= byte_len(line@) ==> on_boundary(line@, col as int)
                &&& before_offset(line@, col as int) == line@.take(k as int)
            },
            None => col <= byte_len(line@) && !on_boundary(line@, col as int),
        },
{
    let mut i: usize = 0;
    let mut left: usize = col;
    assert(line@.take(0) =~= Seq::<char>::empty());
    while i < line.len() && char_width(line[i]) <= left
        invariant
            i <= line@.len(),
            left <= col,
            byte_len(line@.take(i as int)) + left == col,
        decreases line@.len() - i,
    {
        proof {
            lemma_prefix_step(line@, i as int);
        }
        left = left - char_width(line[i]);
        i += 1;
    }
    assert(line@.take(line@.len() as int) =~= line@);
    if left == 0 {
        proof {
            assert(splits_at(line@, col as int, i as int));
            lemma_prefix_grows(line@, i as int, line@.len() as int);
            let k = choose|k: int| splits_at(line@, col as int, k);
            lemma_split_unique(line@, col as int, i as int, k);
        }
        Some(i)
    } else if i == line.len() {
        Some(i)
    } else {
        proof {
            lemma_prefix_step(line@, i as int);
            lemma_prefix_grows(line@, i + 1, line@.len() as int);
            assert forall|k: int| !#[trigger] splits_at(line@, col as int, k) by {
                if 0 <= k <= i {
                    lemma_prefix_grows(line@, k, i as int);
                } else if i < k <= line@.len() {
                    lemma_prefix_grows(line@, i + 1, k);
                }
            }
        }
        None
    }
}

} // verus!
