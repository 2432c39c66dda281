//! What stands under the cursor: `{{ }}` references and where their names are defined.

use vstd::prelude::*;
use vstd::slice::slice_subrange;
use vstd::utf8::encode_utf8;

use crate::protocol::Position;
use crate::text::{
    after_prefix, before_offset, byte_len, char_texts, chars_before, chars_of, contains,
    contains_in, find, find_in, is_blank, is_clean, is_white_space, lemma_before_offset,
    lemma_find_behind, lemma_find_divides, lemma_occurs_char, lemma_rfind_before,
    lemma_rfind_divides, lemma_strip_prefix, lemma_trim_clean, lemma_trim_end_keeps,
    lemma_trim_padded, lemma_trim_start_of_padded, lines, lines_of, occurs_at, on_boundary,
    opt_text, rfind, rfind_in, same_chars, splits_at, string_of, strip_prefix, trim, trimmed,
};

verus! {

/// The cursor stands outside the text, or between two characters of it.
pub open spec fn cursor_fits(text: Seq<char>, position: Position) -> bool {
    position.line < lines(text).len() ==> line_fits(
        lines(text)[position.line as int],
        position.character as int,
    )
}

/// The byte offset `col` stands behind the line, or between two characters of it.
pub open spec fn line_fits(line: Seq<char>, col: int) -> bool {
    col <= byte_len(line) ==> on_boundary(line, col)
}

/// A cursor fits between any two characters of a line, at its ends, behind it and in a line
/// that the text does not have; inside a character it does not.
pub proof fn lemma_cursor_fits_between_characters(
    text: Seq<char>,
    position: Position,
    before: Seq<char>,
    after: Seq<char>,
)
    ensures
        position.line >= lines(text).len() ==> cursor_fits(text, position),
        position.line < lines(text).len() && position.character > encode_utf8(
            lines(text)[position.line as int],
        ).len() ==> cursor_fits(text, position),
        position.line < lines(text).len() && lines(text)[position.line as int] == before + after
            && position.character == encode_utf8(before).len() ==> cursor_fits(text, position),
        cursor_fits(text, position) && position.line < lines(text).len() && position.character
            <= encode_utf8(lines(text)[position.line as int]).len() ==> exists|k: int|
            0 <= k <= lines(text)[position.line as int].len() && encode_utf8(
                #[trigger] lines(text)[position.line as int].take(k),
            ).len() == position.character,
{
    if position.line < lines(text).len() {
        let line = lines(text)[position.line as int];
        if line == before + after {
            lemma_before_offset(before, after, 0);
        }
        if cursor_fits(text, position) && position.character <= encode_utf8(line).len() {
            let k = choose|k: int| #[trigger] splits_at(line, position.character as int, k);
            assert(encode_utf8(line.take(k)).len() == position.character);
        }
    }
}

/// The name in the `{{ }}` reference of `line` in which the byte offset `col` stands, opened
/// before it and not closed before it: neither empty nor that of a system variable.
pub open spec fn name_in_line(line: Seq<char>, col: int) -> Option<Seq<char>> {
    let before = before_offset(line, col);
    match rfind(before, "{{"@) {
        Some(open) => if contains(before.skip(open + 2), "}}"@) {
            None
        } else {
            let inside = line.skip(open + 2);
            match find(inside, "}}"@) {
                Some(close) => {
                    let name = trim(inside.take(close));
                    if name.len() == 0 || name[0] == '$' {
                        None
                    } else {
                        Some(name)
                    }
                },
                None => None,
            }
        },
        None => None,
    }
}

/// The name in the reference in which the cursor stands.
pub open spec fn variable_at(text: Seq<char>, position: Position) -> Option<Seq<char>> {
    if position.line < lines(text).len() {
        name_in_line(lines(text)[position.line as int], position.character as int)
    } else {
        None
    }
}

/// What is typed of a name in a `{{` reference of `line` that is still open at the byte
/// offset `col`.
pub open spec fn prefix_in_line(line: Seq<char>, col: int) -> Option<Seq<char>> {
    let before = before_offset(line, col);
    match rfind(before, "{{"@) {
        Some(open) => {
            let inside = before.skip(open + 2);
            if contains(inside, "}}"@) {
                None
            } else {
                Some(trim(inside))
            }
        },
        None => None,
    }
}

/// What is typed of a name in the reference that is open at the cursor.
pub open spec fn prefix_at(text: Seq<char>, position: Position) -> Option<Seq<char>> {
    if position.line < lines(text).len() {
        prefix_in_line(lines(text)[position.line as int], position.character as int)
    } else {
        None
    }
}

/// The name that a line like `# @name login` gives to a request.
pub open spec fn annotated_name(line: Seq<char>) -> Option<Seq<char>> {
    match strip_prefix(trim(line), "#"@) {
        Some(comment) => match strip_prefix(trim(comment), "@name"@) {
            Some(name) => Some(trim(name)),
            None => None,
        },
        None => None,
    }
}

/// The variable that a line like `@host = example.com` declares.
pub open spec fn declared_variable(line: Seq<char>) -> Option<Seq<char>> {
    match strip_prefix(trim(line), "@"@) {
        Some(declaration) => match find(declaration, "="@) {
            Some(i) => Some(trim(declaration.take(i))),
            None => None,
        },
        None => None,
    }
}

/// `line` is the first of `rows` that names a request `name`.
pub open spec fn first_annotation(rows: Seq<Seq<char>>, name: Seq<char>, line: int) -> bool {
    &&& 0 <= line < rows.len()
    &&& annotated_name(rows[line]) == Some(name)
    &&& forall|i: int| 0 <= i < line ==> annotated_name(#[trigger] rows[i]) != Some(name)
}

/// `line` is the first of `rows` that declares a variable `name`.
pub open spec fn first_declaration(rows: Seq<Seq<char>>, name: Seq<char>, line: int) -> bool {
    &&& 0 <= line < rows.len()
    &&& declared_variable(rows[line]) == Some(name)
    &&& forall|i: int| 0 <= i < line ==> declared_variable(#[trigger] rows[i]) != Some(name)
}

/// None of `rows` names a request `name`.
pub open spec fn not_annotated(rows: Seq<Seq<char>>, name: Seq<char>) -> bool {
    forall|i: int| 0 <= i < rows.len() ==> annotated_name(#[trigger] rows[i]) != Some(name)
}

/// None of `rows` declares a variable `name`.
pub open spec fn not_declared(rows: Seq<Seq<char>>, name: Seq<char>) -> bool {
    forall|i: int| 0 <= i < rows.len() ==> declared_variable(#[trigger] rows[i]) != Some(name)
}

/// `name` is defined in `line`: the first line that names a request so, or, where there
/// is none, the first that declares a variable of that name.
pub open spec fn defined_in(rows: Seq<Seq<char>>, name: Seq<char>, line: int) -> bool {
    ||| first_annotation(rows, name, line)
    ||| not_annotated(rows, name) && first_declaration(rows, name, line)
}

/// A name is defined in at most one line.
pub proof fn lemma_definition_unique(rows: Seq<Seq<char>>, name: Seq<char>, i: int, j: int)
    requires
        defined_in(rows, name, i),
        defined_in(rows, name, j),
    ensures
        i == j,
{
    if first_annotation(rows, name, i) {
        assert(annotated_name(rows[i]) == Some(name));
        if i < j {
            assert(annotated_name(rows[i]) != Some(name));
        }
    } else if i < j {
        assert(declared_variable(rows[i]) == Some(name));
    }
}

/// The name of a request takes precedence over a variable of the same name.
pub proof fn lemma_annotation_precedes_declaration(
    rows: Seq<Seq<char>>,
    name: Seq<char>,
    annotation: int,
    line: int,
)
    requires
        first_annotation(rows, name, annotation),
        defined_in(rows, name, line),
    ensures
        line == annotation,
{
    assert(defined_in(rows, name, annotation));
    lemma_definition_unique(rows, name, annotation, line);
}

/// The name under the cursor is not empty, has no white space at its ends and does not
/// start with a dollar sign.
pub proof fn lemma_variable_is_clean(text: Seq<char>, position: Position)
    requires
        variable_at(text, position) is Some,
    ensures
        variable_at(text, position)->0.len() > 0,
        variable_at(text, position)->0[0] != '$',
        !is_white_space(variable_at(text, position)->0[0]),
        !is_white_space(variable_at(text, position)->0.last()),
{
    let line = lines(text)[position.line as int];
    let open = rfind(before_offset(line, position.character as int), "{{"@)->0;
    let inside = line.skip(open + 2);
    let content = inside.take(find(inside, "}}"@)->0);
    lemma_trim_clean(content);
}

/// An opening in front of a text without opening braces is the last one.
proof fn lemma_opening_is_last(head: Seq<char>, tail: Seq<char>)
    requires
        !tail.contains('{'),
    ensures
        rfind(head + "{{"@ + tail, "{{"@) == Some(head.len() as int),
{
    reveal_strlit("{{");
    let rest = "{{"@ + tail;
    assert forall|j: int| #[trigger] occurs_at(rest, "{{"@, j) implies j <= 0 by {
        assert(rest.subrange(j, j + 2)[1] == rest[j + 1]);
        assert("{{"@[1] == '{');
        if j > 0 {
            assert(rest[j + 1] == tail[j - 1]);
            assert(tail.contains(tail[j - 1]));
        }
    }
    lemma_rfind_before(head, "{{"@, tail);
}

/// A closing behind a text without closing braces is the first one.
proof fn lemma_closing_is_first(head: Seq<char>, tail: Seq<char>)
    requires
        !head.contains('}'),
    ensures
        find(head + "}}"@ + tail, "}}"@) == Some(head.len() as int),
{
    reveal_strlit("}}");
    let start = head + "}}"@;
    assert forall|j: int| #[trigger] occurs_at(start, "}}"@, j) implies j >= head.len() by {
        assert(start.subrange(j, j + 2)[0] == start[j]);
        assert("}}"@[0] == '}');
        if 0 <= j < head.len() {
            assert(head.contains(head[j]));
        }
    }
    lemma_find_behind(head, "}}"@, tail);
}

/// One closing brace at the end of a text without others closes nothing.
proof fn lemma_half_closing(inner: Seq<char>, k: int)
    requires
        !inner.contains('}'),
        0 <= k <= inner.len() + 1,
    ensures
        !contains(inner.push('}').take(k), "}}"@),
{
    reveal_strlit("}}");
    let typed = inner.push('}').take(k);
    if contains(typed, "}}"@) {
        let i = choose|i: int| #[trigger] occurs_at(typed, "}}"@, i);
        assert(typed.subrange(i, i + 2)[0] == typed[i]);
        assert("}}"@[0] == '}');
        assert(inner.contains(inner[i]));
    }
}

/// The name in a reference is under the cursor wherever in the reference the cursor stands,
/// behind its opening and up to between its two closing braces, whatever stands before and
/// behind the reference and in the other lines. White space around the name does not matter.
/// In such a place, what is typed so far can be completed, too.
pub proof fn lemma_reference_is_under_the_cursor(
    text: Seq<char>,
    position: Position,
    before: Seq<char>,
    left: Seq<char>,
    name: Seq<char>,
    right: Seq<char>,
    after: Seq<char>,
    k: int,
)
    requires
        is_blank(left),
        is_clean(name),
        is_blank(right),
        !name.contains('{'),
        !name.contains('}'),
        position.line < lines(text).len(),
        lines(text)[position.line as int] == before + "{{"@ + (left + name + right) + "}}"@ + after,
        0 <= k <= (left + name + right).len() + 1,
        position.character == encode_utf8(
            before + "{{"@ + (left + name + right).push('}').take(k),
        ).len(),
    ensures
        cursor_fits(text, position),
        variable_at(text, position) == (if name[0] == '$' {
            None
        } else {
            Some(name)
        }),
        prefix_at(text, position) == Some(trim((left + name + right).push('}').take(k))),
{
    reveal_strlit("{{");
    reveal_strlit("}}");
    let inner = left + name + right;
    let line = lines(text)[position.line as int];
    let typed = inner.push('}').take(k);
    let start = before + "{{"@ + typed;
    let open = before.len() as int;
    lemma_no_braces(left, name, right);
    let whole = inner + "}}"@ + after;
    assert(typed =~= whole.take(k));
    assert(line =~= start + whole.skip(k));
    lemma_before_offset(start, whole.skip(k), 0);
    assert forall|j: int| 0 <= j < typed.len() implies typed[j] != '{' by {
        if j < inner.len() {
            assert(inner.contains(inner[j]));
        }
    }
    lemma_opening_is_last(before, typed);
    assert(start.skip(open + 2) =~= typed);
    lemma_half_closing(inner, k);
    assert(line.skip(open + 2) =~= whole);
    lemma_closing_is_first(inner, after);
    assert(whole.take(inner.len() as int) =~= inner);
    lemma_trim_padded(left, name, right);
}

/// Whatever stands in a line, what counts is the last opening before the cursor: where no
/// closing stands between it and the cursor, what is typed behind it can be completed, and what
/// stands behind it up to the first closing is the name under the cursor, unless that is
/// nothing or starts with a dollar sign; otherwise there is neither.
pub proof fn lemma_last_opening_counts(
    text: Seq<char>,
    position: Position,
    before: Seq<char>,
    typed: Seq<char>,
    behind: Seq<char>,
    inner: Seq<char>,
    after: Seq<char>,
)
    requires
        position.line < lines(text).len(),
        lines(text)[position.line as int] == before + "{{"@ + typed + behind,
        position.character == encode_utf8(before + "{{"@ + typed).len(),
        forall|j: int| #[trigger] occurs_at("{{"@ + typed, "{{"@, j) ==> j <= 0,
    ensures
        contains(typed, "}}"@) ==> variable_at(text, position) is None && prefix_at(
            text,
            position,
        ) is None,
        !contains(typed, "}}"@) ==> prefix_at(text, position) == Some(trim(typed)),
        !contains(typed + behind, "}}"@) ==> variable_at(text, position) is None,
        !contains(typed, "}}"@) && typed + behind == inner + "}}"@ + after && (forall|j: int|
            #[trigger] occurs_at(inner + "}}"@, "}}"@, j) ==> j >= inner.len()) ==> variable_at(
            text,
            position,
        ) == (if trim(inner).len() == 0 || trim(inner)[0] == '$' {
            None
        } else {
            Some(trim(inner))
        }),
{
    reveal_strlit("{{");
    reveal_strlit("}}");
    let start = before + "{{"@ + typed;
    let line = lines(text)[position.line as int];
    let open = before.len() as int;
    lemma_before_offset(start, behind, 0);
    lemma_rfind_before(before, "{{"@, typed);
    assert(start.skip(open + 2) =~= typed);
    assert(line.skip(open + 2) =~= typed + behind);
    if typed + behind == inner + "}}"@ + after && (forall|j: int| #[trigger]
        occurs_at(inner + "}}"@, "}}"@, j) ==> j >= inner.len()) {
        lemma_find_behind(inner, "}}"@, after);
        assert((typed + behind).take(inner.len() as int) =~= inner);
    }
}

/// A name without braces, with white space around it, has no braces.
proof fn lemma_no_braces(left: Seq<char>, name: Seq<char>, right: Seq<char>)
    requires
        is_blank(left),
        is_blank(right),
        !name.contains('{'),
        !name.contains('}'),
    ensures
        !(left + name + right).contains('{'),
        !(left + name + right).contains('}'),
{
    let inner = left + name + right;
    assert forall|j: int| 0 <= j < inner.len() implies inner[j] != '{' && inner[j] != '}' by {
        if j < left.len() {
            assert(is_white_space(left[j]));
            assert(inner[j] == left[j]);
        } else if j < left.len() + name.len() {
            assert(inner[j] == name[j - left.len()]);
            assert(name.contains(name[j - left.len()]));
        } else {
            assert(inner[j] == right[j - left.len() - name.len()]);
            assert(is_white_space(right[j - left.len() - name.len()]));
        }
    }
}

/// No name is under the cursor, and none is completed, before any reference is opened in the
/// line and behind one that is closed; nor in a line that the text does not have.
pub proof fn lemma_nothing_under_the_cursor(
    text: Seq<char>,
    position: Position,
    before: Seq<char>,
    inner: Seq<char>,
    between: Seq<char>,
    after: Seq<char>,
)
    requires
        !inner.contains('{'),
        !between.contains('{'),
    ensures
        position.line >= lines(text).len() ==> variable_at(text, position) is None && prefix_at(
            text,
            position,
        ) is None,
        position.line < lines(text).len() && lines(text)[position.line as int] == before + after
            && position.character == encode_utf8(before).len() && !contains(before, "{{"@)
            ==> variable_at(text, position) is None && prefix_at(text, position) is None,
        position.line < lines(text).len() && lines(text)[position.line as int] == before + "{{"@
            + inner + "}}"@ + between + after && position.character == encode_utf8(
            before + "{{"@ + inner + "}}"@ + between,
        ).len() ==> variable_at(text, position) is None && prefix_at(text, position) is None,
{
    reveal_strlit("{{");
    reveal_strlit("}}");
    if position.line < lines(text).len() {
        let line = lines(text)[position.line as int];
        if line == before + after && position.character == encode_utf8(before).len() {
            lemma_before_offset(before, after, 0);
        }
        let start = before + "{{"@ + inner + "}}"@ + between;
        if line == start + after && position.character == encode_utf8(start).len() {
            lemma_before_offset(start, after, 0);
            let tail = inner + "}}"@ + between;
            assert forall|j: int| 0 <= j < tail.len() implies tail[j] != '{' by {
                if j < inner.len() {
                    assert(inner.contains(inner[j]));
                } else if j >= inner.len() + 2 {
                    assert(tail[j] == between[j - inner.len() - 2]);
                    assert(between.contains(between[j - inner.len() - 2]));
                }
            }
            assert(start =~= before + "{{"@ + tail);
            lemma_opening_is_last(before, tail);
            assert(start.skip(before.len() as int + 2) =~= tail);
            assert(tail.subrange(inner.len() as int, inner.len() as int + 2) =~= "}}"@);
            assert(occurs_at(tail, "}}"@, inner.len() as int));
        }
    }
}

/// The line has a reference with `inner` in it, behind `before` and in front of `after`.
pub open spec fn has_reference(
    line: Seq<char>,
    before: Seq<char>,
    inner: Seq<char>,
    after: Seq<char>,
) -> bool {
    line == before + "{{"@ + inner + "}}"@ + after
}

/// A name that is under the cursor stands there: its line is made of what is before a
/// reference, the reference with the name in it, and what is behind.
pub proof fn lemma_name_stands_in_its_line(text: Seq<char>, position: Position)
    requires
        cursor_fits(text, position),
        variable_at(text, position) is Some,
    ensures
        position.line < lines(text).len(),
        exists|before: Seq<char>, inner: Seq<char>, after: Seq<char>| #[trigger]
            has_reference(lines(text)[position.line as int], before, inner, after) && trim(inner)
                == variable_at(text, position)->0,
{
    reveal_strlit("{{");
    reveal_strlit("}}");
    let line = lines(text)[position.line as int];
    let start = before_offset(line, position.character as int);
    lemma_before_is_prefix(line, position.character as int);
    lemma_rfind_divides(start, "{{"@);
    let open = rfind(start, "{{"@)->0;
    let inside = line.skip(open + 2);
    lemma_find_divides(inside, "}}"@);
    let close = find(inside, "}}"@)->0;
    let before = line.take(open);
    let inner = inside.take(close);
    let after = inside.skip(close + 2);
    assert(start.subrange(open, open + 2) =~= "{{"@);
    assert(line.subrange(open, open + 2) =~= start.subrange(open, open + 2)) by {
        assert(start == line.take(start.len() as int));
    }
    assert(line =~= before + line.subrange(open, open + 2) + inside);
    assert(inside == inner + "}}"@ + after);
    assert(before + "{{"@ + (inner + "}}"@ + after) =~= before + "{{"@ + inner + "}}"@ + after);
    assert(has_reference(line, before, inner, after));
}

/// What stands before an offset is a beginning of the line.
proof fn lemma_before_is_prefix(line: Seq<char>, col: int)
    requires
        line_fits(line, col),
    ensures
        before_offset(line, col).len() <= line.len(),
        line.take(before_offset(line, col).len() as int) == before_offset(line, col),
{
    let start = before_offset(line, col);
    if col <= byte_len(line) {
        let k = choose|k: int| splits_at(line, col, k);
        assert(splits_at(line, col, k));
        assert(start == line.take(k));
    } else {
        assert(line.take(line.len() as int) =~= line);
    }
}

/// A line of the form `# @name login` names a request, with white space wherever it likes and
/// with or without any behind `@name`; the name is all that follows.
pub proof fn lemma_annotation_names_a_request(
    left: Seq<char>,
    middle: Seq<char>,
    gap: Seq<char>,
    name: Seq<char>,
    right: Seq<char>,
)
    requires
        is_blank(left),
        is_blank(middle),
        is_blank(gap),
        is_clean(name),
        is_blank(right),
    ensures
        annotated_name(left + "#"@ + middle + "@name"@ + gap + name + right) == Some(name),
{
    reveal_strlit("#");
    reveal_strlit("@name");
    let line = left + "#"@ + middle + "@name"@ + gap + name + right;
    let core = "#"@ + middle + "@name"@ + gap + name;
    assert(line =~= left + core + right);
    assert(core.last() == name.last());
    lemma_trim_padded(left, core, right);
    let comment = middle + "@name"@ + gap + name;
    lemma_strip_prefix(core, "#"@, comment);
    assert(core =~= "#"@ + comment);
    let content = "@name"@ + gap + name;
    let nothing = Seq::<char>::empty();
    assert(content.last() == name.last());
    assert(comment =~= middle + content + nothing);
    lemma_trim_padded(middle, content, nothing);
    assert(content =~= "@name"@ + (gap + name));
    lemma_strip_prefix(content, "@name"@, gap + name);
    assert(gap + name =~= gap + name + nothing);
    lemma_trim_padded(gap, name, nothing);
}

/// A line of the form `@host = example.com` declares a variable, with white space wherever it
/// likes: the name reaches up to the first equals sign, and the value is any text at all, also
/// one with equals signs in it.
pub proof fn lemma_declaration_declares_its_variable(
    left: Seq<char>,
    gap: Seq<char>,
    name: Seq<char>,
    space: Seq<char>,
    value: Seq<char>,
)
    requires
        is_blank(left),
        is_blank(gap),
        is_clean(name),
        !name.contains('='),
        is_blank(space),
    ensures
        declared_variable(left + "@"@ + gap + name + space + "="@ + value) == Some(name),
{
    reveal_strlit("@");
    reveal_strlit("=");
    let part = gap + name + space;
    let line = left + "@"@ + gap + name + space + "="@ + value;
    let start = "@"@ + part + "="@;
    assert(line =~= left + (start + value));
    lemma_trim_start_of_padded(left, start, value);
    let kept = lemma_trim_end_keeps(start, value);
    assert(trim(line) == start + kept);
    let declaration = part + "="@ + kept;
    assert(start + kept =~= "@"@ + declaration);
    lemma_strip_prefix(start + kept, "@"@, declaration);
    assert forall|j: int| 0 <= j < part.len() implies part[j] != '=' by {
        if j < gap.len() {
            assert(is_white_space(gap[j]));
            assert(part[j] == gap[j]);
        } else if j < gap.len() + name.len() {
            assert(part[j] == name[j - gap.len()]);
            assert(name.contains(name[j - gap.len()]));
        } else {
            assert(part[j] == space[j - gap.len() - name.len()]);
            assert(is_white_space(space[j - gap.len() - name.len()]));
        }
    }
    assert("="@ =~= seq!['=']);
    assert forall|j: int| #[trigger] occurs_at(part + "="@, "="@, j) implies j >= part.len() by {
        lemma_occurs_char(part + "="@, '=', j);
    }
    lemma_find_behind(part, "="@, kept);
    assert(declaration.take(part.len() as int) =~= part);
    lemma_trim_padded(gap, name, space);
}

/// A line names a request only where it is a comment with `@name` in front, and declares a
/// variable only where it starts with an at sign and has an equals sign behind the name.
pub proof fn lemma_other_lines_define_nothing(line: Seq<char>)
    ensures
        annotated_name(line) matches Some(name) ==> exists|comment: Seq<char>, rest: Seq<char>|
            trim(line) == "#"@ + comment && trim(comment) == #[trigger] ("@name"@ + rest) && name
                == #[trigger] trim(rest) && trim(line) == #[trigger] ("#"@ + comment),
        declared_variable(line) matches Some(name) ==> exists|part: Seq<char>, value: Seq<char>|
            trim(line) == #[trigger] ("@"@ + part + "="@ + value) && !part.contains('=') && name
                == trim(part),
{
    reveal_strlit("@");
    reveal_strlit("=");
    if annotated_name(line) is Some {
        let comment = strip_prefix(trim(line), "#"@)->0;
        lemma_strip_prefix(trim(line), "#"@, comment);
        let rest = strip_prefix(trim(comment), "@name"@)->0;
        lemma_strip_prefix(trim(comment), "@name"@, rest);
        assert(trim(line) == "#"@ + comment && trim(comment) == "@name"@ + rest);
        assert(annotated_name(line) == Some(trim(rest)));
    }
    if declared_variable(line) is Some {
        let declaration = strip_prefix(trim(line), "@"@)->0;
        lemma_strip_prefix(trim(line), "@"@, declaration);
        lemma_find_divides(declaration, "="@);
        let i = find(declaration, "="@)->0;
        let part = declaration.take(i);
        let value = declaration.skip(i + 1);
        assert(declaration =~= part + "="@ + value);
        assert(trim(line) =~= "@"@ + part + "="@ + value);
        assert("="@ =~= seq!['=']);
        assert forall|j: int| 0 <= j < part.len() implies part[j] != '=' by {
            assert(declaration.subrange(j, j + "="@.len()) != "="@);
            if part[j] == '=' {
                assert(declaration.subrange(j, j + 1) =~= "="@);
            }
        }
    }
}

/// Where some line names a request `name`, or declares a variable of that name, the name is
/// defined: in no later line than the first that names the request so, and where there is
/// none, than the first that declares the variable.
pub proof fn lemma_first_definition_counts(
    rows: Seq<Seq<char>>,
    name: Seq<char>,
    i: int,
    line: int,
)
    requires
        0 <= i < rows.len(),
    ensures
        annotated_name(rows[i]) == Some(name) || declared_variable(rows[i]) == Some(name)
            ==> exists|at: int| #[trigger] defined_in(rows, name, at),
        defined_in(rows, name, line) && annotated_name(rows[i]) == Some(name) ==> line <= i
            && annotated_name(rows[line]) == Some(name),
        defined_in(rows, name, line) && declared_variable(rows[i]) == Some(name)
            && annotated_name(rows[line]) != Some(name) ==> line <= i && declared_variable(
            rows[line],
        ) == Some(name),
        defined_in(rows, name, line) ==> 0 <= line < rows.len() && (annotated_name(rows[line])
            == Some(name) || declared_variable(rows[line]) == Some(name)),
{
    if annotated_name(rows[i]) == Some(name) {
        let at = lemma_first_annotation(rows, name, i);
        assert(defined_in(rows, name, at));
    } else if declared_variable(rows[i]) == Some(name) {
        if not_annotated(rows, name) {
            let at = lemma_first_declaration(rows, name, i);
            assert(defined_in(rows, name, at));
        } else {
            let j = choose|j: int|
                0 <= j < rows.len() && annotated_name(#[trigger] rows[j]) == Some(name);
            let at = lemma_first_annotation(rows, name, j);
            assert(defined_in(rows, name, at));
        }
    }
}

/// Where a line names a request, a first one does.
proof fn lemma_first_annotation(rows: Seq<Seq<char>>, name: Seq<char>, i: int) -> (at: int)
    requires
        0 <= i < rows.len(),
        annotated_name(rows[i]) == Some(name),
    ensures
        first_annotation(rows, name, at),
    decreases i,
{
    if exists|j: int| 0 <= j < i && annotated_name(#[trigger] rows[j]) == Some(name) {
        let j = choose|j: int| 0 <= j < i && annotated_name(#[trigger] rows[j]) == Some(name);
        lemma_first_annotation(rows, name, j)
    } else {
        i
    }
}

/// Where a line declares a variable, a first one does.
proof fn lemma_first_declaration(rows: Seq<Seq<char>>, name: Seq<char>, i: int) -> (at: int)
    requires
        0 <= i < rows.len(),
        declared_variable(rows[i]) == Some(name),
    ensures
        first_declaration(rows, name, at),
    decreases i,
{
    if exists|j: int| 0 <= j < i && declared_variable(#[trigger] rows[j]) == Some(name) {
        let j = choose|j: int| 0 <= j < i && declared_variable(#[trigger] rows[j]) == Some(name);
        lemma_first_declaration(rows, name, j)
    } else {
        i
    }
}

/// A name stands under the cursor only inside a reference that is still open there: where
/// names would be suggested, too.
pub proof fn lemma_variable_is_in_open_reference(text: Seq<char>, position: Position)
    requires
        variable_at(text, position) is Some,
    ensures
        prefix_at(text, position) is Some,
{
}

/// The line under the cursor, where the text has it.
fn line_at(rows: &Vec<Vec<char>>, position: Position) -> (r: Option<usize>)
    ensures
        match r {
            Some(i) => i == position.line && i < rows@.len(),
            None => position.line >= rows@.len(),
        },
{
    if (position.line as usize) < rows.len() {
        Some(position.line as usize)
    } else {
        None
    }
}

/// Whether the cursor stands outside the text or between two characters of it.
pub fn cursor_is_valid(text: &str, position: Position) -> (r: bool)
    ensures
        r == cursor_fits(text@, position),
{
    let rows = lines_of(text);
    match line_at(&rows, position) {
        Some(i) => {
            assert(char_texts(rows@)[i as int] == rows@[i as int]@);
            chars_before(rows[i].as_slice(), position.character as usize).is_some()
        },
        None => true,
    }
}

/// The part of the line before the cursor.
fn line_before<'a>(line: &'a [char], col: usize) -> (r: &'a [char])
    requires
        line_fits(line@, col as int),
    ensures
        r@ == before_offset(line@, col as int),
        r@.is_prefix_of(line@),
{
    match chars_before(line, col) {
        Some(k) => slice_subrange(line, 0, k),
        None => line,
    }
}

/// The name in the reference in which the cursor stands.
pub fn extract_variable_at(text: &str, position: Position) -> (r: Option<String>)
    requires
        cursor_fits(text@, position),
    ensures
        opt_text(r) == variable_at(text@, position),
{
    let rows = lines_of(text);
    let i = match line_at(&rows, position) {
        Some(i) => i,
        None => return None,
    };
    assert(char_texts(rows@)[i as int] == rows@[i as int]@);
    let line = rows[i].as_slice();
    proof {
        reveal_strlit("{{");
    }
    let before = line_before(line, position.character as usize);
    let open = match rfind_in(before, chars_of("{{").as_slice()) {
        Some(open) => open,
        None => return None,
    };
    assert(open + 2 <= before@.len() == before.len());
    assert(before@.len() <= line@.len() == line.len());
    let typed = slice_subrange(before, open + 2, before.len());
    assert(typed@ =~= before@.skip(open + 2));
    if contains_in(typed, chars_of("}}").as_slice()) {
        return None;
    }
    let inside = slice_subrange(line, open + 2, line.len());
    assert(inside@ =~= line@.skip(open + 2));
    let close = match find_in(inside, chars_of("}}").as_slice()) {
        Some(close) => close,
        None => return None,
    };
    let content = slice_subrange(inside, 0, close);
    assert(content@ =~= inside@.take(close as int));
    let name = trimmed(content);
    if name.len() == 0 || name[0] == '$' {
        return None;
    }
    Some(string_of(name))
}

/// What is typed of a name in the reference that is open at the cursor.
pub fn open_reference_at(text: &str, position: Position) -> (r: Option<String>)
    requires
        cursor_fits(text@, position),
    ensures
        opt_text(r) == prefix_at(text@, position),
{
    let rows = lines_of(text);
    let i = match line_at(&rows, position) {
        Some(i) => i,
        None => return None,
    };
    assert(char_texts(rows@)[i as int] == rows@[i as int]@);
    let line = rows[i].as_slice();
    proof {
        reveal_strlit("{{");
    }
    let before = line_before(line, position.character as usize);
    let open = match rfind_in(before, chars_of("{{").as_slice()) {
        Some(open) => open,
        None => return None,
    };
    assert(open + 2 <= before@.len() == before.len());
    let inside = slice_subrange(before, open + 2, before.len());
    assert(inside@ =~= before@.skip(open + 2));
    if contains_in(inside, chars_of("}}").as_slice()) {
        return None;
    }
    Some(string_of(trimmed(inside)))
}

/// Whether a line names a request `name`.
fn annotates(line: &[char], name: &[char]) -> (r: bool)
    ensures
        r == (annotated_name(line@) == Some(name@)),
{
    let comment = match after_prefix(trimmed(line), chars_of("#").as_slice()) {
        Some(comment) => comment,
        None => return false,
    };
    match after_prefix(trimmed(comment), chars_of("@name").as_slice()) {
        Some(rest) => same_chars(trimmed(rest), name),
        None => false,
    }
}

/// Whether a line declares a variable `name`.
fn declares(line: &[char], name: &[char]) -> (r: bool)
    ensures
        r == (declared_variable(line@) == Some(name@)),
{
    let declaration = match after_prefix(trimmed(line), chars_of("@").as_slice()) {
        Some(declaration) => declaration,
        None => return false,
    };
    match find_in(declaration, chars_of("=").as_slice()) {
        Some(i) => {
            let left = slice_subrange(declaration, 0, i);
            assert(left@ =~= declaration@.take(i as int));
            same_chars(trimmed(left), name)
        },
        None => false,
    }
}

/// The line in which `name` is defined.
pub fn definition_line(rows: &Vec<Vec<char>>, name: &[char]) -> (r: Option<usize>)
    ensures
        match r {
            Some(i) => i < rows@.len() && defined_in(char_texts(rows@), name@, i as int),
            None => not_annotated(char_texts(rows@), name@) && not_declared(
                char_texts(rows@),
                name@,
            ),
        },
{
    let ghost all = char_texts(rows@);
    let mut i: usize = 0;
    while i < rows.len()
        invariant
            i <= rows@.len(),
            all == char_texts(rows@),
            forall|j: int| 0 <= j < i ==> annotated_name(#[trigger] all[j]) != Some(name@),
        decreases rows@.len() - i,
    {
        assert(all[i as int] == rows@[i as int]@);
        if annotates(rows[i].as_slice(), name) {
            assert(first_annotation(all, name@, i as int));
            return Some(i);
        }
        i += 1;
    }
    assert(not_annotated(all, name@));
    i = 0;
    while i < rows.len()
        invariant
            i <= rows@.len(),
            all == char_texts(rows@),
            not_annotated(all, name@),
            forall|j: int| 0 <= j < i ==> declared_variable(#[trigger] all[j]) != Some(name@),
        decreases rows@.len() - i,
    {
        assert(all[i as int] == rows@[i as int]@);
        if declares(rows[i].as_slice(), name) {
            assert(first_declaration(all, name@, i as int));
            return Some(i);
        }
        i += 1;
    }
    None
}

} // verus!
