//! References of a request to the responses of other requests.

use vstd::prelude::*;
use vstd::slice::slice_subrange;

use crate::model::{header_texts, ParsedRequest, StoredResponse, VariableContext};
use crate::text::{
    before_first, chars_of, contains, contains_in, find, find_in, first_occurrence, head_of,
    lemma_before_first, lemma_find, lemma_find_behind, lemma_found, lemma_head_before_separator,
    occurs_at, opt_text, same_text, string_of, texts, trim, trimmed,
};

verus! {

/// What stands in the `{{ }}` references of a text, in order.
pub open spec fn references(text: Seq<char>) -> Seq<Seq<char>>
    decreases text.len(),
{
    match find(text, "{{"@) {
        Some(open) => {
            let inside = text.skip(open + 2);
            match find(inside, "}}"@) {
                Some(close) => {
                    proof {
                        reveal_strlit("{{");
                        reveal_strlit("}}");
                        lemma_found(text, "{{"@);
                        lemma_found(inside, "}}"@);
                    }
                    seq![trim(inside.take(close))] + references(inside.skip(close + 2))
                },
                None => seq![],
            }
        },
        None => seq![],
    }
}

/// The name of the request to whose response or request an expression refers.
pub open spec fn dependency(expression: Seq<char>) -> Option<Seq<char>> {
    let name = before_first(expression, '.');
    if (contains(expression, ".response."@) || contains(expression, ".request."@)) && name.len() > 0
        && name[0] != '$' {
        Some(name)
    } else {
        None
    }
}

/// The names on which the expressions depend and that are not among the known ones, each
/// once, in the order of their first mention.
pub open spec fn missing_among(expressions: Seq<Seq<char>>, known: Set<Seq<char>>) -> Seq<Seq<char>>
    decreases expressions.len(),
{
    if expressions.len() == 0 {
        seq![]
    } else {
        let earlier = missing_among(expressions.drop_last(), known);
        match dependency(expressions.last()) {
            Some(name) => if known.contains(name) || earlier.contains(name) {
                earlier
            } else {
                earlier.push(name)
            },
            None => earlier,
        }
    }
}

/// The values of the headers, a space before each.
pub open spec fn header_values(headers: Seq<(Seq<char>, Seq<char>)>) -> Seq<char>
    decreases headers.len(),
{
    if headers.len() == 0 {
        seq![]
    } else {
        header_values(headers.drop_last()) + " "@ + headers.last().1
    }
}

/// The URL, the header values and the body of a request, with spaces in between.
pub open spec fn request_text(request: ParsedRequest) -> Seq<char> {
    request.url@ + header_values(header_texts(request.headers@)) + (match request.body {
        Some(body) => " "@ + body@,
        None => seq![],
    })
}

/// The names to whose responses a request refers and that are not among the known ones.
pub open spec fn missing_dependencies(request: ParsedRequest, known: Set<Seq<char>>) -> Seq<
    Seq<char>,
> {
    missing_among(references(request_text(request)), known)
}

/// The text in which references are looked for has all of the URL, of each header value and
/// of the body: without headers and body it is the URL, one header more puts a space and its
/// value behind the others, and so does a body.
pub proof fn lemma_all_parts_are_in_the_text(less: ParsedRequest, more: ParsedRequest)
    requires
        less.url@ == more.url@,
        less.body is None,
    ensures
        less.headers@.len() == 0 ==> request_text(less) == less.url@,
        more.body is None && more.headers@.len() > 0 && more.headers@.drop_last() == less.headers@
            ==> request_text(more) == request_text(less) + " "@ + more.headers@.last().1@,
        more.headers@ == less.headers@ ==> (more.body matches Some(body) ==> request_text(more)
            == request_text(less) + " "@ + body@),
{
    assert(request_text(less) =~= less.url@ + header_values(header_texts(less.headers@)));
    if more.body is None && more.headers@.len() > 0 && more.headers@.drop_last() == less.headers@ {
        assert(header_texts(more.headers@).drop_last() =~= header_texts(less.headers@));
        assert(request_text(more) =~= request_text(less) + " "@ + more.headers@.last().1@);
    }
    if more.headers@ == less.headers@ && more.body is Some {
        assert(request_text(more) =~= request_text(less) + " "@ + more.body->0@);
    }
}

/// Nothing is referred to where no reference is opened, or one is opened and never closed.
pub proof fn lemma_nothing_is_referred_to(head: Seq<char>, rest: Seq<char>)
    ensures
        !contains(head, "{{"@) ==> references(head).len() == 0,
        (forall|j: int| #[trigger] occurs_at(head + "{{"@, "{{"@, j) ==> j >= head.len())
            && !contains(rest, "}}"@) ==> references(head + "{{"@ + rest).len() == 0,
{
    reveal_strlit("{{");
    if forall|j: int| #[trigger] occurs_at(head + "{{"@, "{{"@, j) ==> j >= head.len() {
        lemma_find_behind(head, "{{"@, rest);
        assert((head + "{{"@ + rest).skip(head.len() as int + 2) =~= rest);
    }
}

/// A reference that is opened behind `head`, where none is opened before, is read up to where
/// it is closed first; what follows is read after it.
pub proof fn lemma_reference_is_read(head: Seq<char>, inner: Seq<char>, tail: Seq<char>)
    requires
        forall|j: int| #[trigger] occurs_at(head + "{{"@, "{{"@, j) ==> j >= head.len(),
        forall|j: int| #[trigger] occurs_at(inner + "}}"@, "}}"@, j) ==> j >= inner.len(),
    ensures
        references(head + "{{"@ + inner + "}}"@ + tail) == seq![trim(inner)] + references(tail),
{
    reveal_strlit("{{");
    reveal_strlit("}}");
    let all = head + "{{"@ + inner + "}}"@ + tail;
    let inside = inner + "}}"@ + tail;
    assert(all =~= head + "{{"@ + inside);
    lemma_find_behind(head, "{{"@, inside);
    assert(all.skip(head.len() as int + 2) =~= inside);
    lemma_find_behind(inner, "}}"@, tail);
    assert(inside.take(inner.len() as int) =~= inner);
    assert(inside.skip(inner.len() as int + 2) =~= tail);
}

/// Every reference that the text opens is closed in it.
pub open spec fn is_closed(text: Seq<char>) -> bool
    decreases text.len(),
{
    match find(text, "{{"@) {
        Some(open) => {
            let inside = text.skip(open + 2);
            match find(inside, "}}"@) {
                Some(close) => {
                    proof {
                        reveal_strlit("{{");
                        reveal_strlit("}}");
                        lemma_found(text, "{{"@);
                        lemma_found(inside, "}}"@);
                    }
                    is_closed(inside.skip(close + 2))
                },
                None => false,
            }
        },
        None => true,
    }
}

/// A pattern that stands in a text is found at the same place with more behind it.
proof fn lemma_find_with_more(text: Seq<char>, pattern: Seq<char>, more: Seq<char>)
    requires
        find(text, pattern) is Some,
    ensures
        find(text + more, pattern) == find(text, pattern),
{
    lemma_found(text, pattern);
    let i = find(text, pattern)->0;
    let all = text + more;
    assert(all.subrange(i, i + pattern.len()) =~= text.subrange(i, i + pattern.len()));
    assert forall|j: int| #[trigger] occurs_at(all, pattern, j) implies i <= j by {
        if j < i {
            assert(all.subrange(j, j + pattern.len()) =~= text.subrange(j, j + pattern.len()));
            assert(occurs_at(text, pattern, j));
        }
    }
    assert(first_occurrence(all, pattern, i));
    lemma_find(all, pattern, i);
}

/// What a text refers to, it also refers to with more behind it, and first.
pub proof fn lemma_references_stay(text: Seq<char>, more: Seq<char>)
    ensures
        references(text).is_prefix_of(references(text + more)),
    decreases text.len(),
{
    reveal_strlit("{{");
    reveal_strlit("}}");
    let all = references(text + more);
    if references(text).len() > 0 {
        lemma_found(text, "{{"@);
        let open = find(text, "{{"@)->0;
        let inside = text.skip(open + 2);
        lemma_found(inside, "}}"@);
        let close = find(inside, "}}"@)->0;
        let rest = inside.skip(close + 2);
        lemma_find_with_more(text, "{{"@, more);
        assert((text + more).skip(open + 2) =~= inside + more);
        lemma_find_with_more(inside, "}}"@, more);
        assert((inside + more).take(close) =~= inside.take(close));
        assert((inside + more).skip(close + 2) =~= rest + more);
        lemma_references_stay(rest, more);
        let first = seq![trim(inside.take(close))];
        assert(references(text) == first + references(rest));
        assert(all == first + references(rest + more));
        assert(all.take(references(text).len() as int) =~= references(text));
    } else {
        assert(all.take(0) =~= references(text));
    }
}

/// Behind a text in which every reference is closed, references are read as if it were not
/// there; the two texts must not make an opening of a brace each.
pub proof fn lemma_references_in_a_row(text: Seq<char>, more: Seq<char>)
    requires
        is_closed(text),
        text.len() == 0 || text.last() != '{' || more.len() == 0 || more[0] != '{',
    ensures
        references(text + more) == references(text) + references(more),
        is_closed(text + more) == is_closed(more),
    decreases text.len(),
{
    reveal_strlit("{{");
    reveal_strlit("}}");
    let all = text + more;
    if find(text, "{{"@) is Some {
        lemma_found(text, "{{"@);
        let open = find(text, "{{"@)->0;
        let inside = text.skip(open + 2);
        lemma_found(inside, "}}"@);
        let close = find(inside, "}}"@)->0;
        let rest = inside.skip(close + 2);
        lemma_find_with_more(text, "{{"@, more);
        assert(all.skip(open + 2) =~= inside + more);
        lemma_find_with_more(inside, "}}"@, more);
        assert((inside + more).take(close) =~= inside.take(close));
        assert((inside + more).skip(close + 2) =~= rest + more);
        lemma_references_in_a_row(rest, more);
        let first = seq![trim(inside.take(close))];
        assert(references(all) == first + references(rest + more));
        assert(first + (references(rest) + references(more)) =~= (first + references(rest))
            + references(more));
    } else {
        let n = text.len() as int;
        assert forall|j: int| #[trigger] occurs_at(all, "{{"@, j) implies j >= n && occurs_at(
            more,
            "{{"@,
            j - n,
        ) by {
            assert(all.subrange(j, j + 2)[0] == all[j] && all.subrange(j, j + 2)[1] == all[j + 1]);
            assert("{{"@[0] == '{' && "{{"@[1] == '{');
            if j + 2 <= n {
                assert(text.subrange(j, j + 2) =~= all.subrange(j, j + 2));
                assert(occurs_at(text, "{{"@, j));
            } else if j >= n {
                assert(more.subrange(j - n, j - n + 2) =~= all.subrange(j, j + 2));
            }
        }
        lemma_found(more, "{{"@);
        match find(more, "{{"@) {
            Some(open) => {
                assert(all.subrange(n + open, n + open + 2) =~= more.subrange(open, open + 2));
                assert(first_occurrence(all, "{{"@, n + open));
                lemma_find(all, "{{"@, n + open);
                assert(all.skip(n + open + 2) =~= more.skip(open + 2));
            },
            None => {
                if contains(all, "{{"@) {
                    let j = choose|j: int| #[trigger] occurs_at(all, "{{"@, j);
                    assert(occurs_at(more, "{{"@, j - n));
                }
            },
        }
        assert(references(text) + references(more) =~= references(more));
    }
}

/// Header values in a row are those before one, that one, and those behind it.
proof fn lemma_header_values_divide(headers: Seq<(Seq<char>, Seq<char>)>, i: int)
    requires
        0 <= i < headers.len(),
    ensures
        header_values(headers) == header_values(headers.take(i)) + " "@ + headers[i].1
            + header_values(headers.skip(i + 1)),
    decreases headers.len(),
{
    let last = headers.len() - 1;
    let shorter = headers.drop_last();
    let tail = headers.skip(i + 1);
    if i == last {
        assert(headers.take(i) =~= shorter);
        assert(tail =~= Seq::<(Seq<char>, Seq<char>)>::empty());
    } else {
        lemma_header_values_divide(shorter, i);
        assert(shorter.take(i) =~= headers.take(i));
        assert(shorter.skip(i + 1) =~= tail.drop_last());
        assert(tail.last() == headers.last());
    }
    assert(header_values(headers) =~= header_values(headers.take(i)) + " "@ + headers[i].1
        + header_values(tail));
}

/// A space in front of a text does not change what it refers to.
proof fn lemma_references_behind_space(text: Seq<char>)
    ensures
        references(" "@ + text) == references(text),
        is_closed(" "@ + text) == is_closed(text),
{
    reveal_strlit(" ");
    reveal_strlit("{{");
    assert(!contains(" "@, "{{"@));
    lemma_references_in_a_row(" "@, text);
    assert(references(" "@) + references(text) =~= references(text));
}

/// Behind closed URLs and header values every reference is closed.
proof fn lemma_start_is_closed(url: Seq<char>, headers: Seq<(Seq<char>, Seq<char>)>)
    requires
        is_closed(url),
        forall|j: int| 0 <= j < headers.len() ==> is_closed((#[trigger] headers[j]).1),
    ensures
        is_closed(url + header_values(headers)),
    decreases headers.len(),
{
    reveal_strlit(" ");
    if headers.len() == 0 {
        assert(url + header_values(headers) =~= url);
    } else {
        let shorter = headers.drop_last();
        assert forall|j: int| 0 <= j < shorter.len() implies is_closed(
            (#[trigger] shorter[j]).1,
        ) by {
            assert(is_closed(headers[j].1));
        }
        lemma_start_is_closed(url, shorter);
        let start = url + header_values(shorter);
        let value = headers[headers.len() - 1].1;
        lemma_references_behind_space(value);
        lemma_references_in_a_row(start, " "@ + value);
        assert(url + header_values(headers) =~= start + (" "@ + value));
    }
}

/// What stands behind a closed start and a space is searched, whatever follows it.
proof fn lemma_part_is_searched(
    start: Seq<char>,
    part: Seq<char>,
    rest: Seq<char>,
    expression: Seq<char>,
)
    requires
        is_closed(start),
        references(part).contains(expression),
    ensures
        references(start + " "@ + part + rest).contains(expression),
{
    reveal_strlit(" ");
    lemma_references_stay(part, rest);
    lemma_references_behind_space(part + rest);
    lemma_references_in_a_row(start, " "@ + (part + rest));
    assert(start + " "@ + part + rest =~= start + (" "@ + (part + rest)));
    let k = choose|k: int| 0 <= k < references(part).len() && references(part)[k] == expression;
    let all = references(part + rest);
    assert(all.take(references(part).len() as int)[k] == all[k]);
    assert((references(start) + all)[references(start).len() + k] == expression);
}

/// A reference in the URL, in the value of any header or in the body is a reference of the
/// request, provided that every reference in what stands before is closed; and where it
/// depends on a name that is not known, that name is missing.
pub proof fn lemma_every_part_is_searched(
    request: ParsedRequest,
    known: Set<Seq<char>>,
    i: int,
    expression: Seq<char>,
    name: Seq<char>,
)
    requires
        dependency(expression) == Some(name),
        !known.contains(name),
    ensures
        references(request.url@).contains(expression) ==> missing_dependencies(
            request,
            known,
        ).contains(name),
        is_closed(request.url@) && 0 <= i < request.headers@.len() && (forall|j: int|
            0 <= j < i ==> is_closed((#[trigger] request.headers@[j]).1@)) && references(
            request.headers@[i].1@,
        ).contains(expression) ==> missing_dependencies(request, known).contains(name),
        is_closed(request.url@) && (forall|j: int|
            0 <= j < request.headers@.len() ==> is_closed((#[trigger] request.headers@[j]).1@)) && (
        request.body matches Some(body) && references(body@).contains(expression))
            ==> missing_dependencies(request, known).contains(name),
{
    let url = request.url@;
    let headers = header_texts(request.headers@);
    let text = request_text(request);
    let tail = match request.body {
        Some(body) => " "@ + body@,
        None => Seq::<char>::empty(),
    };
    assert(text =~= url + header_values(headers) + tail);
    lemma_missing_exactly_unknown(references(text), known, name);
    if references(url).contains(expression) {
        let rest = header_values(headers) + tail;
        assert(text =~= url + rest);
        lemma_references_stay(url, rest);
        let k = choose|k: int| 0 <= k < references(url).len() && references(url)[k] == expression;
        assert(references(text).take(references(url).len() as int)[k] == references(text)[k]);
    }
    if is_closed(url) && 0 <= i < headers.len() && (forall|j: int|
        0 <= j < i ==> is_closed((#[trigger] request.headers@[j]).1@)) && references(
        headers[i].1,
    ).contains(expression) {
        let before = headers.take(i);
        assert forall|j: int| 0 <= j < before.len() implies is_closed((#[trigger] before[j]).1) by {
            assert(is_closed(request.headers@[j].1@));
        }
        lemma_start_is_closed(url, before);
        lemma_header_values_divide(headers, i);
        let start = url + header_values(before);
        let rest = header_values(headers.skip(i + 1)) + tail;
        assert(text =~= start + " "@ + headers[i].1 + rest);
        lemma_part_is_searched(start, headers[i].1, rest, expression);
        let k = choose|k: int| 0 <= k < references(text).len() && references(text)[k] == expression;
        assert(dependency(references(text)[k]) == Some(name));
    }
    if is_closed(url) && (forall|j: int|
        0 <= j < request.headers@.len() ==> is_closed((#[trigger] request.headers@[j]).1@)) && (
    request.body matches Some(body) && references(body@).contains(expression)) {
        assert forall|j: int| 0 <= j < headers.len() implies is_closed(
            (#[trigger] headers[j]).1,
        ) by {
            assert(is_closed(request.headers@[j].1@));
        }
        lemma_start_is_closed(url, headers);
        let start = url + header_values(headers);
        let nothing = Seq::<char>::empty();
        assert(text =~= start + " "@ + request.body->0@ + nothing);
        lemma_part_is_searched(start, request.body->0@, nothing, expression);
        let k = choose|k: int| 0 <= k < references(text).len() && references(text)[k] == expression;
        assert(dependency(references(text)[k]) == Some(name));
    }
}

/// The name on which an expression depends is what stands before its first dot; only
/// expressions with `.response.` or `.request.` in them depend on one, and system variables
/// never do.
pub proof fn lemma_dependency_is_before_the_dot(name: Seq<char>, rest: Seq<char>)
    requires
        !name.contains('.'),
    ensures
        ({
            let expression = name + seq!['.'] + rest;
            &&& name.len() > 0 && name[0] != '$' && (contains(expression, ".response."@)
                || contains(expression, ".request."@)) ==> dependency(expression) == Some(name)
            &&& name.len() == 0 || name[0] == '$' || !(contains(expression, ".response."@)
                || contains(expression, ".request."@)) ==> dependency(expression) is None
        }),
        dependency(name) is None,
{
    lemma_head_before_separator(name, '.', rest);
    reveal_strlit(".response.");
    reveal_strlit(".request.");
    if contains(name, ".response."@) {
        let i = choose|i: int| #[trigger] occurs_at(name, ".response."@, i);
        assert(name.subrange(i, i + ".response."@.len())[0] == name[i]);
    }
    if contains(name, ".request."@) {
        let i = choose|i: int| #[trigger] occurs_at(name, ".request."@, i);
        assert(name.subrange(i, i + ".request."@.len())[0] == name[i]);
    }
}

/// More expressions put more names behind those that are missing already.
pub proof fn lemma_missing_in_order(
    expressions: Seq<Seq<char>>,
    more: Seq<Seq<char>>,
    known: Set<Seq<char>>,
)
    ensures
        missing_among(expressions, known).is_prefix_of(missing_among(expressions + more, known)),
    decreases more.len(),
{
    let first = missing_among(expressions, known);
    if more.len() == 0 {
        assert(expressions + more =~= expressions);
        assert(first =~= first.take(first.len() as int));
    } else {
        let all = expressions + more;
        lemma_missing_in_order(expressions, more.drop_last(), known);
        assert(all.drop_last() =~= expressions + more.drop_last());
        let earlier = missing_among(all.drop_last(), known);
        assert(earlier.take(first.len() as int) == first);
        assert(missing_among(all, known).take(first.len() as int) =~= first);
    }
}

/// A reference to the response of a request, or to the request itself, depends on the
/// request with that name, provided that the name is not empty, has no dot in it and does
/// not start like that of a system variable.
pub proof fn lemma_reference_depends_on_its_request(name: Seq<char>, path: Seq<char>)
    requires
        name.len() > 0,
        name[0] != '$',
        !name.contains('.'),
    ensures
        dependency(name + ".response."@ + path) == Some(name),
        dependency(name + ".request."@ + path) == Some(name),
{
    reveal_strlit(".response.");
    reveal_strlit(".request.");
    lemma_part_names_its_request(name, ".response."@, path);
    lemma_part_names_its_request(name, ".request."@, path);
}

/// What stands before `part`, which starts with a dot, is the name in a reference.
proof fn lemma_part_names_its_request(name: Seq<char>, part: Seq<char>, path: Seq<char>)
    requires
        !name.contains('.'),
        part.len() > 0,
        part[0] == '.',
    ensures
        before_first(name + part + path, '.') == name,
        contains(name + part + path, part),
{
    let all = name + part + path;
    let tail = part.skip(1) + path;
    assert(all =~= name + seq!['.'] + tail);
    lemma_before_first(name, '.', tail);
    if contains(name, seq!['.']) {
        let i = choose|i: int| #[trigger] occurs_at(name, seq!['.'], i);
        assert(name.subrange(i, i + 1)[0] == name[i]);
        assert(name.contains('.'));
    }
    let at = name.len() as int;
    assert(all.subrange(at, at + part.len()) =~= part);
    assert(occurs_at(all, part, at));
}

/// No name is reported twice.
pub proof fn lemma_missing_without_duplicates(expressions: Seq<Seq<char>>, known: Set<Seq<char>>)
    ensures
        missing_among(expressions, known).no_duplicates(),
    decreases expressions.len(),
{
    if expressions.len() > 0 {
        lemma_missing_without_duplicates(expressions.drop_last(), known);
    }
}

/// A name is reported if and only if an expression depends on it and it is not known.
pub proof fn lemma_missing_exactly_unknown(
    expressions: Seq<Seq<char>>,
    known: Set<Seq<char>>,
    name: Seq<char>,
)
    ensures
        missing_among(expressions, known).contains(name) <==> !known.contains(name) && exists|
            i: int,
        |
            0 <= i < expressions.len() && dependency(#[trigger] expressions[i]) == Some(name),
    decreases expressions.len(),
{
    if expressions.len() > 0 {
        let shorter = expressions.drop_last();
        let earlier = missing_among(shorter, known);
        let all = missing_among(expressions, known);
        lemma_missing_exactly_unknown(shorter, known, name);
        if all.contains(name) {
            if earlier.contains(name) {
                let i = choose|i: int|
                    0 <= i < shorter.len() && dependency(#[trigger] shorter[i]) == Some(name);
                assert(dependency(expressions[i]) == Some(name));
            } else {
                let k = choose|k: int| 0 <= k < all.len() && all[k] == name;
                if all != earlier && k < earlier.len() {
                    assert(earlier[k] == name);
                }
                assert(dependency(expressions[expressions.len() - 1]) == Some(name));
            }
        }
        if !known.contains(name) && exists|i: int|
            0 <= i < expressions.len() && dependency(#[trigger] expressions[i]) == Some(name) {
            let i = choose|i: int|
                0 <= i < expressions.len() && dependency(#[trigger] expressions[i]) == Some(name);
            if i < shorter.len() {
                assert(dependency(shorter[i]) == Some(name));
                let k = choose|k: int| 0 <= k < earlier.len() && earlier[k] == name;
                assert(all[k] == name);
            } else if !earlier.contains(name) {
                assert(all[earlier.len() as int] == name);
            }
        }
    }
}

/// What a filter keeps was there before.
proof fn lemma_filter_keeps(
    names: Seq<Seq<char>>,
    keep: spec_fn(Seq<char>) -> bool,
    name: Seq<char>,
)
    requires
        names.filter(keep).contains(name),
    ensures
        names.contains(name),
    decreases names.len(),
{
    reveal(Seq::filter);
    let shorter = names.drop_last();
    let kept = names.filter(keep);
    let k = choose|k: int| 0 <= k < kept.len() && kept[k] == name;
    if k < shorter.filter(keep).len() {
        assert(shorter.filter(keep)[k] == name);
        lemma_filter_keeps(shorter, keep, name);
        let j = choose|j: int| 0 <= j < shorter.len() && shorter[j] == name;
        assert(names[j] == name);
    } else {
        assert(names[names.len() - 1] == name);
    }
}

/// Once a name becomes known it is no longer reported; the other names are reported as
/// before and in the same order.
pub proof fn lemma_known_name_is_not_missing(
    expressions: Seq<Seq<char>>,
    known: Set<Seq<char>>,
    name: Seq<char>,
)
    ensures
        missing_among(expressions, known.insert(name)) == missing_among(expressions, known).filter(
            |other: Seq<char>| other != name,
        ),
    decreases expressions.len(),
{
    let keep = |other: Seq<char>| other != name;
    reveal(Seq::filter);
    if expressions.len() > 0 {
        let shorter = expressions.drop_last();
        let earlier = missing_among(shorter, known);
        lemma_known_name_is_not_missing(shorter, known, name);
        assert(missing_among(shorter, known.insert(name)) == earlier.filter(keep));
        match dependency(expressions.last()) {
            Some(last) => {
                if earlier.filter(keep).contains(last) {
                    lemma_filter_keeps(earlier, keep, last);
                }
                if !known.contains(last) && !earlier.contains(last) {
                    assert(earlier.push(last).drop_last() =~= earlier);
                    assert(earlier.push(last).last() == last);
                } else if earlier.contains(last) && last != name {
                    let k = choose|k: int| 0 <= k < earlier.len() && earlier[k] == last;
                    earlier.lemma_filter_contains(keep, k);
                }
            },
            None => {},
        }
    }
}

/// Once the response of a named request is stored, requests no longer miss it; what else
/// they miss stays the same.
pub proof fn lemma_stored_response_is_not_missing(
    request: ParsedRequest,
    responses: Map<Seq<char>, StoredResponse>,
    name: Seq<char>,
    response: StoredResponse,
)
    ensures
        missing_dependencies(request, responses.insert(name, response).dom())
            == missing_dependencies(request, responses.dom()).filter(
            |other: Seq<char>| other != name,
        ),
        !missing_dependencies(request, responses.insert(name, response).dom()).contains(name),
{
    let expressions = references(request_text(request));
    assert(responses.insert(name, response).dom() =~= responses.dom().insert(name));
    lemma_known_name_is_not_missing(expressions, responses.dom(), name);
    lemma_missing_exactly_unknown(expressions, responses.dom().insert(name), name);
}

/// The URL, the header values and the body of a request, with spaces in between.
fn text_of_request(request: &ParsedRequest) -> (r: String)
    ensures
        r@ == request_text(*request),
{
    let mut out = request.url.clone();
    let ghost headers = header_texts(request.headers@);
    let mut i: usize = 0;
    assert(headers.take(0) =~= Seq::<(Seq<char>, Seq<char>)>::empty());
    assert(out@ =~= request.url@ + header_values(headers.take(0)));
    while i < request.headers.len()
        invariant
            i <= request.headers@.len(),
            headers == header_texts(request.headers@),
            out@ == request.url@ + header_values(headers.take(i as int)),
        decreases request.headers@.len() - i,
    {
        out.append(" ");
        out.append(request.headers[i].1.as_str());
        proof {
            let longer = headers.take(i + 1);
            assert(longer.drop_last() =~= headers.take(i as int));
            assert(longer.last() == headers[i as int]);
            assert(out@ =~= request.url@ + header_values(longer));
        }
        i += 1;
    }
    assert(headers.take(headers.len() as int) =~= headers);
    if let Some(body) = &request.body {
        out.append(" ");
        out.append(body.as_str());
    }
    assert(out@ =~= request_text(*request));
    out
}

/// Whether the name is one of the strings.
fn is_listed(names: &Vec<String>, name: &str) -> (r: bool)
    ensures
        r == texts(names@).contains(name@),
{
    let mut i: usize = 0;
    while i < names.len()
        invariant
            i <= names@.len(),
            forall|j: int| 0 <= j < i ==> (#[trigger] texts(names@)[j]) != name@,
        decreases names@.len() - i,
    {
        if same_text(names[i].as_str(), name) {
            assert(texts(names@)[i as int] == name@);
            return true;
        }
        i += 1;
    }
    false
}

/// The name of the request to whose response or request an expression refers.
fn dependency_of(expression: &[char]) -> (r: Option<String>)
    ensures
        opt_text(r) == dependency(expression@),
{
    if contains_in(expression, chars_of(".response.").as_slice()) || contains_in(
        expression,
        chars_of(".request.").as_slice(),
    ) {
        let name = head_of(expression, '.');
        if name.len() > 0 && name[0] != '$' {
            return Some(string_of(name));
        }
    }
    None
}

/// The names to whose responses a request refers and for which no response is stored,
/// each once, in the order of their first mention.
pub fn find_missing_dependencies(request: &ParsedRequest, ctx: &VariableContext) -> (r: Vec<String>)
    ensures
        texts(r@) == missing_dependencies(*request, ctx.named_responses@.dom()),
{
    let text = text_of_request(request);
    let chars = chars_of(text.as_str());
    let all = chars.as_slice();
    let opening = chars_of("{{");
    let closing = chars_of("}}");
    let ghost known = ctx.named_responses@.dom();
    let ghost mut seen: Seq<Seq<char>> = seq![];
    let mut missing: Vec<String> = Vec::new();
    let mut pos: usize = 0;
    proof {
        reveal_strlit("{{");
        reveal_strlit("}}");
        assert(all@.skip(0) =~= all@);
        assert(texts(missing@) =~= missing_among(seen, known));
        assert(seen + references(all@) =~= references(all@));
    }
    loop
        invariant_except_break
            seen + references(all@.skip(pos as int)) == references(all@),
        invariant
            pos <= all@.len(),
            opening@ == "{{"@,
            closing@ == "}}"@,
            "{{"@.len() == 2,
            "}}"@.len() == 2,
            known == ctx.named_responses@.dom(),
            texts(missing@) == missing_among(seen, known),
        ensures
            seen == references(all@),
        decreases all@.len() - pos,
    {
        let rest = slice_subrange(all, pos, all.len());
        assert(rest@ =~= all@.skip(pos as int));
        let open = match find_in(rest, opening.as_slice()) {
            Some(open) => open,
            None => {
                assert(seen + references(rest@) =~= seen);
                break;
            },
        };
        assert(open + 2 <= rest@.len() == rest.len());
        let inside = slice_subrange(rest, open + 2, rest.len());
        assert(inside@ =~= rest@.skip(open + 2));
        let close = match find_in(inside, closing.as_slice()) {
            Some(close) => close,
            None => {
                assert(seen + references(rest@) =~= seen);
                break;
            },
        };
        assert(close + 2 <= inside@.len() == inside.len());
        let content = slice_subrange(inside, 0, close);
        assert(content@ =~= inside@.take(close as int));
        let expression = trimmed(content);
        let ghost before = texts(missing@);
        let ghost shorter = seen;
        proof {
            seen = seen.push(expression@);
            assert(seen.drop_last() =~= shorter);
        }
        match dependency_of(expression) {
            Some(name) => {
                if !is_listed(&missing, name.as_str()) && !ctx.named_responses.contains_key(
                    name.as_str(),
                ) {
                    let ghost label = name@;
                    missing.push(name);
                    assert(texts(missing@) =~= before.push(label));
                }
            },
            None => {},
        }
        pos = pos + open + 2 + close + 2;
        proof {
            assert(inside@.skip(close + 2) =~= all@.skip(pos as int));
            assert(seen + references(all@.skip(pos as int)) =~= shorter + (seq![expression@]
                + references(all@.skip(pos as int))));
        }
    }
    missing
}

} // verus!
