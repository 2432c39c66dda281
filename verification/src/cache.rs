//! The responses and the history that are kept between runs, one file each per request file.

use std::collections::hash_map::DefaultHasher;
use std::hash::{Hash, Hasher};
use vstd::prelude::*;
use vstd::std_specs::hash::DefaultHasherAdditionalSpecFns;

use crate::model::{NamedResponse, StoredResponse, VariableContext};
use crate::numbers::{hex, hex_of, lemma_numerals_differ};
use crate::table::{entries_map, lemma_take_step, names_distinct, Duplicate};
use crate::text::same_text;

verus! {

/// What `Hash` for `str` feeds to a hasher for a text.
pub uninterp spec fn hashed_bytes(text: Seq<char>) -> Seq<Seq<u8>>;

/// Calls `Hash::hash` for `str`. It feeds the hasher, behind what that has been fed before,
/// bytes that depend on the text alone.
#[verifier::external_body]
pub(crate) fn feed_text(text: &str, hasher: &mut DefaultHasher)
    ensures
        final(hasher)@ == old(hasher)@ + hashed_bytes(text@),
{
    text.hash(hasher)
}

/// The hash of a text.
pub open spec fn text_hash(text: Seq<char>) -> u64 {
    DefaultHasher::spec_finish(hashed_bytes(text))
}

/// All of a text is hashed, and only that.
pub proof fn lemma_all_of_the_text_is_hashed(text: Seq<char>)
    ensures
        text_hash(text) == DefaultHasher::spec_finish(hashed_bytes(text)),
{
}

/// The names of kept files are the hash in lower-case hexadecimal with what is kept behind it.
pub proof fn lemma_kept_files_are_named_by_hash(hash: u64)
    ensures
        responses_name(hash) == hex(hash as nat) + ".responses.json"@,
        history_name(hash) == hex(hash as nat) + ".history.json"@,
{
}

/// The hash of a text, by which the files that belong to it are found again.
pub fn md5_hash(input: &str) -> (r: u64)
    ensures
        r == text_hash(input@),
{
    let mut hasher = DefaultHasher::new();
    feed_text(input, &mut hasher);
    assert(hasher@ =~= hashed_bytes(input@));
    hasher.finish()
}

/// The name of the file that keeps the responses of a request file with this hash.
pub open spec fn responses_name(hash: u64) -> Seq<char> {
    hex(hash as nat) + ".responses.json"@
}

/// The name of the file that keeps the history of a request file with this hash.
pub open spec fn history_name(hash: u64) -> Seq<char> {
    hex(hash as nat) + ".history.json"@
}

/// The name of the file that keeps the responses of a request file with this hash.
pub fn responses_file_name(hash: u64) -> (r: String)
    ensures
        r@ == responses_name(hash),
{
    let mut name = hex_of(hash);
    name.append(".responses.json");
    name
}

/// The name of the file that keeps the history of a request file with this hash.
pub fn history_file_name(hash: u64) -> (r: String)
    ensures
        r@ == history_name(hash),
{
    let mut name = hex_of(hash);
    name.append(".history.json");
    name
}

/// Whether a file with this extension is removed when a session starts or ends.
pub fn is_session_file(extension: Option<&str>) -> (r: bool)
    ensures
        r == (extension is Some && extension->0@ == "json"@),
{
    match extension {
        Some(text) => same_text(text, "json"),
        None => false,
    }
}

/// The responses after these entries are stored, one after the other.
pub open spec fn stored_in_order(
    before: Map<Seq<char>, StoredResponse>,
    entries: Seq<(String, NamedResponse)>,
) -> Map<Seq<char>, StoredResponse>
    decreases entries.len(),
{
    if entries.len() == 0 {
        before
    } else {
        stored_in_order(before, entries.drop_last()).insert(
            entries.last().0@,
            entries.last().1@,
        )
    }
}

/// The responses after those that were kept are taken over; where none could be read they
/// stay as they are.
pub open spec fn restored(
    before: Map<Seq<char>, StoredResponse>,
    kept: Option<Seq<(String, NamedResponse)>>,
) -> Map<Seq<char>, StoredResponse> {
    match kept {
        Some(entries) => stored_in_order(before, entries),
        None => before,
    }
}

/// The entries of a list that may be missing.
pub open spec fn opt_entries(kept: Option<Vec<(String, NamedResponse)>>) -> Option<
    Seq<(String, NamedResponse)>,
> {
    match kept {
        Some(entries) => Some(entries@),
        None => None,
    }
}

/// Where no name occurs twice, the order in which entries are stored does not matter: each
/// takes the place of an earlier response of its name.
pub proof fn lemma_order_does_not_matter(
    before: Map<Seq<char>, StoredResponse>,
    entries: Seq<(String, NamedResponse)>,
)
    requires
        names_distinct(entries),
    ensures
        stored_in_order(before, entries) == before.union_prefer_right(entries_map(entries)),
    decreases entries.len(),
{
    if entries.len() == 0 {
        assert(before.union_prefer_right(entries_map(entries)) =~= before);
    } else {
        let last = entries.len() - 1;
        let shorter = entries.drop_last();
        lemma_order_does_not_matter(before, shorter);
        lemma_take_step(entries, last);
        assert(entries.take(last) =~= shorter);
        assert(entries.take(last + 1) =~= entries);
        assert(stored_in_order(before, entries) =~= before.union_prefer_right(
            entries_map(entries),
        ));
    }
}

/// Of entries with the same name the last one counts, and a name without entry keeps what it
/// has; where no entries could be read, everything stays.
pub proof fn lemma_last_entry_counts(
    before: Map<Seq<char>, StoredResponse>,
    entries: Seq<(String, NamedResponse)>,
    name: Seq<char>,
    i: int,
)
    ensures
        restored(before, None) == before,
        0 <= i < entries.len() && entries[i].0@ == name && (forall|j: int|
            i < j < entries.len() ==> (#[trigger] entries[j]).0@ != name) ==> restored(
            before,
            Some(entries),
        ).contains_pair(name, entries[i].1@),
        (forall|j: int| 0 <= j < entries.len() ==> (#[trigger] entries[j]).0@ != name) ==> (
        restored(before, Some(entries)).contains_key(name) <==> before.contains_key(name)) && (
        before.contains_key(name) ==> restored(before, Some(entries))[name] == before[name]),
    decreases entries.len(),
{
    if entries.len() > 0 {
        let shorter = entries.drop_last();
        let last = entries.len() - 1;
        lemma_last_entry_counts(before, shorter, name, i);
        assert(entries[last] == entries.last());
        assert forall|j: int| 0 <= j < shorter.len() implies shorter[j] == entries[j] by {}
        if 0 <= i < last && entries[i].0@ == name && (forall|j: int|
            i < j < entries.len() ==> (#[trigger] entries[j]).0@ != name) {
            assert(entries[last].0@ != name);
            assert(shorter[i] == entries[i]);
            assert forall|j: int| i < j < shorter.len() implies (#[trigger] shorter[j]).0@
                != name by {
                assert(entries[j].0@ != name);
            }
        }
        if forall|j: int| 0 <= j < entries.len() ==> (#[trigger] entries[j]).0@ != name {
            assert(entries[last].0@ != name);
            assert forall|j: int| 0 <= j < shorter.len() implies (#[trigger] shorter[j]).0@
                != name by {
                assert(entries[j].0@ != name);
            }
        }
    }
}

/// Takes over the responses that were kept, each in place of an earlier one of its name;
/// changes nothing where none could be read.
pub fn restore_responses(ctx: &mut VariableContext, kept: &Option<Vec<(String, NamedResponse)>>)
    ensures
        final(ctx).named_responses@ == restored(old(ctx).named_responses@, opt_entries(*kept)),
        kept matches Some(entries) ==> names_distinct(entries@) ==> final(ctx).named_responses@
            == old(ctx).named_responses@.union_prefer_right(entries_map(entries@)),
        kept is None ==> *final(ctx) == *old(ctx),
        final(ctx).variables == old(ctx).variables,
        final(ctx).allowed_env_vars == old(ctx).allowed_env_vars,
{
    let entries = match kept {
        Some(entries) => entries,
        None => return,
    };
    let ghost before = ctx.named_responses@;
    let ghost variables = ctx.variables;
    let ghost allowed = ctx.allowed_env_vars;
    let mut i: usize = 0;
    while i < entries.len()
        invariant
            i <= entries@.len(),
            ctx.named_responses@ == stored_in_order(before, entries@.take(i as int)),
            ctx.variables == variables,
            ctx.allowed_env_vars == allowed,
        decreases entries@.len() - i,
    {
        ctx.store_response(entries[i].0.as_str(), entries[i].1.duplicate());
        assert(entries@.take(i + 1).drop_last() =~= entries@.take(i as int));
        i += 1;
    }
    assert(entries@.take(entries@.len() as int) =~= entries@);
    proof {
        if names_distinct(entries@) {
            lemma_order_does_not_matter(before, entries@);
        }
    }
}

/// The responses to keep, each name once.
pub fn responses_to_keep(ctx: &VariableContext) -> (r: &Vec<(String, NamedResponse)>)
    ensures
        names_distinct(r@),
        entries_map(r@) == ctx.named_responses@,
{
    ctx.named_responses.entries()
}

/// Responses that were kept are there again after they are taken over, and those of other
/// names stay as they were: `kept` are the entries that were handed out to keep the responses
/// `saved`, `back` the same entries as they were read, in whatever order.
pub proof fn lemma_kept_responses_come_back(
    saved: Map<Seq<char>, StoredResponse>,
    kept: Seq<(String, NamedResponse)>,
    back: Seq<(String, NamedResponse)>,
    before: Map<Seq<char>, StoredResponse>,
    name: Seq<char>,
)
    requires
        names_distinct(kept),
        entries_map(kept) == saved,
        names_distinct(back),
        entries_map(back) == entries_map(kept),
    ensures
        saved.contains_key(name) ==> restored(before, Some(back)).contains_pair(name, saved[name]),
        !saved.contains_key(name) ==> (restored(before, Some(back)).contains_key(name)
            <==> before.contains_key(name)),
        !saved.contains_key(name) && before.contains_key(name)
            ==> restored(before, Some(back))[name] == before[name],
{
    lemma_order_does_not_matter(before, back);
}

/// Request files with different hashes have different files of responses and of history, and
/// no file is one of responses and one of history.
pub proof fn lemma_file_names_differ(a: u64, b: u64)
    ensures
        responses_name(a) == responses_name(b) ==> a == b,
        history_name(a) == history_name(b) ==> a == b,
        responses_name(a) != history_name(b),
{
    reveal_strlit(".responses.json");
    reveal_strlit(".history.json");
    let left = hex(a as nat);
    let right = hex(b as nat);
    if responses_name(a) == responses_name(b) {
        assert(responses_name(a).len() == left.len() + ".responses.json"@.len());
        assert(responses_name(b).len() == right.len() + ".responses.json"@.len());
        assert(responses_name(a).take(left.len() as int) =~= left);
        assert(responses_name(b).take(right.len() as int) =~= right);
        assert(left == right);
        lemma_numerals_differ(a as nat, b as nat, 16);
    }
    if history_name(a) == history_name(b) {
        assert(history_name(a).len() == left.len() + ".history.json"@.len());
        assert(history_name(b).len() == right.len() + ".history.json"@.len());
        assert(history_name(a).take(left.len() as int) =~= left);
        assert(history_name(b).take(right.len() as int) =~= right);
        assert(left == right);
        lemma_numerals_differ(a as nat, b as nat, 16);
    }
    if responses_name(a) == history_name(b) {
        let n = responses_name(a).len();
        assert(responses_name(a)[n - 6] == 's');
        assert(history_name(b)[n - 6] == 'y');
    }
}

/// The files of responses and of history end in `.json`, so that they are removed when a
/// session starts or ends.
pub proof fn lemma_kept_files_are_json(hash: u64)
    ensures
        ".json"@.is_suffix_of(responses_name(hash)),
        ".json"@.is_suffix_of(history_name(hash)),
{
    reveal_strlit(".json");
    reveal_strlit(".responses.json");
    reveal_strlit(".history.json");
    let responses = responses_name(hash);
    let history = history_name(hash);
    assert(responses.subrange(responses.len() - 5, responses.len() as int) =~= ".json"@);
    assert(history.subrange(history.len() - 5, history.len() as int) =~= ".json"@);
}

} // verus!
