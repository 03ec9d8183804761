use vstd::prelude::*;

use crate::clock::{representable_timestamp, utc_format_text, utc_minute_stamp};
use crate::model::{group_views, GroupView, RepositoryGroup};
use crate::render::{format_repository_group, group_text, join_lines, lemma_join_push};
use crate::text::{chars_of, push_char, push_str};

verus! {

/// The body of the block: each repository's lines, or a note where there is none.
pub open spec fn block_body(groups: Seq<GroupView>, author: Seq<char>) -> Seq<char> {
    if groups.len() == 0 {
        "_No merged pull requests found._"@
    } else {
        join_lines(groups.map_values(|g: GroupView| group_text(g, author)))
    }
}

/// The generated block: the start marker, the body, the time of the update, and
/// the end marker.
pub open spec fn block_text(
    groups: Seq<GroupView>,
    author: Seq<char>,
    stamp: Seq<char>,
    marker_start: Seq<char>,
    marker_end: Seq<char>,
) -> Seq<char> {
    marker_start + "\n"@ + block_body(groups, author) + "\n\n_Last updated: "@ + stamp + "_\n"@
        + marker_end
}

/// The block for the groups, with `stamp` as the time of the update.
pub fn assemble_block(
    groups: &[RepositoryGroup],
    author: &str,
    stamp: &str,
    marker_start: &str,
    marker_end: &str,
) -> (r: String)
    ensures
        r@ == block_text(group_views(groups@), author@, stamp@, marker_start@, marker_end@),
{
    let ghost texts = group_views(groups@).map_values(|g: GroupView| group_text(g, author@));
    let mut r = String::new();
    push_str(&mut r, marker_start);
    push_str(&mut r, "\n");
    let ghost head = r@;
    if groups.len() == 0 {
        push_str(&mut r, "_No merged pull requests found._");
    } else {
        let mut i: usize = 0;
        while i < groups.len()
            invariant
                i <= groups.len(),
                texts == group_views(groups@).map_values(|g: GroupView| group_text(g, author@)),
                r@ == head + join_lines(texts.take(i as int)),
            decreases groups.len() - i,
        {
            let ghost before = r@;
            if i > 0 {
                push_str(&mut r, "\n");
            }
            let text = format_repository_group(&groups[i], author);
            push_str(&mut r, text.as_str());
            proof {
                assert(texts[i as int] == text@);
                assert(texts.take(i + 1) =~= texts.take(i as int).push(texts[i as int]));
                if i > 0 {
                    lemma_join_push(texts.take(i as int), texts[i as int]);
                } else {
                    assert(texts.take(1) =~= seq![texts[0]]);
                    assert(join_lines(texts.take(0)) =~= Seq::<char>::empty());
                }
                assert(r@ =~= head + join_lines(texts.take(i + 1)));
            }
            i = i + 1;
        }
        assert(texts.take(groups.len() as int) =~= texts);
    }
    push_str(&mut r, "\n\n_Last updated: ");
    push_str(&mut r, stamp);
    push_str(&mut r, "_\n");
    push_str(&mut r, marker_end);
    assert(r@ =~= block_text(group_views(groups@), author@, stamp@, marker_start@, marker_end@));
    r
}

/// The block for the groups, updated at `generated_at` seconds after the Unix
/// epoch, shown to the minute in UTC.
pub fn format_block(
    groups: &[RepositoryGroup],
    author: &str,
    generated_at: i64,
    marker_start: &str,
    marker_end: &str,
) -> (r: String)
    requires
        representable_timestamp(generated_at as int),
    ensures
        r@ == block_text(
            group_views(groups@),
            author@,
            utc_format_text(generated_at as int, "%Y-%m-%d %H:%M UTC"@),
            marker_start@,
            marker_end@,
        ),
{
    let stamp = utc_minute_stamp(generated_at);
    assemble_block(groups, author, stamp.as_str(), marker_start, marker_end)
}

/// `pattern` stands in `s` at position `i`.
pub open spec fn occurs_at(s: Seq<char>, pattern: Seq<char>, i: int) -> bool {
    0 <= i && i + pattern.len() <= s.len() && s.subrange(i, i + pattern.len()) == pattern
}

/// The first position from `from` on at which `pattern` stands in `s`.
pub open spec fn first_occurrence_from(s: Seq<char>, pattern: Seq<char>, from: int) -> Option<int>
    decreases s.len() + 1 - from,
{
    if from < 0 || from + pattern.len() > s.len() {
        None
    } else if occurs_at(s, pattern, from) {
        Some(from)
    } else {
        first_occurrence_from(s, pattern, from + 1)
    }
}

/// The first position at which `pattern` stands in `s`.
pub open spec fn first_occurrence(s: Seq<char>, pattern: Seq<char>) -> Option<int> {
    first_occurrence_from(s, pattern, 0)
}

/// `s` cut around the first occurrence of `pattern`, as `str::split_once` cuts
/// it: the text before it and the text after it.
pub open spec fn split_once(s: Seq<char>, pattern: Seq<char>) -> Option<(Seq<char>, Seq<char>)> {
    match first_occurrence(s, pattern) {
        Some(i) => Some((s.take(i), s.skip(i + pattern.len()))),
        None => None,
    }
}

/// The first occurrence is an occurrence, and none stands before it; where there
/// is none, `pattern` stands nowhere.
pub proof fn lemma_first_occurrence(s: Seq<char>, pattern: Seq<char>, from: int)
    requires
        0 <= from,
    ensures
        first_occurrence_from(s, pattern, from) matches Some(i) ==> from <= i && occurs_at(
            s,
            pattern,
            i,
        ) && forall|j: int| from <= j < i ==> !occurs_at(s, pattern, j),
        first_occurrence_from(s, pattern, from) is None ==> forall|j: int|
            from <= j ==> !occurs_at(s, pattern, j),
    decreases s.len() + 1 - from,
{
    if from + pattern.len() <= s.len() && !occurs_at(s, pattern, from) {
        lemma_first_occurrence(s, pattern, from + 1);
    }
}

/// An occurrence with none before it is the first occurrence.
pub proof fn lemma_first_occurrence_is(s: Seq<char>, pattern: Seq<char>, from: int, i: int)
    requires
        0 <= from <= i,
        occurs_at(s, pattern, i),
        forall|j: int| from <= j < i ==> !occurs_at(s, pattern, j),
    ensures
        first_occurrence_from(s, pattern, from) == Some(i),
    decreases i - from,
{
    if from < i {
        lemma_first_occurrence_is(s, pattern, from + 1, i);
    }
}

/// Updating the README again gives what a single update would have given: once
/// the marked block has been replaced by a block that runs from the start marker
/// to the end marker (with no end marker before its last characters), replacing
/// the block of the result by `next` is the same as replacing the block of the
/// original README by `next`.
pub proof fn lemma_update_is_repeatable(
    readme: Seq<char>,
    inner: Seq<char>,
    next: Seq<char>,
    marker_start: Seq<char>,
    marker_end: Seq<char>,
)
    requires
        replaced_text(readme, marker_start + inner + marker_end, marker_start, marker_end) is Ok,
        first_occurrence(inner + marker_end, marker_end) == Some(inner.len() as int),
    ensures
        replaced_text(
            replaced_text(readme, marker_start + inner + marker_end, marker_start, marker_end)->Ok_0,
            next,
            marker_start,
            marker_end,
        ) == replaced_text(readme, next, marker_start, marker_end),
{
    let block = marker_start + inner + marker_end;
    let ls = marker_start.len() as int;
    let le = marker_end.len() as int;
    lemma_first_occurrence(readme, marker_start, 0);
    let i = first_occurrence(readme, marker_start)->0;
    let before = readme.take(i);
    let rest = readme.skip(i + ls);
    lemma_first_occurrence(rest, marker_end, 0);
    let j = first_occurrence(rest, marker_end)->0;
    let after = rest.skip(j + le);
    let out = before + block + after;
    assert(replaced_text(readme, block, marker_start, marker_end) == Ok::<Seq<char>, Seq<char>>(
        out,
    ));
    // The start marker is first found where it was.
    assert(out.subrange(i, i + ls) =~= marker_start);
    assert(readme.subrange(i, i + ls) == marker_start);
    assert forall|k: int| 0 <= k < i implies !occurs_at(out, marker_start, k) by {
        assert(!occurs_at(readme, marker_start, k));
        assert forall|t: int| k <= t < k + ls implies out[t] == readme[t] by {
            if t >= i {
                assert(readme[t] == readme.subrange(i, i + ls)[t - i]);
            }
        }
        assert(out.subrange(k, k + ls) =~= readme.subrange(k, k + ls));
    }
    lemma_first_occurrence_is(out, marker_start, 0, i);
    // The end marker is first found at the end of the new block.
    let rest2 = out.skip(i + ls);
    assert(rest2 =~= inner + marker_end + after);
    lemma_first_occurrence(inner + marker_end, marker_end, 0);
    let ie = inner.len() as int;
    assert(rest2.subrange(ie, ie + le) =~= marker_end);
    assert forall|k: int| 0 <= k < ie implies !occurs_at(rest2, marker_end, k) by {
        assert(!occurs_at(inner + marker_end, marker_end, k));
        assert(rest2.subrange(k, k + le) =~= (inner + marker_end).subrange(k, k + le));
    }
    lemma_first_occurrence_is(rest2, marker_end, 0, ie);
    assert(rest2.skip(ie + le) =~= after);
    assert(out.take(i) =~= before);
}

/// Where `pattern` stands nowhere from `from` on, there is no first occurrence.
pub proof fn lemma_no_occurrence(s: Seq<char>, pattern: Seq<char>, from: int)
    requires
        0 <= from,
        forall|j: int| from <= j ==> !occurs_at(s, pattern, j),
    ensures
        first_occurrence_from(s, pattern, from) is None,
    decreases s.len() + 1 - from,
{
    if from + pattern.len() <= s.len() {
        lemma_no_occurrence(s, pattern, from + 1);
    }
}

/// Whether `pattern` stands in `chars` at position `i`.
fn matches_at(chars: &Vec<char>, pattern: &Vec<char>, i: usize) -> (r: bool)
    requires
        i + pattern.len() <= chars.len(),
    ensures
        r == occurs_at(chars@, pattern@, i as int),
{
    let mut k: usize = 0;
    while k < pattern.len()
        invariant
            k <= pattern.len(),
            i + pattern.len() <= chars.len(),
            forall|j: int| 0 <= j < k ==> chars@[i + j] == pattern@[j],
        decreases pattern.len() - k,
    {
        if chars[i + k] != pattern[k] {
            assert(chars@.subrange(i as int, i + pattern.len())[k as int] != pattern@[k as int]);
            return false;
        }
        k = k + 1;
    }
    assert(chars@.subrange(i as int, i + pattern.len()) =~= pattern@);
    true
}

/// The first position at which `pattern` stands in `chars`.
fn find(chars: &Vec<char>, pattern: &Vec<char>) -> (r: Option<usize>)
    ensures
        r matches Some(i) ==> first_occurrence(chars@, pattern@) == Some(i as int),
        r is None ==> first_occurrence(chars@, pattern@) is None,
{
    if pattern.len() > chars.len() {
        return None;
    }
    let last = chars.len() - pattern.len();
    let mut i: usize = 0;
    loop
        invariant
            i <= last,
            last + pattern.len() == chars.len(),
            first_occurrence(chars@, pattern@) == first_occurrence_from(chars@, pattern@, i as int),
        decreases last - i,
    {
        if matches_at(chars, pattern, i) {
            return Some(i);
        }
        if i == last {
            return None;
        }
        i = i + 1;
    }
}

/// Appends the characters `chars[from..to]` to `s`.
fn push_range(s: &mut String, chars: &Vec<char>, from: usize, to: usize)
    requires
        from <= to <= chars.len(),
    ensures
        final(s)@ == old(s)@ + chars@.subrange(from as int, to as int),
{
    let ghost start = s@;
    let mut k = from;
    while k < to
        invariant
            from <= k <= to,
            to <= chars.len(),
            s@ == start + chars@.subrange(from as int, k as int),
        decreases to - k,
    {
        push_char(s, chars[k]);
        assert(chars@.subrange(from as int, k + 1) =~= chars@.subrange(from as int, k as int).push(
            chars@[k as int],
        ));
        k = k + 1;
    }
}

/// What replacing the marked block gives: the README with the text from the
/// first start marker to the first end marker after it replaced by `block`, or
/// the message naming the marker that is missing.
pub open spec fn replaced_text(
    readme: Seq<char>,
    block: Seq<char>,
    marker_start: Seq<char>,
    marker_end: Seq<char>,
) -> Result<Seq<char>, Seq<char>> {
    match split_once(readme, marker_start) {
        None => Err("README must contain "@ + marker_start),
        Some((before, rest)) => match split_once(rest, marker_end) {
            None => Err("README must contain "@ + marker_end),
            Some((_, after)) => Ok(before + block + after),
        },
    }
}

/// Replaces the marked block of the README by `block`.
pub fn replace_block(readme: &str, block: &str, marker_start: &str, marker_end: &str) -> (r: Result<
    String,
    String,
>)
    ensures
        r matches Ok(text) ==> replaced_text(readme@, block@, marker_start@, marker_end@) == Ok::<
            Seq<char>,
            Seq<char>,
        >(text@),
        r matches Err(message) ==> replaced_text(readme@, block@, marker_start@, marker_end@)
            == Err::<Seq<char>, Seq<char>>(message@),
{
    let chars = chars_of(readme);
    let start = chars_of(marker_start);
    let end = chars_of(marker_end);
    match find(&chars, &start) {
        None => {
            let mut message = String::new();
            push_str(&mut message, "README must contain ");
            push_str(&mut message, marker_start);
            Err(message)
        },
        Some(i) => {
            proof {
                lemma_first_occurrence(chars@, start@, 0);
                assert(occurs_at(chars@, start@, i as int));
                assert(i + start@.len() <= chars@.len());
            }
            assert(i + start.len() <= chars.len());
            let rest_from = i + start.len();
            let mut rest: Vec<char> = Vec::new();
            let mut k = rest_from;
            while k < chars.len()
                invariant
                    rest_from <= k <= chars.len(),
                    rest@ == chars@.subrange(rest_from as int, k as int),
                decreases chars.len() - k,
            {
                rest.push(chars[k]);
                assert(chars@.subrange(rest_from as int, k + 1) =~= chars@.subrange(
                    rest_from as int,
                    k as int,
                ).push(chars@[k as int]));
                k = k + 1;
            }
            assert(rest@ =~= readme@.skip(rest_from as int));
            match find(&rest, &end) {
                None => {
                    let mut message = String::new();
                    push_str(&mut message, "README must contain ");
                    push_str(&mut message, marker_end);
                    Err(message)
                },
                Some(j) => {
                    proof {
                        lemma_first_occurrence(rest@, end@, 0);
                    }
                    let mut out = String::new();
                    push_range(&mut out, &chars, 0, i);
                    push_str(&mut out, block);
                    push_range(&mut out, &rest, j + end.len(), rest.len());
                    assert(out@ =~= readme@.take(i as int) + block@ + rest@.skip(j + end@.len()));
                    Ok(out)
                },
            }
        },
    }
}

} // verus!
