//! Findings that a second look shows to be wrong are taken out.
use vstd::prelude::*;

use crate::budget::{items_are_kept_one_by_one, kept, retain};
use crate::engine::{finding_views, ReviewFinding};
use crate::error::AgentError;
use crate::json::{
    item_views, json_parsed, json_pretty, lemma_array_view, parse_json, settled, write_json_pretty,
    Json, JsonView,
};
use crate::numeral::{
    decimal, decimal_is_digits, decimal_reads_back, is_digit, parse_u64, read_digits, read_unsigned,
    NumberError,
};
use crate::report::{findings_array, findings_json};
use crate::text::{
    chars_of, contains, find, find_from, join, lemma_find_from, lemma_find_tail,
    lemma_first_separator, lemma_split_front, lemma_split_one, lemma_views_push, lines, occurs_at,
    parts_are_contained, position_from, split, starts_with, text_between, text_join, text_lines, text_of,
    text_split, text_starts_with, text_trim, trim, views,
};

verus! {

/// What the model is told to do with findings.
pub const FILTER_SYSTEM_PROMPT: &'static str = "You are a review quality checker. Given a diff and a list of review findings, identify which findings are incorrect or not supported by the diff. Return ONLY a JSON array of indices to REMOVE (empty array if all are correct).";

/// The prompt that asks which findings are wrong, given the findings as JSON.
pub open spec fn filter_prompt_text(findings: Seq<char>, diff: Seq<char>) -> Seq<char> {
    "Diff:\n```\n"@ + diff + "\n```\n\nFindings:\n"@ + findings
        + "\n\nReturn a JSON array of indices to remove (e.g. [0, 3]) or [] if all are correct."@
}

/// The prompt that asks which findings are wrong; nothing where there are none
/// to ask about.
pub fn filter_prompt(findings: &Vec<ReviewFinding>, diff: &str) -> (r: Result<
    Option<String>,
    AgentError,
>)
    ensures
        findings@.len() == 0 ==> r matches Ok(None),
        findings@.len() > 0 ==> match r {
            Ok(p) => p matches Some(prompt) && (json_pretty(
                settled(findings_array(finding_views(findings@))),
            ) matches Some(text) && prompt@ == filter_prompt_text(text, diff@)),
            Err(e) => e is Serde && json_pretty(
                settled(findings_array(finding_views(findings@))),
            ) is None,
        },
{
    if findings.len() == 0 {
        return Ok(None);
    }
    match write_json_pretty(findings_json(findings)) {
        Ok(text) => {
            let mut p = "Diff:\n```\n".to_owned();
            p.push_str(diff);
            p.push_str("\n```\n\nFindings:\n");
            p.push_str(text.as_str());
            p.push_str(
                "\n\nReturn a JSON array of indices to remove (e.g. [0, 3]) or [] if all are correct.",
            );
            Ok(Some(p))
        },
        Err(e) => Err(AgentError::Serde(e)),
    }
}

// ---------------------------------------------------------------------------
// The answer

/// A line that opens or closes a fence.
pub open spec fn fence_line(line: Seq<char>) -> bool {
    starts_with(trim(line), "```"@)
}

/// The lines without the fences in front.
pub open spec fn after_fences(all: Seq<Seq<char>>) -> Seq<Seq<char>>
    decreases all.len(),
{
    if all.len() > 0 && fence_line(all[0]) {
        after_fences(all.subrange(1, all.len() as int))
    } else {
        all
    }
}

/// The lines up to the first fence.
pub open spec fn before_fence(all: Seq<Seq<char>>) -> Seq<Seq<char>>
    decreases all.len(),
{
    if all.len() == 0 || fence_line(all[0]) {
        Seq::empty()
    } else {
        seq![all[0]] + before_fence(all.subrange(1, all.len() as int))
    }
}

/// The lines of an answer without the fences around them.
pub open spec fn unfenced(text: Seq<char>) -> Seq<Seq<char>> {
    before_fence(after_fences(lines(text)))
}

/// The lines of an answer without the fences around them.
pub fn unfenced_lines(text: &str) -> (r: Vec<String>)
    ensures
        views(r@) == unfenced(text@),
{
    let all = text_lines(text);
    let ghost v = views(all@);
    let n: usize = all.len();
    let mut i: usize = 0;
    assert(v.subrange(0, v.len() as int) =~= v);
    while i < n && text_starts_with(text_trim(all[i].as_str()).as_str(), "```")
        invariant
            i <= n,
            n == all@.len(),
            v == views(all@),
            after_fences(v) == after_fences(v.subrange(i as int, n as int)),
        decreases n - i,
    {
        proof {
            let tail = v.subrange(i as int, n as int);
            assert(tail[0] == all@[i as int]@);
            assert(tail.subrange(1, tail.len() as int) =~= v.subrange(i + 1, n as int));
        }
        i += 1;
    }
    proof {
        let tail = v.subrange(i as int, n as int);
        if i < n {
            assert(tail[0] == all@[i as int]@);
        }
    }
    let ghost kept_lines = v.subrange(i as int, n as int);
    let mut out: Vec<String> = Vec::new();
    assert(views(out@) + before_fence(kept_lines) =~= before_fence(kept_lines));
    while i < n && !text_starts_with(text_trim(all[i].as_str()).as_str(), "```")
        invariant
            i <= n,
            n == all@.len(),
            v == views(all@),
            before_fence(kept_lines) == views(out@) + before_fence(v.subrange(i as int, n as int)),
        decreases n - i,
    {
        proof {
            let tail = v.subrange(i as int, n as int);
            assert(tail[0] == all@[i as int]@);
            assert(tail.subrange(1, tail.len() as int) =~= v.subrange(i + 1, n as int));
            lemma_views_push(out@, all@[i as int]);
            let rest = before_fence(v.subrange(i + 1, n as int));
            assert(views(out@) + (seq![all@[i as int]@] + rest) =~= views(out@).push(
                all@[i as int]@,
            ) + rest);
        }
        out.push(all[i].clone());
        i += 1;
    }
    proof {
        let tail = v.subrange(i as int, n as int);
        if i < n {
            assert(tail[0] == all@[i as int]@);
        }
        assert(before_fence(tail) =~= Seq::<Seq<char>>::empty());
        assert(views(out@) + before_fence(tail) =~= views(out@));
    }
    out
}

/// The numbers of a JSON array that holds nothing but numbers that fit a `usize`.
pub open spec fn index_array(v: Option<JsonView>) -> Option<Seq<usize>> {
    match v {
        Some(JsonView::Array(items)) => if forall|i: int|
            0 <= i < items.len() ==> ((#[trigger] items[i]).as_u64() matches Some(n) && n
                <= usize::MAX) {
            Some(Seq::new(items.len(), |i: int| items[i].as_u64().unwrap() as usize))
        } else {
            None
        },
        _ => None,
    }
}

/// A character between which words are looked for.
pub open spec fn separates(c: char) -> bool {
    c == ',' || c == '[' || c == ']' || c == ' '
}

/// The words of a text: what stands between commas, brackets and spaces.
pub open spec fn words(text: Seq<char>) -> Seq<Seq<char>> {
    split(
        text.map_values(
            |c: char|
                if separates(c) {
                    ' '
                } else {
                    c
                },
        ),
        ' ',
    )
}

/// The numbers among words, in their order.
pub open spec fn numbers(all: Seq<Seq<char>>) -> Seq<usize>
    decreases all.len(),
{
    if all.len() == 0 {
        Seq::empty()
    } else {
        let front = numbers(all.drop_last());
        match read_unsigned(trim(all.last()), usize::MAX as nat) {
            Ok(n) => front.push(n as usize),
            Err(_) => front,
        }
    }
}

/// What stands in brackets: between each `[` and the next `]`, and behind a last
/// `[` that is not closed.
pub open spec fn bracketed(text: Seq<char>) -> Seq<Seq<char>>
    decreases text.len(),
{
    match find(text, seq!['[']) {
        Some(i) => if 0 <= i < text.len() {
            let rest = text.subrange(i + 1, text.len() as int);
            match find(rest, seq![']']) {
                Some(j) => if 0 <= j < rest.len() {
                    seq![rest.subrange(0, j)] + bracketed(
                        rest.subrange(j + 1, rest.len() as int),
                    )
                } else {
                    Seq::empty()
                },
                None => seq![rest],
            }
        } else {
            Seq::empty()
        },
        None => Seq::empty(),
    }
}

/// The indices that an answer names, given what it is as JSON: the numbers of an
/// array, else every number in brackets. Numbers in the text around them do not
/// count.
pub open spec fn indices_of(text: Seq<char>, parsed: Option<JsonView>) -> Seq<usize> {
    match index_array(parsed) {
        Some(indices) => indices,
        None => numbers(words(join(bracketed(text), " "@))),
    }
}

/// Text in front of the first bracket names no index.
pub proof fn text_before_brackets_does_not_count(front: Seq<char>, text: Seq<char>)
    requires
        !front.contains('['),
    ensures
        bracketed(front + text) == bracketed(text),
        indices_of(front + text, None) == indices_of(text, None),
{
    let whole = front + text;
    let n = front.len() as int;
    let pat = seq!['['];
    lemma_find_from(whole, pat, 0);
    lemma_find_from(whole, pat, n);
    assert forall|i: int| 0 <= i < n implies !occurs_at(whole, pat, i) by {
        assert(front[i] != '[');
        assert(whole.subrange(i, i + 1)[0] == front[i]);
        assert(pat[0] == '[');
    }
    assert(find(whole, pat) == find_from(whole, pat, n));
    lemma_find_tail(whole, pat, n, n);
    assert(whole.subrange(n, whole.len() as int) =~= text);
    match find(text, pat) {
        Some(i) => {
            assert(whole.subrange(n + i + 1, whole.len() as int) =~= text.subrange(
                i + 1,
                text.len() as int,
            ));
        },
        None => {},
    }
}

fn in_brackets(text: &str) -> (r: Vec<String>)
    ensures
        views(r@) == bracketed(text@),
{
    let v = chars_of(text);
    let mut open: Vec<char> = Vec::new();
    open.push('[');
    let mut close: Vec<char> = Vec::new();
    close.push(']');
    assert(open@ =~= seq!['[']);
    assert(close@ =~= seq![']']);
    let n: usize = v.len();
    let mut out: Vec<String> = Vec::new();
    let mut start: usize = 0;
    assert(v@.subrange(0, v@.len() as int) =~= v@);
    assert(views(out@) + bracketed(v@) =~= bracketed(v@));
    loop
        invariant
            v@ == text@,
            n == v@.len(),
            open@ == seq!['['],
            close@ == seq![']'],
            start <= n,
            bracketed(v@) == views(out@) + bracketed(v@.subrange(start as int, n as int)),
        decreases n - start,
    {
        let ghost tail = v@.subrange(start as int, n as int);
        proof {
            lemma_find_tail(v@, open@, start as int, start as int);
        }
        let i: usize = match position_from(&v, &open, start) {
            Some(i) => i,
            None => {
                assert(views(out@) + bracketed(tail) =~= views(out@));
                return out;
            },
        };
        let ghost rest = v@.subrange(i + 1, n as int);
        proof {
            assert(tail.subrange(i - start + 1, tail.len() as int) =~= rest);
            lemma_find_tail(v@, close@, i + 1, i + 1);
        }
        let j: usize = match position_from(&v, &close, i + 1) {
            Some(j) => j,
            None => {
                let open_end = text_between(&v, i + 1, n);
                proof {
                    lemma_views_push(out@, open_end);
                    assert(views(out@) + bracketed(tail) =~= views(out@).push(open_end@));
                }
                out.push(open_end);
                return out;
            },
        };
        let inner = text_between(&v, i + 1, j);
        proof {
            let left = bracketed(v@.subrange(j + 1, n as int));
            lemma_views_push(out@, inner);
            assert(rest.subrange(0, j - i - 1) =~= inner@);
            assert(rest.subrange(j - i, rest.len() as int) =~= v@.subrange(j + 1, n as int));
            assert(views(out@) + (seq![inner@] + left) =~= views(out@).push(inner@) + left);
        }
        out.push(inner);
        start = j + 1;
    }
}

/// A number that is read with a smaller bound is read with a larger one too.
proof fn lemma_bound(s: Seq<char>, acc: nat, small: nat, large: nat)
    requires
        small <= large,
    ensures
        read_digits(s, acc, small) matches Ok(n) ==> read_digits(s, acc, large) == Ok::<
            nat,
            NumberError,
        >(n),
        read_digits(s, acc, large) matches Ok(n) ==> n <= small ==> acc <= small ==> read_digits(
            s,
            acc,
            small,
        ) == Ok::<nat, NumberError>(n),
        read_digits(s, acc, large) matches Ok(n) ==> n >= acc,
        acc <= small ==> (read_digits(s, acc, small) matches Ok(n) ==> n <= small),
    decreases s.len(),
{
    if s.len() > 0 && crate::numeral::is_digit(s[0]) {
        let v = acc * 10 + crate::numeral::digit_value(s[0]);
        lemma_bound(s.subrange(1, s.len() as int), v, small, large);
    }
}

fn parse_usize(s: &str) -> (r: Option<usize>)
    ensures
        match r {
            Some(n) => read_unsigned(s@, usize::MAX as nat) == Ok::<nat, NumberError>(n as nat),
            None => read_unsigned(s@, usize::MAX as nat) is Err,
        },
{
    proof {
        lemma_bound(s@, 0, usize::MAX as nat, u64::MAX as nat);
        if s@.len() > 0 {
            lemma_bound(
                s@.subrange(1, s@.len() as int),
                0,
                usize::MAX as nat,
                u64::MAX as nat,
            );
        }
    }
    match parse_u64(s) {
        Ok(n) => if n <= usize::MAX as u64 {
            Some(n as usize)
        } else {
            None
        },
        Err(_) => None,
    }
}

/// The indices that an answer names, given what it is as JSON.
pub fn indices_from(text: &str, parsed: Option<Json>) -> (r: Vec<usize>)
    ensures
        r@ == indices_of(
            text@,
            match parsed {
                Some(j) => Some(j@),
                None => None,
            },
        ),
{
    match &parsed {
        Some(Json::Array(items)) => {
            proof {
                lemma_array_view(*items);
            }
            let ghost held = item_views(items@);
            let mut out: Vec<usize> = Vec::new();
            let mut i: usize = 0;
            let mut all = true;
            while i < items.len() && all
                invariant
                    i <= items@.len(),
                    held == item_views(items@),
                    all ==> out@.len() == i,
                    all ==> forall|j: int|
                        0 <= j < i ==> ((#[trigger] held[j]).as_u64() matches Some(n) && n
                            <= usize::MAX && out@[j] == n as usize),
                    !all ==> exists|j: int|
                        0 <= j < held.len() && !((#[trigger] held[j]).as_u64() matches Some(n) && n
                            <= usize::MAX),
                decreases items@.len() - i,
            {
                assert(held[i as int] == items@[i as int]@);
                match items[i].as_u64() {
                    Some(n) => {
                        if n <= usize::MAX as u64 {
                            out.push(n as usize);
                        } else {
                            all = false;
                        }
                    },
                    None => {
                        all = false;
                    },
                }
                i += 1;
            }
            if all {
                assert(out@ =~= index_array(Some(JsonView::Array(held))).unwrap());
                return out;
            }
        },
        _ => {},
    }
    let inner = text_join(&in_brackets(text), " ");
    let source = chars_of(inner.as_str());
    let mut spaced: Vec<char> = Vec::new();
    let mut i: usize = 0;
    let ghost mapped = inner@.map_values(
        |c: char|
            if separates(c) {
                ' '
            } else {
                c
            },
    );
    while i < source.len()
        invariant
            i <= source@.len(),
            source@ == inner@,
            mapped == inner@.map_values(
                |c: char|
                    if separates(c) {
                        ' '
                    } else {
                        c
                    },
            ),
            spaced@ == mapped.take(i as int),
        decreases source@.len() - i,
    {
        let c: char = source[i];
        spaced.push(
            if c == ',' || c == '[' || c == ']' || c == ' ' {
                ' '
            } else {
                c
            },
        );
        i += 1;
    }
    assert(spaced@ =~= mapped);
    let all = text_split(text_of(&spaced).as_str(), ' ');
    let ghost v = views(all@);
    assert(v == words(inner@));
    let mut out: Vec<usize> = Vec::new();
    let mut k: usize = 0;
    while k < all.len()
        invariant
            k <= all@.len(),
            v == views(all@),
            out@ == numbers(v.take(k as int)),
        decreases all@.len() - k,
    {
        assert(v.take(k + 1).drop_last() =~= v.take(k as int));
        assert(v.take(k + 1).last() == all@[k as int]@);
        match parse_usize(text_trim(all[k].as_str()).as_str()) {
            Some(n) => {
                out.push(n);
            },
            None => {},
        }
        k += 1;
    }
    assert(v.take(k as int) =~= v);
    out
}

/// The indices that an answer names, with or without a fence and text around them.
pub fn parse_indices(text: &str) -> (r: Vec<usize>)
    ensures
        ({
            let cleaned = join(unfenced(text@), "\n"@);
            r@ == indices_of(cleaned, json_parsed(cleaned))
        }),
{
    let cleaned = text_join(&unfenced_lines(text), "\n");
    let parsed = parse_json(cleaned.as_str());
    indices_from(cleaned.as_str(), parsed)
}

/// Which findings stay when the given ones go.
pub open spec fn stays(n: nat, remove: Seq<usize>) -> Seq<bool> {
    Seq::new(n, |i: int| !exists|j: int| 0 <= j < remove.len() && #[trigger] remove[j] == i)
}

/// The findings without those at the given indices. An index of no finding is
/// passed over.
pub fn remove_findings(findings: Vec<ReviewFinding>, remove: &Vec<usize>) -> (r: Vec<ReviewFinding>)
    ensures
        r@ == kept(findings@, stays(findings@.len(), remove@)),
{
    let ghost n = findings@.len();
    let mut flags: Vec<bool> = Vec::new();
    let mut i: usize = 0;
    while i < findings.len()
        invariant
            i <= findings@.len(),
            n == findings@.len(),
            flags@ == stays(n, remove@).take(i as int),
        decreases findings@.len() - i,
    {
        let mut found = false;
        let mut k: usize = 0;
        while k < remove.len() && !found
            invariant
                k <= remove@.len(),
                found ==> exists|j: int| 0 <= j < remove@.len() && #[trigger] remove@[j] == i,
                !found ==> forall|j: int| 0 <= j < k ==> #[trigger] remove@[j] != i,
            decreases remove@.len() - k,
        {
            if remove[k] == i {
                assert(remove@[k as int] == i);
                found = true;
            }
            k += 1;
        }
        flags.push(!found);
        assert(stays(n, remove@)[i as int] == !found);
        i += 1;
    }
    assert(flags@ =~= stays(n, remove@));
    retain(findings, &flags)
}

/// What is left of the findings, given the answer of the model: those that it
/// names go. Where there was nothing to ask about every finding stays; where the
/// answer could not be had, why not is handed on.
pub fn filter_findings(
    findings: Vec<ReviewFinding>,
    answer: Result<Option<String>, AgentError>,
) -> (r: Result<Vec<ReviewFinding>, AgentError>)
    ensures
        match answer {
            Ok(Some(text)) => {
                let cleaned = join(unfenced(text@), "\n"@);
                r matches Ok(left) && left@ == kept(
                    findings@,
                    stays(findings@.len(), indices_of(cleaned, json_parsed(cleaned))),
                )
            },
            Ok(None) => r == Ok::<Vec<ReviewFinding>, AgentError>(findings),
            Err(e) => r == Err::<Vec<ReviewFinding>, AgentError>(e),
        },
{
    match answer {
        Ok(Some(text)) => Ok(remove_findings(findings, &parse_indices(text.as_str()))),
        Ok(None) => Ok(findings),
        Err(e) => Err(e),
    }
}

/// Where no index is named, every finding stays.
pub proof fn nothing_named_keeps_all(findings: Seq<ReviewFinding>)
    ensures
        kept(findings, stays(findings.len(), Seq::empty())) == findings,
    decreases findings.len(),
{
    if findings.len() > 0 {
        let front = findings.drop_last();
        nothing_named_keeps_all(front);
        assert(stays(findings.len(), Seq::empty()).drop_last() =~= stays(
            front.len(),
            Seq::empty(),
        ));
        assert(front.push(findings.last()) =~= findings);
    } else {
        assert(kept(findings, stays(findings.len(), Seq::empty())) =~= findings);
    }
}

/// A finding goes just where its index is named, and what stays keeps its order:
/// whatever becomes of the findings before and behind it, it is between them or not.
pub proof fn named_findings_go(findings: Seq<ReviewFinding>, remove: Seq<usize>, i: int)
    requires
        0 <= i < findings.len(),
        findings.len() <= usize::MAX,
    ensures
        ({
            let flags = stays(findings.len(), remove);
            let before = kept(findings.take(i), flags.take(i));
            let behind = kept(findings.skip(i + 1), flags.skip(i + 1));
            let left = kept(findings, flags);
            &&& remove.contains(i as usize) ==> left == before + behind
            &&& !remove.contains(i as usize) ==> left == before.push(findings[i]) + behind
        }),
{
    let flags = stays(findings.len(), remove);
    let x = findings[i];
    items_are_kept_one_by_one(
        findings.take(i + 1),
        findings.skip(i + 1),
        flags.take(i + 1),
        flags.skip(i + 1),
        x,
    );
    assert(findings.take(i + 1) + findings.skip(i + 1) =~= findings);
    assert(flags.take(i + 1) + flags.skip(i + 1) =~= flags);
    items_are_kept_one_by_one(
        findings.take(i),
        seq![x],
        flags.take(i),
        seq![flags[i]],
        x,
    );
    assert(findings.take(i) + seq![x] =~= findings.take(i + 1));
    assert(flags.take(i) + seq![flags[i]] =~= flags.take(i + 1));
    let before = kept(findings.take(i), flags.take(i));
    let none = Seq::<ReviewFinding>::empty();
    if remove.contains(i as usize) {
        let k = choose|k: int| 0 <= k < remove.len() && remove[k] == i as usize;
        assert(remove[k] == i);
        assert(seq![flags[i]] =~= seq![false]);
        assert(before + none =~= before);
    } else {
        if exists|j: int| 0 <= j < remove.len() && #[trigger] remove[j] == i {
            let j = choose|j: int| 0 <= j < remove.len() && #[trigger] remove[j] == i;
            assert(remove.contains(remove[j]));
        }
        assert(seq![flags[i]] =~= seq![true]);
        assert(before + seq![x] =~= before.push(x));
    }
}

/// The numbers of a list are the indices that an answer names, one for one.
pub proof fn listed_numbers_are_the_indices(text: Seq<char>, items: Seq<JsonView>)
    requires
        forall|i: int|
            0 <= i < items.len() ==> ((#[trigger] items[i]).as_u64() matches Some(n) && n
                <= usize::MAX),
    ensures
        indices_of(text, Some(JsonView::Array(items))).len() == items.len(),
        forall|i: int|
            0 <= i < items.len() ==> items[i].as_u64() == Some(
                #[trigger] indices_of(text, Some(JsonView::Array(items)))[i] as u64,
            ),
{
    let out = indices_of(text, Some(JsonView::Array(items)));
    assert forall|i: int| 0 <= i < items.len() implies items[i].as_u64() == Some(
        #[trigger] out[i] as u64,
    ) by {
        assert(items[i].as_u64() is Some);
    }
}

/// The numbers among words are read one by one, and what is no number is passed over.
pub proof fn numbers_are_read_one_by_one(a: Seq<Seq<char>>, b: Seq<Seq<char>>, n: usize)
    ensures
        numbers(a + b) == numbers(a) + numbers(b),
        numbers(seq![decimal(n as nat)]) == seq![n],
        numbers(seq![Seq::<char>::empty()]) == Seq::<usize>::empty(),
        numbers(Seq::empty()) == Seq::<usize>::empty(),
    decreases b.len(),
{
    reveal_with_fuel(numbers, 2);
    let d = decimal(n as nat);
    decimal_is_digits(n as nat);
    decimal_reads_back(n as nat, usize::MAX as nat);
    assert(is_digit(d[0]) && is_digit(d[d.len() - 1]));
    assert(trim(d) == d);
    assert(seq![d].drop_last() =~= Seq::<Seq<char>>::empty());
    assert(numbers(seq![d]) =~= seq![n]);
    let none = Seq::<char>::empty();
    assert(seq![none].drop_last() =~= Seq::<Seq<char>>::empty());
    if b.len() == 0 {
        assert(a + b =~= a);
        assert(numbers(a) + numbers(b) =~= numbers(a));
    } else {
        numbers_are_read_one_by_one(a, b.drop_last(), n);
        assert((a + b).drop_last() =~= a + b.drop_last());
        assert(numbers(a + b) =~= numbers(a) + numbers(b));
    }
}

/// What stands in brackets is read bracket by bracket, and the last one need not be
/// closed.
pub proof fn brackets_are_read_one_by_one(inner: Seq<char>, rest: Seq<char>)
    requires
        !inner.contains(']'),
    ensures
        bracketed(seq!['['] + inner + seq![']'] + rest) == seq![inner] + bracketed(rest),
        bracketed(seq!['['] + inner) == seq![inner],
{
    let s = seq!['['] + inner + seq![']'] + rest;
    lemma_first_separator(s, '[');
    assert(s[0] == '[');
    assert(find(s, seq!['[']) == Some(0int)) by {
        match find(s, seq!['[']) {
            Some(i) => {
                if i > 0 {
                    assert(s.subrange(0, i)[0] == '[');
                }
            },
            None => {
                assert(s.contains(s[0]));
            },
        }
    }
    let tail = s.subrange(1, s.len() as int);
    assert(tail =~= inner + seq![']'] + rest);
    lemma_first_separator(tail, ']');
    let n = inner.len() as int;
    assert(tail[n] == ']');
    match find(tail, seq![']']) {
        Some(j) => {
            if j < n {
                assert(tail[j] == inner[j]);
            } else if j > n {
                assert(tail.subrange(0, j)[n] == ']');
            }
            assert(tail.subrange(0, j) =~= inner);
            assert(tail.subrange(j + 1, tail.len() as int) =~= rest);
        },
        None => {
            assert(tail.contains(tail[n]));
        },
    }
    let t = seq!['['] + inner;
    lemma_first_separator(t, '[');
    assert(find(t, seq!['[']) == Some(0int)) by {
        match find(t, seq!['[']) {
            Some(i) => {
                if i > 0 {
                    assert(t.subrange(0, i)[0] == '[');
                }
            },
            None => {
                assert(t.contains(t[0]));
            },
        }
    }
    assert(t.subrange(1, t.len() as int) =~= inner);
    lemma_first_separator(inner, ']');
    match find(inner, seq![']']) {
        Some(j) => {
            assert(inner.contains(inner[j]));
        },
        None => {},
    }
}

/// Words are parted by commas, brackets and spaces, each on its own.
pub proof fn words_are_parted_by_separators(word: Seq<char>, c: char, rest: Seq<char>)
    requires
        !word.contains(','),
        !word.contains('['),
        !word.contains(']'),
        !word.contains(' '),
        c == ',' || c == '[' || c == ']' || c == ' ',
    ensures
        words(word + seq![c] + rest) == seq![word] + words(rest),
        words(word) == seq![word],
{
    let m = |c: char|
        if separates(c) {
            ' '
        } else {
            c
        };
    assert(word.map_values(m) =~= word) by {
        assert forall|i: int| 0 <= i < word.len() implies m(word[i]) == word[i] by {
            assert(word.contains(word[i]));
        }
    }
    assert((word + seq![c] + rest).map_values(m) =~= word + seq![' '] + rest.map_values(m));
    lemma_split_front(word, ' ', rest.map_values(m));
    lemma_split_one(word, ' ');
}

/// What an answer says is what stands between its fences, or before the first one where
/// it begins without.
pub proof fn fences_come_off(
    front: Seq<Seq<char>>,
    body: Seq<Seq<char>>,
    rest: Seq<Seq<char>>,
)
    requires
        forall|i: int| 0 <= i < front.len() ==> fence_line(#[trigger] front[i]),
        forall|i: int| 0 <= i < body.len() ==> !fence_line(#[trigger] body[i]),
        rest.len() == 0 || (fence_line(rest[0]) && body.len() > 0),
    ensures
        before_fence(after_fences(front + body + rest)) == body,
    decreases front.len(), body.len(),
{
    let all = front + body + rest;
    if front.len() > 0 {
        let tail = front.subrange(1, front.len() as int);
        assert(all[0] == front[0]);
        assert(all.subrange(1, all.len() as int) =~= tail + body + rest);
        assert forall|i: int| 0 <= i < tail.len() implies fence_line(#[trigger] tail[i]) by {
            assert(tail[i] == front[i + 1]);
        }
        fences_come_off(tail, body, rest);
    } else {
        assert(all =~= body + rest);
        if body.len() > 0 {
            assert(all[0] == body[0]);
            assert(after_fences(all) == all);
            lemma_before_fence(body, rest);
        } else {
            assert(rest.len() == 0);
            assert(all =~= body);
        }
    }
}

proof fn lemma_before_fence(body: Seq<Seq<char>>, rest: Seq<Seq<char>>)
    requires
        forall|i: int| 0 <= i < body.len() ==> !fence_line(#[trigger] body[i]),
        rest.len() == 0 || fence_line(rest[0]),
    ensures
        before_fence(body + rest) == body,
    decreases body.len(),
{
    let all = body + rest;
    if body.len() == 0 {
        assert(all =~= rest);
        assert(before_fence(all) =~= body);
    } else {
        let tail = body.subrange(1, body.len() as int);
        assert(all[0] == body[0]);
        assert(all.subrange(1, all.len() as int) =~= tail + rest);
        assert forall|i: int| 0 <= i < tail.len() implies !fence_line(#[trigger] tail[i]) by {
            assert(tail[i] == body[i + 1]);
        }
        lemma_before_fence(tail, rest);
        assert(seq![body[0]] + tail =~= body);
    }
}

/// The model that is asked which findings are wrong sees the whole diff and the findings.
pub proof fn questions_show_diff_and_findings(findings: Seq<char>, diff: Seq<char>)
    ensures
        contains(filter_prompt_text(findings, diff), "Diff:\n```\n"@ + diff + "\n```"@),
        contains(filter_prompt_text(findings, diff), "Findings:\n"@ + findings),
{
    reveal_strlit("\n```\n\nFindings:\n");
    reveal_strlit("\n```");
    reveal_strlit("Findings:\n");
    let end =
        "\n\nReturn a JSON array of indices to remove (e.g. [0, 3]) or [] if all are correct."@;
    let p = filter_prompt_text(findings, diff);
    let shown = "Diff:\n```\n"@ + diff + "\n```"@;
    let gap = "\n```\n\nFindings:\n"@.subrange(4, 6);
    let list = "Findings:\n"@ + findings;
    assert("\n```\n\nFindings:\n"@ =~= "\n```"@ + gap + "Findings:\n"@);
    let none = Seq::<char>::empty();
    assert(p =~= shown + gap + list + end);
    parts_are_contained(none, shown, gap + list + end);
    assert(none + shown + (gap + list + end) =~= p);
    parts_are_contained(shown + gap, list, end);
}

} // verus!
