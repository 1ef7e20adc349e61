//! Token estimates, and the choice of files that fit a token budget.
use vstd::prelude::*;
use vstd::utf8::encode_utf8;

use crate::budget::{
    all_set, fit, kept, kept_length, lemma_all_set, retain, total_set, within_budget,
    within_budget_drops_largest_first, within_budget_drops_no_more_than_needed, within_budget_fits,
    within_budget_narrows,
};
use crate::diff::{file_text, format_diff_file, DiffFile};

verus! {

/// The encoding by which tokens are counted.
pub const ENCODING: &'static str = "cl100k_base";

/// How many tokens an encoding makes of a text; nothing where no encoding of
/// that name is built in.
pub uninterp spec fn bpe_tokens(encoding: Seq<char>, text: Seq<char>) -> Option<usize>;

/// `tiktoken::get_encoding` and, on the encoding that it gives, `CoreBpe::count`:
/// the number of tokens is a function of the name of the encoding and of the
/// text, which is named here.
#[verifier::external_body]
fn bpe_count(encoding: &str, text: &str) -> (r: Option<usize>)
    ensures
        r == bpe_tokens(encoding@, text@),
{
    tiktoken::get_encoding(encoding).map(|bpe| bpe.count(text))
}

/// The estimate for a text, given what the encoding counted: nothing for the
/// empty text, the count where there is one, else two tokens for seven bytes.
pub open spec fn estimated(text: Seq<char>, counted: Option<usize>) -> usize {
    if text.len() == 0 {
        0
    } else {
        match counted {
            Some(n) => n,
            None => (encode_utf8(text).len() * 2 / 7) as usize,
        }
    }
}

/// The estimated number of tokens of a text.
pub open spec fn tokens_of(text: Seq<char>) -> usize {
    estimated(text, bpe_tokens(ENCODING@, text))
}

/// The estimate for a text, given what the encoding counted.
pub fn estimate_from_count(text: &str, counted: Option<usize>) -> (r: usize)
    ensures
        r == estimated(text@, counted),
{
    if text.is_empty() {
        return 0;
    }
    match counted {
        Some(n) => n,
        None => {
            let bytes: usize = text.as_bytes().len();
            (bytes as u128 * 2 / 7) as usize
        },
    }
}

/// Estimates the number of tokens of a text.
pub fn estimate_tokens(text: &str) -> (r: usize)
    ensures
        r == tokens_of(text@),
{
    estimate_from_count(text, bpe_count(ENCODING, text))
}

/// The estimated number of tokens of each changed file.
pub open spec fn diff_weights(files: Seq<DiffFile>) -> Seq<u128> {
    Seq::new(files.len(), |i: int| tokens_of(file_text(files[i])) as u128)
}

/// The files that stay within the budget.
pub open spec fn diff_within_budget(files: Seq<DiffFile>, max_tokens: nat) -> Seq<DiffFile> {
    kept(files, within_budget(diff_weights(files), all_set(files.len()), max_tokens))
}

/// Drops whole files, the largest first, until the estimate of the rest fits
/// `max_tokens` or one file is left. Returns how many were dropped.
pub fn truncate_to_budget(files: &mut Vec<DiffFile>, max_tokens: usize) -> (r: usize)
    ensures
        final(files)@ == diff_within_budget(old(files)@, max_tokens as nat),
        r == old(files)@.len() - final(files)@.len(),
        old(files)@.len() > 0 ==> final(files)@.len() > 0,
{
    let mut weights: Vec<u128> = Vec::new();
    let mut i: usize = 0;
    while i < files.len()
        invariant
            i <= files@.len(),
            files@ == old(files)@,
            weights@ == diff_weights(files@).take(i as int),
        decreases files@.len() - i,
    {
        weights.push(estimate_tokens(format_diff_file(&files[i]).as_str()) as u128);
        i += 1;
    }
    assert(weights@ =~= diff_weights(files@));
    let before: usize = files.len();
    let flags = fit(&weights, max_tokens);
    let mut taken: Vec<DiffFile> = Vec::new();
    std::mem::swap(files, &mut taken);
    proof {
        kept_length(taken@, flags@);
        within_budget_narrows(weights@, all_set(weights@.len()), max_tokens as nat);
        lemma_all_set(weights@.len());
    }
    *files = retain(taken, &flags);
    before - files.len()
}

/// The estimated tokens of changed files together.
pub open spec fn tokens_together(files: Seq<DiffFile>) -> nat
    decreases files.len(),
{
    if files.len() == 0 {
        0
    } else {
        tokens_together(files.drop_last()) + tokens_of(file_text(files.last())) as nat
    }
}

proof fn lemma_tokens_kept(files: Seq<DiffFile>, flags: Seq<bool>)
    requires
        files.len() == flags.len(),
    ensures
        total_set(diff_weights(files), flags) == tokens_together(kept(files, flags)),
    decreases files.len(),
{
    if files.len() > 0 {
        let front = files.drop_last();
        lemma_tokens_kept(front, flags.drop_last());
        assert(diff_weights(files).drop_last() =~= diff_weights(front));
        let rest = kept(front, flags.drop_last());
        assert(rest.push(files.last()).drop_last() =~= rest);
    }
}

proof fn lemma_all_kept(files: Seq<DiffFile>)
    ensures
        kept(files, all_set(files.len())) == files,
    decreases files.len(),
{
    if files.len() > 0 {
        let front = files.drop_last();
        lemma_all_kept(front);
        assert(all_set(files.len()).drop_last() =~= all_set(front.len()));
        assert(front.push(files.last()) =~= files);
    } else {
        assert(kept(files, all_set(0)) =~= files);
    }
}

/// Files are only dropped for want of room: where all of them fit the budget, all of
/// them stay. What stays fits the budget, or is one file.
pub proof fn files_are_dropped_for_want_of_room(files: Seq<DiffFile>, budget: nat)
    ensures
        tokens_together(files) <= budget ==> diff_within_budget(files, budget) == files,
        tokens_together(diff_within_budget(files, budget)) <= budget || diff_within_budget(
            files,
            budget,
        ).len() <= 1,
        files.len() > 0 ==> diff_within_budget(files, budget).len() > 0,
{
    let weights = diff_weights(files);
    let all = all_set(files.len());
    let left = within_budget(weights, all, budget);
    lemma_all_set(files.len());
    lemma_all_kept(files);
    lemma_tokens_kept(files, all);
    within_budget_narrows(weights, all, budget);
    within_budget_fits(weights, all, budget);
    kept_length(files, left);
    lemma_tokens_kept(files, left);
}

/// The largest files go first: a file that is dropped is no smaller than any that stays,
/// and with it the files that stay would not fit. `flags` tells which files stay.
pub proof fn the_largest_files_are_dropped(
    files: Seq<DiffFile>,
    budget: nat,
    dropped: int,
    stays: int,
) -> (flags: Seq<bool>)
    ensures
        flags.len() == files.len(),
        diff_within_budget(files, budget) == kept(files, flags),
        0 <= dropped < files.len() && !flags[dropped] ==> tokens_together(
            diff_within_budget(files, budget),
        ) + tokens_of(file_text(files[dropped])) > budget,
        0 <= dropped < files.len() && 0 <= stays < files.len() && !flags[dropped] && flags[stays]
            ==> tokens_of(file_text(files[dropped])) >= tokens_of(file_text(files[stays])),
{
    let weights = diff_weights(files);
    let all = all_set(files.len());
    let flags = within_budget(weights, all, budget);
    within_budget_narrows(weights, all, budget);
    lemma_tokens_kept(files, flags);
    if 0 <= dropped < files.len() && !flags[dropped] {
        within_budget_drops_no_more_than_needed(weights, all, budget, dropped);
        if 0 <= stays < files.len() && flags[stays] {
            within_budget_drops_largest_first(weights, all, budget, dropped, stays);
        }
    }
    flags
}

/// An estimate is what the encoding counts; without a count it is two tokens for seven
/// bytes, and the empty text has none.
pub proof fn estimates_follow_the_count(text: Seq<char>, counted: usize)
    ensures
        text.len() == 0 ==> tokens_of(text) == 0,
        text.len() > 0 ==> estimated(text, Some(counted)) == counted,
        text.len() > 0 && encode_utf8(text).len() <= usize::MAX ==> {
            let n = estimated(text, None);
            7 * n <= 2 * encode_utf8(text).len() < 7 * (n + 1)
        },
{
}

/// The tokens of files together are the sum of those of each.
pub proof fn tokens_of_files_add_up(a: Seq<DiffFile>, b: Seq<DiffFile>, f: DiffFile)
    ensures
        tokens_together(a + b) == tokens_together(a) + tokens_together(b),
        tokens_together(seq![f]) == tokens_of(file_text(f)),
        tokens_together(Seq::empty()) == 0,
    decreases b.len(),
{
    reveal_with_fuel(tokens_together, 2);
    assert(seq![f].drop_last() =~= Seq::<DiffFile>::empty());
    if b.len() == 0 {
        assert(a + b =~= a);
    } else {
        tokens_of_files_add_up(a, b.drop_last(), f);
        assert((a + b).drop_last() =~= a + b.drop_last());
    }
}

} // verus!
