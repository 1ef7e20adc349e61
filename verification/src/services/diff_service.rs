//! Which changed files are reviewed.
use vstd::prelude::*;

use crate::budget::{kept, kept_length, lemma_kept_is_filter, retain};
use crate::config::Settings;
use crate::diff::DiffFile;
use crate::paths::{file_name, file_name_of};
use crate::text::{
    contains, ends_with, occurs_at, parts_are_contained, same, starts_with, text_contains,
    text_ends_with, text_starts_with,
};
use crate::tokens::{diff_within_budget, truncate_to_budget};

verus! {

/// The base name of a path, or the path where it has none.
pub open spec fn base_of(path: Seq<char>) -> Seq<char> {
    match file_name_of(path) {
        Some(n) => n,
        None => path,
    }
}

/// Files that are not worth a review: lock files, minified and generated code,
/// the change log and code of others.
pub open spec fn skippable(path: Seq<char>) -> bool {
    let base = base_of(path);
    ||| base == "Cargo.lock"@
    ||| base == "package-lock.json"@
    ||| base == "yarn.lock"@
    ||| base == "CHANGELOG.md"@
    ||| ends_with(path, ".min.js"@)
    ||| ends_with(path, ".min.css"@)
    ||| ends_with(path, ".pb.go"@)
    ||| ends_with(path, ".pb.rs"@)
    ||| starts_with(path, "vendor/"@)
    ||| contains(path, "/vendor/"@)
    ||| starts_with(path, "node_modules/"@)
    ||| contains(path, "/node_modules/"@)
}

/// Whether a file is not worth a review.
pub fn is_skippable(path: &str) -> (r: bool)
    ensures
        r == skippable(path@),
{
    let base = match file_name(path) {
        Some(n) => n,
        None => path.to_owned(),
    };
    let name = base.as_str();
    same(name, "Cargo.lock") || same(name, "package-lock.json") || same(name, "yarn.lock") || same(
        name,
        "CHANGELOG.md",
    ) || text_ends_with(path, ".min.js") || text_ends_with(path, ".min.css") || text_ends_with(
        path,
        ".pb.go",
    ) || text_ends_with(path, ".pb.rs") || text_starts_with(path, "vendor/") || text_contains(
        path,
        "/vendor/",
    ) || text_starts_with(path, "node_modules/") || text_contains(path, "/node_modules/")
}

/// Which files are worth a review.
pub open spec fn worth_flags(files: Seq<DiffFile>) -> Seq<bool> {
    Seq::new(files.len(), |i: int| !skippable(files[i].filename@))
}

/// The first so many of a list.
pub open spec fn at_most<T>(items: Seq<T>, max: nat) -> Seq<T> {
    if items.len() <= max {
        items
    } else {
        items.take(max as int)
    }
}

/// The files that are reviewed: those worth it, and no more than the cap.
pub open spec fn reviewable(files: Seq<DiffFile>, max: nat) -> Seq<DiffFile> {
    at_most(kept(files, worth_flags(files)), max)
}

/// Leaves out the files that are not worth a review, and those over the cap.
pub fn filter_files(files: Vec<DiffFile>, max: usize) -> (r: Vec<DiffFile>)
    ensures
        r@ == reviewable(files@, max as nat),
        r@.len() <= files@.len(),
        r@.len() <= max,
{
    let mut flags: Vec<bool> = Vec::new();
    let mut i: usize = 0;
    while i < files.len()
        invariant
            i <= files@.len(),
            flags@ == worth_flags(files@).take(i as int),
        decreases files@.len() - i,
    {
        flags.push(!is_skippable(files[i].filename.as_str()));
        i += 1;
    }
    assert(flags@ =~= worth_flags(files@));
    proof {
        kept_length(files@, flags@);
    }
    let mut out = retain(files, &flags);
    if out.len() > max {
        out.truncate(max);
    }
    out
}

/// No file that is not worth a review gets through, and every file that gets
/// through was there.
pub proof fn reviewable_files_are_worth_it(files: Seq<DiffFile>, max: nat, i: int)
    requires
        0 <= i < reviewable(files, max).len(),
    ensures
        !skippable(reviewable(files, max)[i].filename@),
        files.contains(reviewable(files, max)[i]),
{
    lemma_kept_worth(files, i);
}

proof fn lemma_kept_worth(files: Seq<DiffFile>, i: int)
    requires
        0 <= i < kept(files, worth_flags(files)).len(),
    ensures
        !skippable(kept(files, worth_flags(files))[i].filename@),
        files.contains(kept(files, worth_flags(files))[i]),
    decreases files.len(),
{
    let flags = worth_flags(files);
    let front = files.drop_last();
    assert(flags.drop_last() =~= worth_flags(front));
    let rest = kept(front, worth_flags(front));
    if i < rest.len() {
        lemma_kept_worth(front, i);
        let k = choose|k: int| 0 <= k < front.len() && front[k] == rest[i];
        assert(files[k] == rest[i]);
    } else {
        assert(files[files.len() - 1] == kept(files, flags)[i]);
    }
}

/// The limits on what is reviewed of a diff.
pub struct DiffService {
    pub max_input_tokens: usize,
    pub max_diff_files: usize,
}

impl DiffService {
    /// The configured limits.
    pub fn new(settings: &Settings) -> (r: Self)
        ensures
            r.max_input_tokens == settings.review.max_input_tokens,
            r.max_diff_files == settings.review.max_diff_files,
    {
        DiffService {
            max_input_tokens: settings.review.max_input_tokens,
            max_diff_files: settings.review.max_diff_files,
        }
    }

    /// The most tokens that a prompt may take.
    pub fn max_tokens(&self) -> (r: usize)
        ensures
            r == self.max_input_tokens,
    {
        self.max_input_tokens
    }

    /// Drops whole files until the rest fits the budget. Returns how many.
    pub fn truncate_to_budget(&self, files: &mut Vec<DiffFile>, budget: usize) -> (r: usize)
        ensures
            final(files)@ == diff_within_budget(old(files)@, budget as nat),
            r == old(files)@.len() - final(files)@.len(),
            old(files)@.len() > 0 ==> final(files)@.len() > 0,
    {
        truncate_to_budget(files, budget)
    }
}

/// The files that are reviewed are all those worth it, in their order; where there are
/// more than the cap, as many of the first of them.
pub proof fn files_worth_it_are_reviewed(files: Seq<DiffFile>, max: nat)
    ensures
        ({
            let worth = files.filter(|f: DiffFile| !skippable(f.filename@));
            &&& worth.len() <= max ==> reviewable(files, max) == worth
            &&& worth.len() > max ==> reviewable(files, max) == worth.take(max as int)
        }),
{
    let p = |f: DiffFile| !skippable(f.filename@);
    assert forall|i: int| 0 <= i < files.len() implies worth_flags(files)[i] == #[trigger] p(
        files[i],
    ) by {}
    lemma_kept_is_filter(files, worth_flags(files), p);
}

/// A path that names no lock file, no change log, no minified or generated code and no
/// directory of the code of others is never skipped.
pub proof fn ordinary_files_are_not_skipped(path: Seq<char>)
    requires
        !contains(path, "vendor/"@),
        !contains(path, "node_modules/"@),
        !contains(path, ".min."@),
        !contains(path, ".pb."@),
        base_of(path) != "Cargo.lock"@,
        base_of(path) != "package-lock.json"@,
        base_of(path) != "yarn.lock"@,
        base_of(path) != "CHANGELOG.md"@,
    ensures
        !skippable(path),
{
    reveal_strlit("vendor/");
    reveal_strlit("/vendor/");
    reveal_strlit("node_modules/");
    reveal_strlit("/node_modules/");
    reveal_strlit(".min.");
    reveal_strlit(".min.js");
    reveal_strlit(".min.css");
    reveal_strlit(".pb.");
    reveal_strlit(".pb.go");
    reveal_strlit(".pb.rs");
    lemma_no_longer(path, "/vendor/"@, "vendor/"@, 1);
    lemma_no_longer(path, "/node_modules/"@, "node_modules/"@, 1);
    lemma_no_longer(path, ".min.js"@, ".min."@, 0);
    lemma_no_longer(path, ".min.css"@, ".min."@, 0);
    lemma_no_longer(path, ".pb.go"@, ".pb."@, 0);
    lemma_no_longer(path, ".pb.rs"@, ".pb."@, 0);
    assert(!occurs_at(path, "vendor/"@, 0));
    assert(!occurs_at(path, "node_modules/"@, 0));
    assert(!occurs_at(path, ".min.js"@, path.len() - 7));
    assert(!occurs_at(path, ".min.css"@, path.len() - 8));
    assert(!occurs_at(path, ".pb.go"@, path.len() - 6));
    assert(!occurs_at(path, ".pb.rs"@, path.len() - 6));
}

proof fn lemma_no_longer(path: Seq<char>, long: Seq<char>, short: Seq<char>, k: int)
    requires
        0 <= k,
        k + short.len() <= long.len(),
        long.subrange(k, k + short.len()) =~= short,
        !contains(path, short),
    ensures
        !contains(path, long),
{
    if contains(path, long) {
        let i = choose|i: int| occurs_at(path, long, i);
        assert(path.subrange(i + k, i + k + short.len()) =~= path.subrange(
            i,
            i + long.len(),
        ).subrange(k, k + short.len()));
        assert(occurs_at(path, short, i + k));
    }
}

/// Code of others, and minified and generated code, is skipped wherever it stands.
pub proof fn code_of_others_is_skipped(a: Seq<char>, b: Seq<char>)
    ensures
        skippable("vendor/"@ + b),
        skippable("node_modules/"@ + b),
        skippable(a + "/vendor/"@ + b),
        skippable(a + "/node_modules/"@ + b),
        skippable(a + ".min.js"@),
        skippable(a + ".min.css"@),
        skippable(a + ".pb.go"@),
        skippable(a + ".pb.rs"@),
        base_of(a) == "Cargo.lock"@ ==> skippable(a),
        base_of(a) == "package-lock.json"@ ==> skippable(a),
        base_of(a) == "yarn.lock"@ ==> skippable(a),
        base_of(a) == "CHANGELOG.md"@ ==> skippable(a),
{
    assert(("vendor/"@ + b).subrange(0, "vendor/"@.len() as int) =~= "vendor/"@);
    assert(("node_modules/"@ + b).subrange(0, "node_modules/"@.len() as int) =~= "node_modules/"@);
    parts_are_contained(a, "/vendor/"@, b);
    parts_are_contained(a, "/node_modules/"@, b);
    lemma_ending(a, ".min.js"@);
    lemma_ending(a, ".min.css"@);
    lemma_ending(a, ".pb.go"@);
    lemma_ending(a, ".pb.rs"@);
}

proof fn lemma_ending(a: Seq<char>, end: Seq<char>)
    ensures
        ends_with(a + end, end),
{
    let s = a + end;
    assert(s.subrange(s.len() - end.len(), s.len() as int) =~= end);
}

} // verus!
