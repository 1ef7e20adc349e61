//! Source files that were read for a review.
use vstd::prelude::*;

use crate::budget::{
    all_set, fit, kept, kept_length, lemma_all_set, retain, total_set, within_budget,
    within_budget_drops_largest_first, within_budget_drops_no_more_than_needed, within_budget_fits,
    within_budget_narrows,
};
use crate::language::{detect_language, language_of};
use crate::letters::{precedes, precedes_total, precedes_transitive, text_precedes};
use crate::numeral::{decimal, decimal_of};
use crate::text::{
    contains, ends_with, lines, parts_are_contained, starts_with, text_contains, text_lines, views,
};
use crate::tokens::{estimate_tokens, tokens_of};

verus! {

/// A source file, ready for review.
pub struct FileContent {
    /// The path as the caller gave it.
    pub path: String,
    /// The whole text.
    pub content: String,
    /// The language that it is written in.
    pub language: String,
    /// How many lines it has.
    pub line_count: u64,
}

impl Clone for FileContent {
    fn clone(&self) -> (r: Self)
        ensures
            r == *self,
    {
        FileContent {
            path: self.path.clone(),
            content: self.content.clone(),
            language: self.language.clone(),
            line_count: self.line_count,
        }
    }
}

/// A copy of a list of files.
pub fn copy_files(files: &Vec<FileContent>) -> (r: Vec<FileContent>)
    ensures
        r@ == files@,
{
    let mut out: Vec<FileContent> = Vec::new();
    let mut i: usize = 0;
    while i < files.len()
        invariant
            i <= files@.len(),
            out@ == files@.take(i as int),
        decreases files@.len() - i,
    {
        out.push(files[i].clone());
        i += 1;
    }
    assert(files@.take(i as int) =~= files@);
    out
}

/// The largest file that is read, in bytes.
pub const MAX_FILE_BYTES: u64 = 1_048_576;

/// How many bytes are looked at to tell a binary file.
pub const BINARY_PROBE_BYTES: usize = 8192;

/// Tokens that the frame around a file takes in the prompt.
pub const FILE_OVERHEAD_TOKENS: u128 = 17;

/// Why a file is not read, with the path that it was asked for by.
#[derive(Debug)]
pub enum FileProblem {
    /// The path holds `..`.
    Traversal(String),
    /// The path is a symbolic link.
    Symlink(String),
    /// There is no such file, and the words of the system.
    Missing(String, String),
    /// The path is no regular file.
    NotAFile(String),
    /// The file has so many bytes, which is too many.
    TooLarge(String, u64),
    /// The file could not be read, and the words of the system.
    Unreadable(String, String),
    /// The file is no text.
    Binary(String),
}

impl FileProblem {
    /// The problem in words.
    pub open spec fn words(self) -> Seq<char> {
        match self {
            FileProblem::Traversal(p) => "path traversal rejected: '"@ + p@ + "' contains '..'"@,
            FileProblem::Symlink(p) => "symlink rejected: '"@ + p@ + "'"@,
            FileProblem::Missing(p, e) => p@ + ": "@ + e@,
            FileProblem::NotAFile(p) => p@ + ": not a regular file"@,
            FileProblem::TooLarge(p, n) => p@ + ": file exceeds 1 MB limit ("@ + decimal(n as nat)
                + " bytes)"@,
            FileProblem::Unreadable(p, e) => p@ + ": "@ + e@,
            FileProblem::Binary(p) => p@ + ": binary file not supported"@,
        }
    }

    /// The problem in words.
    pub fn message(&self) -> (r: String)
        ensures
            r@ == self.words(),
    {
        match self {
            FileProblem::Traversal(p) => {
                let mut m = "path traversal rejected: '".to_owned();
                m.push_str(p.as_str());
                m.push_str("' contains '..'");
                m
            },
            FileProblem::Symlink(p) => {
                let mut m = "symlink rejected: '".to_owned();
                m.push_str(p.as_str());
                m.push_str("'");
                m
            },
            FileProblem::Missing(p, e) => {
                let mut m = p.clone();
                m.push_str(": ");
                m.push_str(e.as_str());
                m
            },
            FileProblem::NotAFile(p) => {
                let mut m = p.clone();
                m.push_str(": not a regular file");
                m
            },
            FileProblem::TooLarge(p, n) => {
                let mut m = p.clone();
                m.push_str(": file exceeds 1 MB limit (");
                m.push_str(decimal_of(*n).as_str());
                m.push_str(" bytes)");
                m
            },
            FileProblem::Unreadable(p, e) => {
                let mut m = p.clone();
                m.push_str(": ");
                m.push_str(e.as_str());
                m
            },
            FileProblem::Binary(p) => {
                let mut m = p.clone();
                m.push_str(": binary file not supported");
                m
            },
        }
    }
}

/// What the system tells of a path: whether the path itself is a symbolic link,
/// and of the file that it leads to whether it is regular and how many bytes it
/// has, or the words why there is none.
pub struct FileFacts {
    pub is_symlink: bool,
    pub target: Result<(bool, u64), String>,
}

/// Rejects a path that holds `..`, and one that is a symbolic link.
pub fn validate_path(path: &str, is_symlink: bool) -> (r: Result<(), FileProblem>)
    ensures
        match r {
            Ok(()) => !contains(path@, ".."@) && !is_symlink,
            Err(FileProblem::Traversal(p)) => contains(path@, ".."@) && p@ == path@,
            Err(FileProblem::Symlink(p)) => !contains(path@, ".."@) && is_symlink && p@ == path@,
            Err(_) => false,
        },
{
    if text_contains(path, "..") {
        return Err(FileProblem::Traversal(path.to_owned()));
    }
    if is_symlink {
        return Err(FileProblem::Symlink(path.to_owned()));
    }
    Ok(())
}

/// A null byte stands among the first bytes.
pub open spec fn looks_binary(bytes: Seq<u8>) -> bool {
    exists|i: int| 0 <= i < bytes.len() && i < BINARY_PROBE_BYTES && bytes[i] == 0
}

/// Whether a file is binary: a null byte among its first 8192 bytes.
pub fn is_binary(bytes: &[u8]) -> (r: bool)
    ensures
        r == looks_binary(bytes@),
{
    let mut i: usize = 0;
    while i < bytes.len() && i < BINARY_PROBE_BYTES
        invariant
            i <= bytes@.len(),
            forall|j: int| 0 <= j < i ==> bytes@[j] != 0,
        decreases bytes@.len() - i,
    {
        if bytes[i] == 0 {
            return true;
        }
        i += 1;
    }
    false
}

/// Why a file may not be read, as far as its path and what the system tells of
/// it show.
pub open spec fn refused(path: Seq<char>, facts: FileFacts) -> bool {
    ||| contains(path, ".."@)
    ||| facts.is_symlink
    ||| match facts.target {
        Err(_) => true,
        Ok((regular, bytes)) => !regular || bytes > MAX_FILE_BYTES,
    }
}

/// Tests whether a file may be read: no `..`, no symbolic link, a regular file
/// of at most one mebibyte.
pub fn check_file(path: &str, facts: &FileFacts) -> (r: Result<(), FileProblem>)
    ensures
        r is Ok <==> !refused(path@, *facts),
        match r {
            Ok(()) => true,
            Err(FileProblem::Traversal(p)) => p@ == path@ && contains(path@, ".."@),
            Err(FileProblem::Symlink(p)) => p@ == path@ && !contains(path@, ".."@)
                && facts.is_symlink,
            Err(FileProblem::Missing(p, e)) => p@ == path@ && !contains(path@, ".."@)
                && !facts.is_symlink && facts.target == Err::<(bool, u64), String>(e),
            Err(FileProblem::NotAFile(p)) => p@ == path@ && !contains(path@, ".."@)
                && !facts.is_symlink && (facts.target matches Ok((regular, _)) && !regular),
            Err(FileProblem::TooLarge(p, n)) => p@ == path@ && !contains(path@, ".."@)
                && !facts.is_symlink && facts.target == Ok::<(bool, u64), String>((true, n)) && n
                > MAX_FILE_BYTES,
            Err(_) => false,
        },
{
    match validate_path(path, facts.is_symlink) {
        Ok(()) => {},
        Err(e) => {
            return Err(e);
        },
    }
    match &facts.target {
        Err(e) => Err(FileProblem::Missing(path.to_owned(), e.clone())),
        Ok((regular, bytes)) => {
            if !*regular {
                Err(FileProblem::NotAFile(path.to_owned()))
            } else if *bytes > MAX_FILE_BYTES {
                Err(FileProblem::TooLarge(path.to_owned(), *bytes))
            } else {
                Ok(())
            }
        },
    }
}

/// The language of a file: the one that the caller names, else by the path.
pub open spec fn chosen_language(path: Seq<char>, named: Option<Seq<char>>) -> Seq<char> {
    match named {
        Some(l) => if l.len() > 0 {
            l
        } else {
            language_of(path)
        },
        None => language_of(path),
    }
}

/// The source file holds the text of a file as it was read.
pub open spec fn holds_the_file(
    f: FileContent,
    path: Seq<char>,
    content: Seq<char>,
    named: Option<Seq<char>>,
) -> bool {
    &&& f.path@ == path
    &&& f.content@ == content
    &&& f.language@ == chosen_language(path, named)
    &&& f.line_count == lines(content).len()
}

/// A source file has the path and the whole text of the file, the number of its lines, and
/// the language that is named for it, or that its name tells where none is.
pub proof fn source_files_hold_the_file(
    f: FileContent,
    path: Seq<char>,
    content: Seq<char>,
    named: Option<Seq<char>>,
)
    requires
        holds_the_file(f, path, content, named),
    ensures
        f.path@ == path,
        f.content@ == content,
        f.line_count == lines(content).len(),
        named matches Some(l) && l.len() > 0 ==> f.language@ == named.unwrap(),
        !(named matches Some(l) && l.len() > 0) ==> f.language@ == language_of(path),
{
}

/// The text of a file as a source file, unless it is binary.
pub fn file_content(path: &str, content: String, language_override: Option<&str>) -> (r: Result<
    FileContent,
    FileProblem,
>)
    ensures
        match r {
            Ok(f) => {
                &&& holds_the_file(
                    f,
                    path@,
                    content@,
                    match language_override {
                        Some(l) => Some(l@),
                        None => None,
                    },
                )
                &&& !looks_binary(vstd::utf8::encode_utf8(content@))
                &&& f.path@ == path@
                &&& f.content == content
                &&& f.language@ == chosen_language(
                    path@,
                    match language_override {
                        Some(l) => Some(l@),
                        None => None,
                    },
                )
                &&& f.line_count == lines(content@).len()
            },
            Err(FileProblem::Binary(p)) => looks_binary(vstd::utf8::encode_utf8(content@)) && p@
                == path@,
            Err(_) => false,
        },
{
    if is_binary(content.as_str().as_bytes()) {
        return Err(FileProblem::Binary(path.to_owned()));
    }
    let language = match language_override {
        Some(l) => if l.is_empty() {
            detect_language(path).to_owned()
        } else {
            l.to_owned()
        },
        None => detect_language(path).to_owned(),
    };
    let all = text_lines(content.as_str());
    assert(views(all@).len() == all@.len());
    let line_count: u64 = all.len() as u64;
    Ok(FileContent { path: path.to_owned(), content, language, line_count })
}

// ---------------------------------------------------------------------------
// Order

/// The files with one more behind those whose path does not follow its own.
pub open spec fn insert_file(files: Seq<FileContent>, file: FileContent) -> Seq<FileContent>
    decreases files.len(),
{
    if files.len() == 0 || !precedes(file.path@, files.last().path@) {
        files.push(file)
    } else {
        insert_file(files.drop_last(), file).push(files.last())
    }
}

/// The files in the order of their paths; files with the same path keep their order.
pub open spec fn by_path(files: Seq<FileContent>) -> Seq<FileContent>
    decreases files.len(),
{
    if files.len() == 0 {
        Seq::empty()
    } else {
        insert_file(by_path(files.drop_last()), files.last())
    }
}

fn insert_by_path(files: &mut Vec<FileContent>, file: FileContent)
    ensures
        final(files)@ == insert_file(old(files)@, file),
{
    let ghost all = files@;
    let mut i: usize = files.len();
    assert(all.subrange(0, all.len() as int) =~= all);
    assert(insert_file(all, file) =~= insert_file(all, file) + all.subrange(
        all.len() as int,
        all.len() as int,
    ));
    while i > 0 && text_precedes(file.path.as_str(), files[i - 1].path.as_str())
        invariant
            i <= files@.len(),
            files@ == all,
            insert_file(all, file) == insert_file(all.subrange(0, i as int), file) + all.subrange(
                i as int,
                all.len() as int,
            ),
        decreases i,
    {
        proof {
            let front = all.subrange(0, i as int);
            assert(front.drop_last() =~= all.subrange(0, i - 1));
            assert(front.last() == all[i - 1]);
            let rest = insert_file(all.subrange(0, i - 1), file);
            assert(rest.push(all[i - 1]) + all.subrange(i as int, all.len() as int) =~= rest
                + all.subrange(i - 1, all.len() as int));
        }
        i -= 1;
    }
    proof {
        let front = all.subrange(0, i as int);
        if i > 0 {
            assert(front.last() == all[i - 1]);
        }
        assert(front.push(file) + all.subrange(i as int, all.len() as int) =~= all.insert(
            i as int,
            file,
        ));
    }
    files.insert(i, file);
}

/// Sorts files by their paths; files with the same path keep their order.
pub fn sort_by_path(files: Vec<FileContent>) -> (r: Vec<FileContent>)
    ensures
        r@ == by_path(files@),
{
    let ghost source = files@;
    let mut out: Vec<FileContent> = Vec::new();
    for file in it: files
        invariant
            it.seq() == source,
            out@ == by_path(source.take(it.index())),
    {
        assert(source.take(it.index() + 1).drop_last() =~= source.take(it.index()));
        insert_by_path(&mut out, file);
    }
    assert(source.take(source.len() as int) =~= source);
    out
}

/// What came of one path that a pattern matches: it was read, it was passed
/// over, or it could not even be reached.
pub enum GlobEntry {
    Read(FileContent),
    Skipped(FileProblem),
    Failed(String),
}

/// Why no files could be read for a pattern.
pub enum GlobProblem {
    Pattern(String, String),
    Entry(String),
}

impl GlobProblem {
    pub open spec fn words(self) -> Seq<char> {
        match self {
            GlobProblem::Pattern(pattern, why) => "invalid glob pattern '"@ + pattern@ + "': "@
                + why@,
            GlobProblem::Entry(why) => "glob error: "@ + why@,
        }
    }

    /// The problem in words.
    pub fn message(&self) -> (r: String)
        ensures
            r@ == self.words(),
    {
        match self {
            GlobProblem::Pattern(pattern, why) => {
                let mut m = "invalid glob pattern '".to_owned();
                m.push_str(pattern.as_str());
                m.push_str("': ");
                m.push_str(why.as_str());
                m
            },
            GlobProblem::Entry(why) => {
                let mut m = "glob error: ".to_owned();
                m.push_str(why.as_str());
                m
            },
        }
    }
}

/// The files that were read, in the order in which they were found.
pub open spec fn files_read(entries: Seq<GlobEntry>) -> Seq<FileContent>
    decreases entries.len(),
{
    if entries.len() == 0 {
        Seq::empty()
    } else {
        let front = files_read(entries.drop_last());
        match entries.last() {
            GlobEntry::Read(f) => front.push(f),
            _ => front,
        }
    }
}

/// The files that a pattern matches, sorted by their paths. Files that could
/// not be read are left out, and the first path that could not be reached ends
/// the search.
pub fn read_glob(pattern: &str, found: Result<Vec<GlobEntry>, String>) -> (r: Result<
    Vec<FileContent>,
    GlobProblem,
>)
    ensures
        match found {
            Err(why) => r matches Err(GlobProblem::Pattern(p, w)) && p@ == pattern@ && w == why,
            Ok(entries) => match r {
                Ok(files) => files@ == by_path(files_read(entries@)) && forall|i: int|
                    0 <= i < entries@.len() ==> !(#[trigger] entries@[i] is Failed),
                Err(e) => exists|i: int|
                    {
                        &&& 0 <= i < entries@.len()
                        &&& #[trigger] entries@[i] is Failed
                        &&& e == GlobProblem::Entry(entries@[i]->Failed_0)
                        &&& forall|j: int| 0 <= j < i ==> !(#[trigger] entries@[j] is Failed)
                    },
            },
        },
{
    let entries = match found {
        Ok(entries) => entries,
        Err(why) => {
            return Err(GlobProblem::Pattern(pattern.to_owned(), why));
        },
    };
    let ghost all = entries@;
    let mut files: Vec<FileContent> = Vec::new();
    for entry in it: entries
        invariant
            it.seq() == all,
            found is Ok,
            found->Ok_0@ == all,
            files@ == files_read(all.take(it.index())),
            forall|j: int| 0 <= j < it.index() ==> !(#[trigger] all[j] is Failed),
    {
        assert(all.take(it.index() + 1).drop_last() =~= all.take(it.index()));
        match entry {
            GlobEntry::Read(f) => {
                files.push(f);
            },
            GlobEntry::Skipped(_) => {},
            GlobEntry::Failed(why) => {
                assert(all[it.index()] == GlobEntry::Failed(why));
                return Err(GlobProblem::Entry(why));
            },
        }
    }
    assert(all.take(all.len() as int) =~= all);
    Ok(sort_by_path(files))
}

/// No path stands behind one that it precedes.
pub open spec fn in_path_order(files: Seq<FileContent>) -> bool {
    forall|i: int, j: int|
        0 <= i < j < files.len() ==> !precedes(#[trigger] files[j].path@, #[trigger] files[i].path@)
}

proof fn lemma_insert_file(files: Seq<FileContent>, file: FileContent)
    requires
        in_path_order(files),
    ensures
        in_path_order(insert_file(files, file)),
        insert_file(files, file).to_multiset() =~= files.to_multiset().insert(file),
        forall|i: int|
            0 <= i < insert_file(files, file).len() ==> (#[trigger] insert_file(files, file)[i])
                == file || files.contains(insert_file(files, file)[i]),
    decreases files.len(),
{
    broadcast use vstd::seq_lib::group_to_multiset_ensures;

    let out = insert_file(files, file);
    if files.len() == 0 || !precedes(file.path@, files.last().path@) {
        assert forall|i: int, j: int| 0 <= i < j < out.len() implies !precedes(
            #[trigger] out[j].path@,
            #[trigger] out[i].path@,
        ) by {
            if j == files.len() {
                if i < files.len() - 1 {
                    let last = files.last().path@;
                    let mid = files[i].path@;
                    assert(!precedes(last, mid));
                    if precedes(file.path@, mid) {
                        precedes_total(mid, last);
                        if precedes(mid, last) {
                            precedes_transitive(file.path@, mid, last);
                        }
                    }
                }
            }
        }
    } else {
        let front = files.drop_last();
        let last = files.last();
        assert(in_path_order(front)) by {
            assert forall|i: int, j: int| 0 <= i < j < front.len() implies !precedes(
                #[trigger] front[j].path@,
                #[trigger] front[i].path@,
            ) by {
                assert(front[i] == files[i] && front[j] == files[j]);
            }
        }
        lemma_insert_file(front, file);
        let rest = insert_file(front, file);
        assert forall|i: int, j: int| 0 <= i < j < out.len() implies !precedes(
            #[trigger] out[j].path@,
            #[trigger] out[i].path@,
        ) by {
            if j == rest.len() {
                assert(out[i] == rest[i]);
                if rest[i] == file {
                    precedes_total(file.path@, last.path@);
                } else {
                    let k = choose|k: int| 0 <= k < front.len() && front[k] == rest[i];
                    assert(files[k] == rest[i]);
                }
            } else {
                assert(out[i] == rest[i] && out[j] == rest[j]);
            }
        }
        assert forall|i: int| 0 <= i < out.len() implies (#[trigger] out[i]) == file
            || files.contains(out[i]) by {
            if i < rest.len() {
                assert(out[i] == rest[i]);
                if rest[i] != file {
                    let k = choose|k: int| 0 <= k < front.len() && front[k] == rest[i];
                    assert(files[k] == out[i]);
                }
            } else {
                assert(files[files.len() - 1] == out[i]);
            }
        }
        assert(files =~= front.push(last));
        assert(files.to_multiset() =~= front.to_multiset().insert(last));
        assert(out.to_multiset() =~= rest.to_multiset().insert(last));
    }
}

/// Sorting orders the files by their paths and neither loses nor adds one.
pub proof fn sorting_orders_and_keeps(files: Seq<FileContent>)
    ensures
        in_path_order(by_path(files)),
        by_path(files).to_multiset() =~= files.to_multiset(),
    decreases files.len(),
{
    broadcast use vstd::seq_lib::group_to_multiset_ensures;

    if files.len() > 0 {
        let front = files.drop_last();
        sorting_orders_and_keeps(front);
        lemma_insert_file(by_path(front), files.last());
        assert(files =~= front.push(files.last()));
    } else {
        assert(by_path(files) =~= files);
    }
}

// ---------------------------------------------------------------------------
// Budget

/// The tokens that each file takes, with the frame around it.
pub open spec fn content_weights(files: Seq<FileContent>) -> Seq<u128> {
    Seq::new(
        files.len(),
        |i: int| (tokens_of(files[i].content@) as u128 + FILE_OVERHEAD_TOKENS) as u128,
    )
}

/// The files that stay within the budget.
pub open spec fn content_within_budget(files: Seq<FileContent>, budget: nat) -> Seq<FileContent> {
    kept(files, within_budget(content_weights(files), all_set(files.len()), budget))
}

/// Drops whole files, the largest first, until the rest fits `budget` tokens or
/// one file is left. Returns how many were dropped.
pub fn truncate_file_content_budget(files: &mut Vec<FileContent>, budget: usize) -> (r: usize)
    ensures
        final(files)@ == content_within_budget(old(files)@, budget as nat),
        r == old(files)@.len() - final(files)@.len(),
        old(files)@.len() > 0 ==> final(files)@.len() > 0,
{
    let mut weights: Vec<u128> = Vec::new();
    let mut i: usize = 0;
    while i < files.len()
        invariant
            i <= files@.len(),
            files@ == old(files)@,
            weights@ == content_weights(files@).take(i as int),
        decreases files@.len() - i,
    {
        let tokens: usize = estimate_tokens(files[i].content.as_str());
        weights.push(tokens as u128 + FILE_OVERHEAD_TOKENS);
        i += 1;
    }
    assert(weights@ =~= content_weights(files@));
    let before: usize = files.len();
    let flags = fit(&weights, budget);
    let mut taken: Vec<FileContent> = Vec::new();
    std::mem::swap(files, &mut taken);
    proof {
        kept_length(taken@, flags@);
        within_budget_narrows(weights@, all_set(weights@.len()), budget as nat);
        lemma_all_set(weights@.len());
    }
    *files = retain(taken, &flags);
    before - files.len()
}

/// The files that were found are those that could be read, in the order in which they
/// were found: what is passed over takes nothing with it.
pub proof fn files_are_read_one_by_one(
    a: Seq<GlobEntry>,
    b: Seq<GlobEntry>,
    f: FileContent,
    p: FileProblem,
)
    ensures
        files_read(a + b) == files_read(a) + files_read(b),
        files_read(seq![GlobEntry::Read(f)]) == seq![f],
        files_read(seq![GlobEntry::Skipped(p)]) == Seq::<FileContent>::empty(),
        files_read(Seq::empty()) == Seq::<FileContent>::empty(),
    decreases b.len(),
{
    reveal_with_fuel(files_read, 2);
    assert(seq![GlobEntry::Read(f)].drop_last() =~= Seq::<GlobEntry>::empty());
    assert(files_read(seq![GlobEntry::Read(f)]) =~= seq![f]);
    assert(seq![GlobEntry::Skipped(p)].drop_last() =~= Seq::<GlobEntry>::empty());
    if b.len() == 0 {
        assert(a + b =~= a);
        assert(files_read(a) + files_read(b) =~= files_read(a));
    } else {
        files_are_read_one_by_one(a, b.drop_last(), f, p);
        assert((a + b).drop_last() =~= a + b.drop_last());
        assert(files_read(a + b) =~= files_read(a) + files_read(b));
    }
}

/// The estimated tokens of source files together, each with the frame around it.
pub open spec fn content_together(files: Seq<FileContent>) -> nat
    decreases files.len(),
{
    if files.len() == 0 {
        0
    } else {
        content_together(files.drop_last()) + tokens_of(files.last().content@) as nat
            + FILE_OVERHEAD_TOKENS as nat
    }
}

proof fn lemma_content_kept(files: Seq<FileContent>, flags: Seq<bool>)
    requires
        files.len() == flags.len(),
    ensures
        total_set(content_weights(files), flags) == content_together(kept(files, flags)),
    decreases files.len(),
{
    if files.len() > 0 {
        let front = files.drop_last();
        lemma_content_kept(front, flags.drop_last());
        assert(content_weights(files).drop_last() =~= content_weights(front));
        let rest = kept(front, flags.drop_last());
        assert(rest.push(files.last()).drop_last() =~= rest);
    }
}

proof fn lemma_all_files_kept(files: Seq<FileContent>)
    ensures
        kept(files, all_set(files.len())) == files,
    decreases files.len(),
{
    if files.len() > 0 {
        let front = files.drop_last();
        lemma_all_files_kept(front);
        assert(all_set(files.len()).drop_last() =~= all_set(front.len()));
        assert(front.push(files.last()) =~= files);
    } else {
        assert(kept(files, all_set(0)) =~= files);
    }
}

/// Source files are only dropped for want of room: where all of them fit the budget, all
/// of them stay. What stays fits the budget, or is one file.
pub proof fn source_files_are_dropped_for_want_of_room(files: Seq<FileContent>, budget: nat)
    ensures
        content_together(files) <= budget ==> content_within_budget(files, budget) == files,
        content_together(content_within_budget(files, budget)) <= budget || content_within_budget(
            files,
            budget,
        ).len() <= 1,
        files.len() > 0 ==> content_within_budget(files, budget).len() > 0,
{
    let weights = content_weights(files);
    let all = all_set(files.len());
    let left = within_budget(weights, all, budget);
    lemma_all_set(files.len());
    lemma_all_files_kept(files);
    lemma_content_kept(files, all);
    within_budget_narrows(weights, all, budget);
    within_budget_fits(weights, all, budget);
    kept_length(files, left);
    lemma_content_kept(files, left);
}

/// The largest source files go first, and no more of them than must. `flags` tells which
/// files stay.
pub proof fn the_largest_source_files_are_dropped(
    files: Seq<FileContent>,
    budget: nat,
    dropped: int,
    stays: int,
) -> (flags: Seq<bool>)
    ensures
        flags.len() == files.len(),
        content_within_budget(files, budget) == kept(files, flags),
        0 <= dropped < files.len() && !flags[dropped] ==> content_together(
            content_within_budget(files, budget),
        ) + tokens_of(files[dropped].content@) + FILE_OVERHEAD_TOKENS > budget,
        0 <= dropped < files.len() && 0 <= stays < files.len() && !flags[dropped] && flags[stays]
            ==> tokens_of(files[dropped].content@) >= tokens_of(files[stays].content@),
{
    let weights = content_weights(files);
    let all = all_set(files.len());
    let flags = within_budget(weights, all, budget);
    within_budget_narrows(weights, all, budget);
    lemma_content_kept(files, flags);
    if 0 <= dropped < files.len() && !flags[dropped] {
        within_budget_drops_no_more_than_needed(weights, all, budget, dropped);
        if 0 <= stays < files.len() && flags[stays] {
            within_budget_drops_largest_first(weights, all, budget, dropped, stays);
        }
    }
    flags
}

/// Why a file is not read names the file.
pub proof fn problems_name_the_file(p: FileProblem)
    ensures
        match p {
            FileProblem::Traversal(path) => contains(p.words(), path@),
            FileProblem::Symlink(path) => contains(p.words(), path@),
            FileProblem::Missing(path, e) => starts_with(p.words(), path@) && ends_with(
                p.words(),
                e@,
            ),
            FileProblem::NotAFile(path) => starts_with(p.words(), path@),
            FileProblem::TooLarge(path, n) => starts_with(p.words(), path@) && contains(
                p.words(),
                decimal(n as nat) + " bytes"@,
            ),
            FileProblem::Unreadable(path, e) => starts_with(p.words(), path@) && ends_with(
                p.words(),
                e@,
            ),
            FileProblem::Binary(path) => starts_with(p.words(), path@),
        },
{
    match p {
        FileProblem::Traversal(path) => {
            parts_are_contained("path traversal rejected: '"@, path@, "' contains '..'"@);
        },
        FileProblem::Symlink(path) => {
            parts_are_contained("symlink rejected: '"@, path@, "'"@);
        },
        FileProblem::Missing(path, e) => {
            lemma_ends(path@, ": "@, e@);
        },
        FileProblem::NotAFile(path) => {
            lemma_ends(path@, ": not a regular file"@, Seq::empty());
            assert(p.words() =~= path@ + ": not a regular file"@ + Seq::<char>::empty());
        },
        FileProblem::TooLarge(path, n) => {
            lemma_too_large(path@, n as nat);
        },
        FileProblem::Unreadable(path, e) => {
            lemma_ends(path@, ": "@, e@);
        },
        FileProblem::Binary(path) => {
            lemma_ends(path@, ": binary file not supported"@, Seq::empty());
            assert(p.words() =~= path@ + ": binary file not supported"@ + Seq::<char>::empty());
        },
    }
}

proof fn lemma_ends(a: Seq<char>, x: Seq<char>, b: Seq<char>)
    ensures
        starts_with(a + x + b, a),
        ends_with(a + x + b, b),
{
    let s = a + x + b;
    assert(s.subrange(0, a.len() as int) =~= a);
    assert(s.subrange(s.len() - b.len(), s.len() as int) =~= b);
}

proof fn lemma_too_large(path: Seq<char>, n: nat)
    ensures
        ({
            let w = path + ": file exceeds 1 MB limit ("@ + decimal(n) + " bytes)"@;
            starts_with(w, path) && contains(w, decimal(n) + " bytes"@)
        }),
{
    reveal_strlit(" bytes)");
    reveal_strlit(" bytes");
    reveal_strlit(")");
    let w = path + ": file exceeds 1 MB limit ("@ + decimal(n) + " bytes)"@;
    let front = path + ": file exceeds 1 MB limit ("@;
    lemma_ends(path, ": file exceeds 1 MB limit ("@, decimal(n) + " bytes)"@);
    assert(path + ": file exceeds 1 MB limit ("@ + (decimal(n) + " bytes)"@) =~= w);
    assert(" bytes)"@ =~= " bytes"@ + ")"@);
    parts_are_contained(front, decimal(n) + " bytes"@, ")"@);
    assert(front + (decimal(n) + " bytes"@) + ")"@ =~= w);
}

/// A file is read just where its path leads nowhere else, it is no link, and it is a
/// regular file that is not too large; and it is text where none of its first bytes is
/// null.
pub proof fn plain_files_are_read(
    path: Seq<char>,
    regular: bool,
    bytes: u64,
    link: bool,
    why: String,
)
    ensures
        refused(path, FileFacts { is_symlink: link, target: Ok((regular, bytes)) }) <==> (contains(
            path,
            ".."@,
        ) || link || !regular || bytes > 1024 * 1024),
        refused(path, FileFacts { is_symlink: link, target: Err(why) }),
        forall|text: Seq<u8>|
            #![trigger looks_binary(text)]
            looks_binary(text) <==> text.take(
                if text.len() < 8192 {
                    text.len() as int
                } else {
                    8192
                },
            ).contains(0u8),
{
    assert forall|text: Seq<u8>|
        #![trigger looks_binary(text)]
        looks_binary(text) <==> text.take(
            if text.len() < 8192 {
                text.len() as int
            } else {
                8192
            },
        ).contains(0u8) by {
        let front = text.take(
            if text.len() < 8192 {
                text.len() as int
            } else {
                8192
            },
        );
        if looks_binary(text) {
            let i = choose|i: int| 0 <= i < text.len() && i < BINARY_PROBE_BYTES && text[i] == 0;
            assert(front[i] == 0);
        }
        if front.contains(0u8) {
            let i = choose|i: int| 0 <= i < front.len() && front[i] == 0;
            assert(text[i] == 0);
        }
    }
}

/// The tokens of source files together are the sum of those of each with its frame.
pub proof fn tokens_of_source_files_add_up(
    a: Seq<FileContent>,
    b: Seq<FileContent>,
    f: FileContent,
)
    ensures
        content_together(a + b) == content_together(a) + content_together(b),
        content_together(seq![f]) == tokens_of(f.content@) + 17,
        content_together(Seq::empty()) == 0,
    decreases b.len(),
{
    reveal_with_fuel(content_together, 2);
    assert(seq![f].drop_last() =~= Seq::<FileContent>::empty());
    if b.len() == 0 {
        assert(a + b =~= a);
    } else {
        tokens_of_source_files_add_up(a, b.drop_last(), f);
        assert((a + b).drop_last() =~= a + b.drop_last());
    }
}

} // verus!
