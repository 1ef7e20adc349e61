//! Changed files as parsed from a unified diff, and their text form.
use vstd::prelude::*;

verus! {

/// What happened to a file.
#[derive(Clone, Copy, PartialEq, Eq, Structural, Debug)]
pub enum DiffStatus {
    Added,
    Modified,
    Deleted,
    Renamed,
    Copied,
}

/// Which side of the change a line stands on.
#[derive(Clone, Copy, PartialEq, Eq, Structural, Debug)]
pub enum DiffLineKind {
    Context,
    Added,
    Removed,
}

/// One line of a hunk, without its marker.
pub struct DiffLine {
    pub kind: DiffLineKind,
    pub content: String,
    pub old_lineno: Option<u64>,
    pub new_lineno: Option<u64>,
}

/// A block of adjacent lines under one header.
pub struct Hunk {
    pub header: String,
    pub lines: Vec<DiffLine>,
}

/// A changed file.
pub struct DiffFile {
    pub filename: String,
    pub old_filename: Option<String>,
    pub status: DiffStatus,
    pub hunks: Vec<Hunk>,
    pub additions: u64,
    pub deletions: u64,
    pub mode_change: Option<String>,
}

// ---------------------------------------------------------------------------
// Text form

/// The marker of a line in a unified diff.
pub open spec fn marker(kind: DiffLineKind) -> Seq<char> {
    match kind {
        DiffLineKind::Added => "+"@,
        DiffLineKind::Removed => "-"@,
        DiffLineKind::Context => " "@,
    }
}

/// The lines, each with its marker and a line feed.
pub open spec fn lines_text(lines: Seq<DiffLine>) -> Seq<char>
    decreases lines.len(),
{
    if lines.len() == 0 {
        Seq::empty()
    } else {
        (lines_text(lines.drop_last()) + marker(lines.last().kind) + lines.last().content@).push(
            '\n',
        )
    }
}

/// The hunks, each as its header, a line feed and its lines.
pub open spec fn hunks_text(hunks: Seq<Hunk>) -> Seq<char>
    decreases hunks.len(),
{
    if hunks.len() == 0 {
        Seq::empty()
    } else {
        (hunks_text(hunks.drop_last()) + hunks.last().header@).push('\n') + lines_text(
            hunks.last().lines@,
        )
    }
}

/// The name that the file had before the change.
pub open spec fn old_name(file: DiffFile) -> Seq<char> {
    match file.old_filename {
        Some(n) => n@,
        None => file.filename@,
    }
}

/// A changed file as a unified diff.
pub open spec fn file_text(file: DiffFile) -> Seq<char> {
    "--- a/"@ + old_name(file) + "\n+++ b/"@ + file.filename@ + "\n"@ + hunks_text(file.hunks@)
}

/// The changed files as unified diffs, one after the other.
pub open spec fn context_text(files: Seq<DiffFile>) -> Seq<char>
    decreases files.len(),
{
    if files.len() == 0 {
        Seq::empty()
    } else {
        context_text(files.drop_last()) + file_text(files.last())
    }
}

fn marker_of(kind: DiffLineKind) -> (r: &'static str)
    ensures
        r@ == marker(kind),
{
    match kind {
        DiffLineKind::Added => "+",
        DiffLineKind::Removed => "-",
        DiffLineKind::Context => " ",
    }
}

fn write_lines(lines: &Vec<DiffLine>) -> (r: String)
    ensures
        r@ == lines_text(lines@),
{
    let mut out = String::new();
    let mut i: usize = 0;
    while i < lines.len()
        invariant
            i <= lines@.len(),
            out@ == lines_text(lines@.take(i as int)),
        decreases lines@.len() - i,
    {
        assert(lines@.take(i + 1).drop_last() =~= lines@.take(i as int));
        out.push_str(marker_of(lines[i].kind));
        out.push_str(lines[i].content.as_str());
        out.push('\n');
        i += 1;
    }
    assert(lines@.take(i as int) =~= lines@);
    out
}

fn write_hunks(hunks: &Vec<Hunk>) -> (r: String)
    ensures
        r@ == hunks_text(hunks@),
{
    let mut out = String::new();
    let mut i: usize = 0;
    while i < hunks.len()
        invariant
            i <= hunks@.len(),
            out@ == hunks_text(hunks@.take(i as int)),
        decreases hunks@.len() - i,
    {
        assert(hunks@.take(i + 1).drop_last() =~= hunks@.take(i as int));
        out.push_str(hunks[i].header.as_str());
        out.push('\n');
        out.push_str(write_lines(&hunks[i].lines).as_str());
        i += 1;
    }
    assert(hunks@.take(i as int) =~= hunks@);
    out
}

/// Writes a changed file as a unified diff.
pub fn format_diff_file(file: &DiffFile) -> (r: String)
    ensures
        r@ == file_text(*file),
{
    let mut out = "--- a/".to_owned();
    match &file.old_filename {
        Some(n) => out.push_str(n.as_str()),
        None => out.push_str(file.filename.as_str()),
    }
    out.push_str("\n+++ b/");
    out.push_str(file.filename.as_str());
    out.push_str("\n");
    out.push_str(write_hunks(&file.hunks).as_str());
    out
}

/// Writes the changed files as unified diffs, one after the other.
pub fn format_diff_context(files: &Vec<DiffFile>) -> (r: String)
    ensures
        r@ == context_text(files@),
{
    let mut out = String::new();
    let mut i: usize = 0;
    while i < files.len()
        invariant
            i <= files@.len(),
            out@ == context_text(files@.take(i as int)),
        decreases files@.len() - i,
    {
        assert(files@.take(i + 1).drop_last() =~= files@.take(i as int));
        out.push_str(format_diff_file(&files[i]).as_str());
        i += 1;
    }
    assert(files@.take(i as int) =~= files@);
    out
}

// ---------------------------------------------------------------------------
// What holds of the text

/// One line under its marker is that marker, the line and a line feed, and what
/// stands in one place of a list of lines does not change the text of the rest.
pub proof fn lines_are_written_one_after_the_other(a: Seq<DiffLine>, b: Seq<DiffLine>, l: DiffLine)
    ensures
        lines_text(a + b) == lines_text(a) + lines_text(b),
        lines_text(seq![l]) == seq![
            match l.kind {
                DiffLineKind::Added => '+',
                DiffLineKind::Removed => '-',
                DiffLineKind::Context => ' ',
            },
        ] + l.content@ + seq!['\n'],
        lines_text(Seq::empty()) == Seq::<char>::empty(),
    decreases b.len(),
{
    reveal_strlit("+");
    reveal_strlit("-");
    reveal_strlit(" ");
    assert(seq![l].drop_last() =~= Seq::<DiffLine>::empty());
    assert(lines_text(seq![l]) =~= seq![
        match l.kind {
            DiffLineKind::Added => '+',
            DiffLineKind::Removed => '-',
            DiffLineKind::Context => ' ',
        },
    ] + l.content@ + seq!['\n']) by {
        reveal_with_fuel(lines_text, 2);
    }
    if b.len() == 0 {
        assert(a + b =~= a);
        assert(lines_text(a) + lines_text(b) =~= lines_text(a));
    } else {
        lines_are_written_one_after_the_other(a, b.drop_last(), l);
        assert((a + b).drop_last() =~= a + b.drop_last());
        assert(lines_text(a + b) =~= lines_text(a) + lines_text(b));
    }
}

/// One hunk is its header on a line of its own and its lines, and hunks are written
/// one after the other: none changes the text of another.
pub proof fn hunks_are_written_one_after_the_other(a: Seq<Hunk>, b: Seq<Hunk>, h: Hunk)
    ensures
        hunks_text(a + b) == hunks_text(a) + hunks_text(b),
        hunks_text(seq![h]) == h.header@ + seq!['\n'] + lines_text(h.lines@),
        hunks_text(Seq::empty()) == Seq::<char>::empty(),
    decreases b.len(),
{
    assert(seq![h].drop_last() =~= Seq::<Hunk>::empty());
    assert(hunks_text(seq![h]) =~= h.header@ + seq!['\n'] + lines_text(h.lines@)) by {
        reveal_with_fuel(hunks_text, 2);
    }
    if b.len() == 0 {
        assert(a + b =~= a);
        assert(hunks_text(a) + hunks_text(b) =~= hunks_text(a));
    } else {
        hunks_are_written_one_after_the_other(a, b.drop_last(), h);
        assert((a + b).drop_last() =~= a + b.drop_last());
        assert(hunks_text(a + b) =~= hunks_text(a) + hunks_text(b));
    }
}

/// The text of one file names the file on both sides of the change and ends with its
/// hunks, and files are written one after the other: none changes the text of
/// another.
pub proof fn files_are_written_one_after_the_other(
    a: Seq<DiffFile>,
    b: Seq<DiffFile>,
    f: DiffFile,
)
    ensures
        context_text(a + b) == context_text(a) + context_text(b),
        f.old_filename is None ==> context_text(seq![f]) == "--- a/"@ + f.filename@ + "\n+++ b/"@
            + f.filename@ + "\n"@ + hunks_text(f.hunks@),
        f.old_filename matches Some(old) ==> context_text(seq![f]) == "--- a/"@ + old@
            + "\n+++ b/"@ + f.filename@ + "\n"@ + hunks_text(f.hunks@),
        context_text(seq![f]) == file_text(f),
        context_text(Seq::empty()) == Seq::<char>::empty(),
    decreases b.len(),
{
    assert(seq![f].drop_last() =~= Seq::<DiffFile>::empty());
    assert(context_text(seq![f]) =~= file_text(f)) by {
        reveal_with_fuel(context_text, 2);
    }
    if b.len() == 0 {
        assert(a + b =~= a);
        assert(context_text(a) + context_text(b) =~= context_text(a));
    } else {
        files_are_written_one_after_the_other(a, b.drop_last(), f);
        assert((a + b).drop_last() =~= a + b.drop_last());
        assert(context_text(a + b) =~= context_text(a) + context_text(b));
    }
}

/// Every changed file is shown: the text of the files before it, its own, and that of
/// the files behind it make up the whole.
pub proof fn every_file_is_shown(files: Seq<DiffFile>, i: int)
    requires
        0 <= i < files.len(),
    ensures
        context_text(files) == context_text(files.take(i)) + file_text(files[i]) + context_text(
            files.skip(i + 1),
        ),
{
    let front = files.take(i);
    let rest = files.skip(i + 1);
    let one = seq![files[i]];
    assert(files =~= front + one + rest);
    files_are_written_one_after_the_other(front + one, rest, files[i]);
    files_are_written_one_after_the_other(front, one, files[i]);
}

} // verus!
