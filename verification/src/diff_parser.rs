//! Unified diffs, as `git` writes them, read into changed files.
use vstd::prelude::*;

use crate::diff::{DiffFile, DiffLine, DiffLineKind, DiffStatus, Hunk};
use crate::numeral::{decimal, decimal_is_digits};
use crate::services::diff_service::{filter_files, reviewable, DiffService};
use crate::services::relocation::{
    hunk_start, hunk_start_of, lemma_marks_off, parse_hunk_new_start, without_marks,
};
use crate::text::{
    chars_of, contains, lines, occurs_at, opt_view, starts_with, text_between, text_lines,
    text_starts_with, views,
};

verus! {

/// What a line of a hunk says.
#[verifier::ext_equal]
pub struct LineView {
    pub kind: DiffLineKind,
    pub content: Seq<char>,
    pub old_lineno: Option<u64>,
    pub new_lineno: Option<u64>,
}

/// What a hunk says.
#[verifier::ext_equal]
pub struct HunkView {
    pub header: Seq<char>,
    pub lines: Seq<LineView>,
}

/// What a changed file says.
#[verifier::ext_equal]
pub struct FileView {
    pub filename: Seq<char>,
    pub old_filename: Option<Seq<char>>,
    pub status: DiffStatus,
    pub hunks: Seq<HunkView>,
    pub additions: u64,
    pub deletions: u64,
    pub mode_change: Option<Seq<char>>,
}

pub open spec fn line_view(l: DiffLine) -> LineView {
    LineView {
        kind: l.kind,
        content: l.content@,
        old_lineno: l.old_lineno,
        new_lineno: l.new_lineno,
    }
}

pub open spec fn hunk_view(h: Hunk) -> HunkView {
    HunkView { header: h.header@, lines: h.lines@.map_values(|l: DiffLine| line_view(l)) }
}

pub open spec fn file_view(f: DiffFile) -> FileView {
    FileView {
        filename: f.filename@,
        old_filename: opt_view(f.old_filename),
        status: f.status,
        hunks: f.hunks@.map_values(|h: Hunk| hunk_view(h)),
        additions: f.additions,
        deletions: f.deletions,
        mode_change: opt_view(f.mode_change),
    }
}

pub open spec fn file_views(files: Seq<DiffFile>) -> Seq<FileView> {
    files.map_values(|f: DiffFile| file_view(f))
}

/// How far a diff was read.
#[verifier::ext_equal]
pub struct ParseView {
    pub files: Seq<FileView>,
    /// Whether the last line belongs to a hunk.
    pub in_hunk: bool,
    /// The numbers of the next line in the old and in the new file.
    pub old_next: u64,
    pub new_next: u64,
}

/// One more, up to the largest number.
pub open spec fn next_number(n: u64) -> u64 {
    if n < u64::MAX {
        (n + 1) as u64
    } else {
        n
    }
}

/// The first line of a hunk in the old file: a header with the sides swapped.
pub open spec fn old_start(header: Seq<char>) -> u64 {
    let rest = without_marks(header);
    if rest.len() > 0 && rest[0] == '-' {
        hunk_start("@@ - +"@ + rest.subrange(1, rest.len() as int))
    } else {
        1
    }
}

/// The name that a file has after the change, by the line that begins it: what
/// stands behind the last ` b/`.
pub open spec fn header_name(line: Seq<char>) -> Seq<char> {
    match last_b(line, line.len() as int) {
        Some(i) => line.subrange(i + 3, line.len() as int),
        None => Seq::empty(),
    }
}

/// The last position before `end` at which ` b/` stands.
pub open spec fn last_b(line: Seq<char>, end: int) -> Option<int>
    decreases end,
{
    if end < 3 || end > line.len() {
        None
    } else if line[end - 3] == ' ' && line[end - 2] == 'b' && line[end - 1] == '/' {
        Some(end - 3)
    } else {
        last_b(line, end - 1)
    }
}

/// A file of which nothing but the first line was read.
pub open spec fn fresh_file(line: Seq<char>) -> FileView {
    FileView {
        filename: header_name(line),
        old_filename: None,
        status: DiffStatus::Modified,
        hunks: Seq::empty(),
        additions: 0,
        deletions: 0,
        mode_change: None,
    }
}

/// What stands behind a prefix.
pub open spec fn behind(line: Seq<char>, prefix: Seq<char>) -> Seq<char> {
    line.subrange(prefix.len() as int, line.len() as int)
}

/// A file after a line of its header.
pub open spec fn with_header_line(f: FileView, line: Seq<char>) -> FileView {
    if starts_with(line, "new file mode "@) {
        FileView { status: DiffStatus::Added, ..f }
    } else if starts_with(line, "deleted file mode "@) {
        FileView { status: DiffStatus::Deleted, ..f }
    } else if starts_with(line, "rename from "@) {
        FileView {
            status: DiffStatus::Renamed,
            old_filename: Some(behind(line, "rename from "@)),
            ..f
        }
    } else if starts_with(line, "rename to "@) {
        FileView { filename: behind(line, "rename to "@), ..f }
    } else if starts_with(line, "copy from "@) {
        FileView {
            status: DiffStatus::Copied,
            old_filename: Some(behind(line, "copy from "@)),
            ..f
        }
    } else if starts_with(line, "copy to "@) {
        FileView { filename: behind(line, "copy to "@), ..f }
    } else if starts_with(line, "new mode "@) {
        FileView { mode_change: Some(behind(line, "new mode "@)), ..f }
    } else {
        f
    }
}

/// A file with one more line in its last hunk.
pub open spec fn with_line(f: FileView, line: LineView) -> FileView {
    if f.hunks.len() == 0 {
        f
    } else {
        let h = f.hunks.last();
        FileView {
            hunks: f.hunks.drop_last().push(HunkView { lines: h.lines.push(line), ..h }),
            additions: if line.kind == DiffLineKind::Added {
                next_number(f.additions)
            } else {
                f.additions
            },
            deletions: if line.kind == DiffLineKind::Removed {
                next_number(f.deletions)
            } else {
                f.deletions
            },
            ..f
        }
    }
}

/// How far a diff was read after one more line.
pub open spec fn parse_step(s: ParseView, line: Seq<char>) -> ParseView {
    if starts_with(line, "diff --git "@) {
        ParseView { files: s.files.push(fresh_file(line)), in_hunk: false, ..s }
    } else if s.files.len() == 0 {
        s
    } else {
        let f = s.files.last();
        let front = s.files.drop_last();
        if starts_with(line, "@@ "@) {
            ParseView {
                files: front.push(
                    FileView {
                        hunks: f.hunks.push(HunkView { header: line, lines: Seq::empty() }),
                        ..f
                    },
                ),
                in_hunk: true,
                old_next: old_start(line),
                new_next: hunk_start(line),
            }
        } else if !s.in_hunk {
            ParseView { files: front.push(with_header_line(f, line)), ..s }
        } else if line.len() == 0 {
            s
        } else {
            let content = line.subrange(1, line.len() as int);
            if line[0] == '+' {
                ParseView {
                    files: front.push(
                        with_line(
                            f,
                            LineView {
                                kind: DiffLineKind::Added,
                                content,
                                old_lineno: None,
                                new_lineno: Some(s.new_next),
                            },
                        ),
                    ),
                    new_next: next_number(s.new_next),
                    ..s
                }
            } else if line[0] == '-' {
                ParseView {
                    files: front.push(
                        with_line(
                            f,
                            LineView {
                                kind: DiffLineKind::Removed,
                                content,
                                old_lineno: Some(s.old_next),
                                new_lineno: None,
                            },
                        ),
                    ),
                    old_next: next_number(s.old_next),
                    ..s
                }
            } else if line[0] == ' ' {
                ParseView {
                    files: front.push(
                        with_line(
                            f,
                            LineView {
                                kind: DiffLineKind::Context,
                                content,
                                old_lineno: Some(s.old_next),
                                new_lineno: Some(s.new_next),
                            },
                        ),
                    ),
                    old_next: next_number(s.old_next),
                    new_next: next_number(s.new_next),
                    ..s
                }
            } else {
                s
            }
        }
    }
}

/// How far a diff was read after all of the lines.
pub open spec fn parsed(all: Seq<Seq<char>>) -> ParseView
    decreases all.len(),
{
    if all.len() == 0 {
        ParseView { files: Seq::empty(), in_hunk: false, old_next: 1, new_next: 1 }
    } else {
        parse_step(parsed(all.drop_last()), all.last())
    }
}

/// How many lines begin a file.
pub open spec fn file_headers(all: Seq<Seq<char>>) -> nat
    decreases all.len(),
{
    if all.len() == 0 {
        0
    } else {
        file_headers(all.drop_last()) + if starts_with(all.last(), "diff --git "@) {
            1nat
        } else {
            0nat
        }
    }
}

/// There is one changed file for each line that begins one.
pub proof fn every_header_is_a_file(all: Seq<Seq<char>>)
    ensures
        parsed(all).files.len() == file_headers(all),
    decreases all.len(),
{
    if all.len() > 0 {
        every_header_is_a_file(all.drop_last());
    }
}

fn next_of(n: u64) -> (r: u64)
    ensures
        r == next_number(n),
{
    if n < u64::MAX {
        n + 1
    } else {
        n
    }
}

fn parse_hunk_old_start(header: &str) -> (r: u64)
    ensures
        r == old_start(header@),
{
    let rest = chars_of(crate::services::relocation::strip_marks(header).as_str());
    if rest.len() > 0 && rest[0] == '-' {
        let mut swapped = "@@ - +".to_owned();
        swapped.push_str(text_between(&rest, 1, rest.len()).as_str());
        parse_hunk_new_start(swapped.as_str())
    } else {
        1
    }
}

fn name_of_header(line: &str) -> (r: String)
    ensures
        r@ == header_name(line@),
{
    let v = chars_of(line);
    let mut end: usize = v.len();
    while end >= 3
        invariant
            end <= v@.len(),
            v@ == line@,
            last_b(line@, line@.len() as int) == last_b(line@, end as int),
        decreases end,
    {
        if v[end - 3] == ' ' && v[end - 2] == 'b' && v[end - 1] == '/' {
            return text_between(&v, end, v.len());
        }
        end -= 1;
    }
    String::new()
}

fn rest_behind(line: &str, prefix: &str) -> (r: String)
    requires
        starts_with(line@, prefix@),
    ensures
        r@ == behind(line@, prefix@),
{
    let v = chars_of(line);
    let p = chars_of(prefix);
    text_between(&v, p.len(), v.len())
}

fn read_header_line(f: DiffFile, line: &str) -> (r: DiffFile)
    ensures
        file_view(r) == with_header_line(file_view(f), line@),
{
    let mut r = f;
    if text_starts_with(line, "new file mode ") {
        r.status = DiffStatus::Added;
    } else if text_starts_with(line, "deleted file mode ") {
        r.status = DiffStatus::Deleted;
    } else if text_starts_with(line, "rename from ") {
        r.status = DiffStatus::Renamed;
        r.old_filename = Some(rest_behind(line, "rename from "));
    } else if text_starts_with(line, "rename to ") {
        r.filename = rest_behind(line, "rename to ");
    } else if text_starts_with(line, "copy from ") {
        r.status = DiffStatus::Copied;
        r.old_filename = Some(rest_behind(line, "copy from "));
    } else if text_starts_with(line, "copy to ") {
        r.filename = rest_behind(line, "copy to ");
    } else if text_starts_with(line, "new mode ") {
        r.mode_change = Some(rest_behind(line, "new mode "));
    }
    assert(file_view(r) =~= with_header_line(file_view(f), line@));
    r
}

fn add_line(f: DiffFile, line: DiffLine) -> (r: DiffFile)
    ensures
        file_view(r) == with_line(file_view(f), line_view(line)),
{
    let mut r = f;
    let ghost before = file_view(r);
    assert(before.hunks.len() == r.hunks@.len());
    if r.hunks.len() == 0 {
        return r;
    }
    let ghost hunks = r.hunks@;
    let kind = line.kind;
    match r.hunks.pop() {
        Some(h) => {
            let mut hunk = h;
            let ghost was = hunk_view(hunk);
            assert(before.hunks.last() == was);
            hunk.lines.push(line);
            assert(hunk_view(hunk).lines =~= was.lines.push(line_view(line)));
            let ghost now = hunk_view(hunk);
            assert(r.hunks@ == hunks.drop_last());
            r.hunks.push(hunk);
            assert(r.hunks@.map_values(|h: Hunk| hunk_view(h)) =~= before.hunks.drop_last().push(now));
        },
        None => {},
    }
    match kind {
        DiffLineKind::Added => {
            r.additions = next_of(r.additions);
        },
        DiffLineKind::Removed => {
            r.deletions = next_of(r.deletions);
        },
        DiffLineKind::Context => {},
    }
    r
}

/// How far a diff was read.
struct Parser {
    files: Vec<DiffFile>,
    in_hunk: bool,
    old_next: u64,
    new_next: u64,
}

impl Parser {
    spec fn so_far(self) -> ParseView {
        ParseView {
            files: file_views(self.files@),
            in_hunk: self.in_hunk,
            old_next: self.old_next,
            new_next: self.new_next,
        }
    }

    fn step(&mut self, line: &str)
        ensures
            final(self).so_far() == parse_step(old(self).so_far(), line@),
    {
        let ghost start = self.so_far();
        assert(start.files.len() == self.files@.len());
        if text_starts_with(line, "diff --git ") {
            let f = DiffFile {
                filename: name_of_header(line),
                old_filename: None,
                status: DiffStatus::Modified,
                hunks: Vec::new(),
                additions: 0,
                deletions: 0,
                mode_change: None,
            };
            assert(file_view(f) =~= fresh_file(line@));
            assert(file_views(self.files@.push(f)) =~= start.files.push(file_view(f)));
            self.files.push(f);
            self.in_hunk = false;
            return ;
        }
        if self.files.len() == 0 {
            return ;
        }
        let ghost all = self.files@;
        let f = match self.files.pop() {
            Some(f) => f,
            None => {
                return ;
            },
        };
        let ghost was = file_view(f);
        assert(start.files.last() == was);
        assert(file_views(self.files@) =~= start.files.drop_last());
        let v = chars_of(line);
        let next = if text_starts_with(line, "@@ ") {
            let mut r = f;
            r.hunks.push(Hunk { header: line.to_owned(), lines: Vec::new() });
            proof {
                let added = r.hunks@.last();
                assert(hunk_view(added) =~= (HunkView { header: line@, lines: Seq::empty() }));
                assert(file_view(r).hunks =~= was.hunks.push(hunk_view(added)));
            }
            self.in_hunk = true;
            self.old_next = parse_hunk_old_start(line);
            self.new_next = parse_hunk_new_start(line);
            r
        } else if !self.in_hunk {
            read_header_line(f, line)
        } else if v.len() == 0 {
            f
        } else if v[0] == '+' {
            let l = DiffLine {
                kind: DiffLineKind::Added,
                content: text_between(&v, 1, v.len()),
                old_lineno: None,
                new_lineno: Some(self.new_next),
            };
            self.new_next = next_of(self.new_next);
            add_line(f, l)
        } else if v[0] == '-' {
            let l = DiffLine {
                kind: DiffLineKind::Removed,
                content: text_between(&v, 1, v.len()),
                old_lineno: Some(self.old_next),
                new_lineno: None,
            };
            self.old_next = next_of(self.old_next);
            add_line(f, l)
        } else if v[0] == ' ' {
            let l = DiffLine {
                kind: DiffLineKind::Context,
                content: text_between(&v, 1, v.len()),
                old_lineno: Some(self.old_next),
                new_lineno: Some(self.new_next),
            };
            self.old_next = next_of(self.old_next);
            self.new_next = next_of(self.new_next);
            add_line(f, l)
        } else {
            f
        };
        proof {
            assert(file_views(self.files@.push(next)) =~= start.files.drop_last().push(
                file_view(next),
            ));
            if file_view(next) == was {
                assert(start.files.drop_last().push(was) =~= start.files);
            }
        }
        self.files.push(next);
    }
}

/// Reads a unified diff. Lines that say nothing of a file are passed over, so
/// that a binary file is there without hunks.
pub fn parse_diff(text: &str) -> (r: Vec<DiffFile>)
    ensures
        file_views(r@) == parsed(lines(text@)).files,
{
    let all = text_lines(text);
    let ghost v = views(all@);
    let mut parser = Parser { files: Vec::new(), in_hunk: false, old_next: 1, new_next: 1 };
    let mut i: usize = 0;
    assert(parser.so_far() =~= parsed(v.take(0)));
    while i < all.len()
        invariant
            i <= all@.len(),
            v == views(all@),
            parser.so_far() == parsed(v.take(i as int)),
        decreases all@.len() - i,
    {
        assert(v.take(i + 1).drop_last() =~= v.take(i as int));
        assert(v.take(i + 1).last() == all@[i as int]@);
        parser.step(all[i].as_str());
        i += 1;
    }
    assert(v.take(i as int) =~= v);
    parser.files
}

impl DiffService {
    /// How many files a diff changes, and those of them that are reviewed.
    pub fn parse_and_filter(&self, diff: &str) -> (r: (usize, Vec<DiffFile>))
        ensures
            exists|files: Seq<DiffFile>|
                file_views(files) == parsed(lines(diff@)).files && r.0 == files.len() && r.1@
                    == #[trigger] reviewable(files, self.max_diff_files as nat),
            r.1@.len() <= r.0,
            r.1@.len() <= self.max_diff_files,
            r.0 == file_headers(lines(diff@)),
    {
        let files = parse_diff(diff);
        proof {
            every_header_is_a_file(lines(diff@));
            assert(file_views(files@).len() == files@.len());
        }
        let changed: usize = files.len();
        (changed, filter_files(files, self.max_diff_files))
    }
}

// ---------------------------------------------------------------------------
// What holds of every diff

/// The line begins a file.
pub open spec fn begins_file(line: Seq<char>) -> bool {
    starts_with(line, "diff --git "@)
}

/// The line begins a hunk.
pub open spec fn begins_hunk(line: Seq<char>) -> bool {
    starts_with(line, "@@ "@)
}

/// The line begins with the character.
pub open spec fn marked(line: Seq<char>, mark: char) -> bool {
    line.len() > 0 && line[0] == mark
}

/// The line belongs to what a hunk shows: its header, or a line under a marker.
pub open spec fn shown(line: Seq<char>) -> bool {
    begins_hunk(line) || marked(line, '+') || marked(line, '-') || marked(line, ' ')
}

/// No line begins a file.
pub open spec fn one_section(all: Seq<Seq<char>>) -> bool {
    forall|i: int| 0 <= i < all.len() ==> !begins_file(#[trigger] all[i])
}

/// A line of a hunk as it stands in a diff.
pub open spec fn diff_line(l: LineView) -> Seq<char> {
    seq![
        match l.kind {
            DiffLineKind::Added => '+',
            DiffLineKind::Removed => '-',
            DiffLineKind::Context => ' ',
        },
    ] + l.content
}

/// Hunks as they stand in a diff, line by line.
pub open spec fn diff_lines(hunks: Seq<HunkView>) -> Seq<Seq<char>>
    decreases hunks.len(),
{
    if hunks.len() == 0 {
        Seq::empty()
    } else {
        diff_lines(hunks.drop_last()).push(hunks.last().header) + hunks.last().lines.map_values(
            |l: LineView| diff_line(l),
        )
    }
}

/// How many of the lines are of one of two kinds.
pub open spec fn lines_of(lines: Seq<LineView>, a: DiffLineKind, b: DiffLineKind) -> nat {
    lines.filter(|l: LineView| l.kind == a || l.kind == b).len()
}

/// The number, or the largest one that there is.
pub open spec fn at_most_max(n: nat) -> u64 {
    if n <= u64::MAX {
        n as u64
    } else {
        u64::MAX
    }
}

/// The lines of a hunk are numbered from its first line on: a line of the new file by
/// the lines of the new file before it, and a line of the old file by those of the old
/// one. What is not in a file has no number there.
#[verifier::opaque]
pub open spec fn numbered(h: HunkView) -> bool {
    forall|i: int|
        0 <= i < h.lines.len() ==> (#[trigger] h.lines[i]).new_lineno == (if h.lines[i].kind
            == DiffLineKind::Removed {
            None
        } else {
            Some(
                at_most_max(
                    hunk_start(h.header) as nat + lines_of(
                        h.lines.take(i),
                        DiffLineKind::Added,
                        DiffLineKind::Context,
                    ),
                ),
            )
        }) && h.lines[i].old_lineno == (if h.lines[i].kind == DiffLineKind::Added {
            None
        } else {
            Some(
                at_most_max(
                    old_start(h.header) as nat + lines_of(
                        h.lines.take(i),
                        DiffLineKind::Removed,
                        DiffLineKind::Context,
                    ),
                ),
            )
        })
}

/// What is told of a file besides its hunks is the same of both.
pub open spec fn same_heading(a: FileView, b: FileView) -> bool {
    a.filename == b.filename && a.old_filename == b.old_filename && a.status == b.status
        && a.mode_change == b.mode_change
}

proof fn lemma_parse_push(all: Seq<Seq<char>>, line: Seq<char>)
    ensures
        parsed(all.push(line)) == parse_step(parsed(all), line),
{
    assert(all.push(line).drop_last() =~= all);
}

proof fn lemma_marks()
    ensures
        forall|line: Seq<char>| #[trigger] begins_hunk(line) ==> marked(line, '@'),
        forall|line: Seq<char>| #[trigger] begins_file(line) ==> marked(line, 'd'),
{
    reveal_strlit("@@ ");
    reveal_strlit("diff --git ");
    assert forall|line: Seq<char>| #[trigger] begins_hunk(line) implies marked(line, '@') by {
        assert(line.subrange(0, 3)[0] == line[0]);
    }
    assert forall|line: Seq<char>| #[trigger] begins_file(line) implies marked(line, 'd') by {
        assert(line.subrange(0, 11)[0] == line[0]);
    }
}

/// Files are read apart: what stands before the first line of a file says nothing of
/// that file or of those behind it, and these say nothing of the files before.
pub proof fn files_are_read_apart(a: Seq<Seq<char>>, b: Seq<Seq<char>>)
    requires
        b.len() == 0 || begins_file(b[0]),
    ensures
        parsed(a + b).files == parsed(a).files + parsed(b).files,
{
    lemma_read_apart(a, b);
}

proof fn lemma_read_apart(a: Seq<Seq<char>>, b: Seq<Seq<char>>)
    requires
        b.len() == 0 || begins_file(b[0]),
    ensures
        parsed(a + b).files == parsed(a).files + parsed(b).files,
        b.len() > 0 ==> {
            &&& parsed(b).files.len() > 0
            &&& parsed(a + b).in_hunk == parsed(b).in_hunk
            &&& parsed(b).in_hunk ==> parsed(a + b).old_next == parsed(b).old_next && parsed(
                a + b,
            ).new_next == parsed(b).new_next
        },
    decreases b.len(),
{
    if b.len() == 0 {
        assert(a + b =~= a);
        assert(parsed(a).files + parsed(b).files =~= parsed(a).files);
    } else {
        let front = b.drop_last();
        assert(front.len() > 0 ==> front[0] == b[0]);
        lemma_read_apart(a, front);
        assert((a + b).drop_last() =~= a + front);
        assert((a + b).last() == b.last());
        let s = parsed(front);
        let t = parsed(a + front);
        if front.len() > 0 {
            assert(t.files.last() == s.files.last());
            assert(t.files.drop_last() =~= parsed(a).files + s.files.drop_last());
        }
        assert(parsed(a + b).files =~= parsed(a).files + parsed(b).files);
    }
}

/// In step with what was read of one section.
proof fn lemma_section(header: Seq<char>, front: Seq<Seq<char>>, rest: Seq<Seq<char>>)
    requires
        begins_file(header),
        one_section(front),
        one_section(rest),
        forall|i: int| 0 <= i < front.len() ==> !begins_hunk(#[trigger] front[i]),
        rest.len() > 0 ==> begins_hunk(rest[0]),
    ensures
        ({
            let s = parsed(seq![header] + front + rest);
            let f = s.files[0];
            &&& s.files.len() == 1
            &&& s.in_hunk == (rest.len() > 0)
            &&& (rest.len() > 0 ==> f.hunks.len() > 0)
            &&& diff_lines(f.hunks) == rest.filter(|l: Seq<char>| shown(l))
            &&& f.hunks.map_values(|h: HunkView| h.header) == rest.filter(
                |l: Seq<char>| begins_hunk(l),
            )
            &&& f.additions == at_most_max(rest.filter(|l: Seq<char>| marked(l, '+')).len())
            &&& f.deletions == at_most_max(rest.filter(|l: Seq<char>| marked(l, '-')).len())
            &&& same_heading(f, parsed(seq![header] + front).files[0])
        }),
    decreases rest.len(), front.len(),
{
    lemma_marks();
    reveal(Seq::filter);
    let all = seq![header] + front + rest;
    let s = parsed(all);
    let is_shown = |l: Seq<char>| shown(l);
    let is_hunk = |l: Seq<char>| begins_hunk(l);
    let heads = |h: HunkView| h.header;
    if rest.len() == 0 {
        assert(all =~= seq![header] + front);
        if front.len() == 0 {
            assert(all =~= seq![header]);
            assert(all.drop_last() =~= Seq::<Seq<char>>::empty());
            reveal_with_fuel(parsed, 2);
        } else {
            let shorter = front.drop_last();
            let none = Seq::<Seq<char>>::empty();
            assert(one_section(shorter)) by {
                assert forall|i: int| 0 <= i < shorter.len() implies !begins_file(
                    #[trigger] shorter[i],
                ) by {
                    assert(shorter[i] == front[i]);
                }
            }
            assert forall|i: int| 0 <= i < shorter.len() implies !begins_hunk(
                #[trigger] shorter[i],
            ) by {
                assert(shorter[i] == front[i]);
            }
            lemma_section(header, shorter, none);
            assert(all.drop_last() =~= seq![header] + shorter + none);
            assert(all.last() == front.last());
        }
        assert(s.files[0].hunks.map_values(heads) =~= rest.filter(is_hunk));
    } else {
        let shorter = rest.drop_last();
        let line = rest.last();
        assert(one_section(shorter)) by {
            assert forall|i: int| 0 <= i < shorter.len() implies !begins_file(
                #[trigger] shorter[i],
            ) by {
                assert(shorter[i] == rest[i]);
            }
        }
        lemma_section(header, front, shorter);
        assert(all.drop_last() =~= seq![header] + front + shorter);
        assert(all.last() == line);
        assert(!begins_file(line)) by {
            assert(line == rest[rest.len() - 1]);
        }
        let t = parsed(all.drop_last());
        let g = t.files[0];
        let f = s.files[0];
        assert(t.files.drop_last() =~= Seq::<FileView>::empty());
        if begins_hunk(line) {
            assert(f.hunks.drop_last() =~= g.hunks);
            let h = f.hunks.last();
            assert(h.lines.map_values(|l: LineView| diff_line(l)) =~= Seq::<Seq<char>>::empty());
            assert(diff_lines(f.hunks) =~= diff_lines(g.hunks).push(line));
            assert(f.hunks.map_values(heads) =~= g.hunks.map_values(heads).push(line));
        } else {
            assert(shorter.len() > 0) by {
                assert(rest.len() == 1 ==> rest[0] == line);
            }
            if marked(line, '+') || marked(line, '-') || marked(line, ' ') {
                let old = g.hunks.last();
                let new = f.hunks.last();
                let view = |l: LineView| diff_line(l);
                assert(f.hunks.drop_last() =~= g.hunks.drop_last());
                assert(diff_line(new.lines.last()) =~= line);
                assert(new.lines.map_values(view) =~= old.lines.map_values(view).push(line));
                assert(diff_lines(f.hunks) =~= diff_lines(g.hunks).push(line));
                assert(f.hunks.map_values(heads) =~= g.hunks.map_values(heads));
            }
        }
    }
}

/// Nothing of a changed file is lost or made up. In a section of a diff, which is the
/// line that begins a file, lines without a hunk, and the rest from the first hunk on:
/// there is one file; its hunks, written out, are just the headers and the marked
/// lines of the rest, in their order; it has a hunk for each header; and it counts the
/// lines that are added and removed. What the hunks hold changes nothing of the rest
/// of what is told of the file.
pub proof fn every_hunk_is_read(header: Seq<char>, front: Seq<Seq<char>>, rest: Seq<Seq<char>>)
    requires
        begins_file(header),
        one_section(front),
        one_section(rest),
        forall|i: int| 0 <= i < front.len() ==> !begins_hunk(#[trigger] front[i]),
        rest.len() > 0 ==> begins_hunk(rest[0]),
    ensures
        ({
            let files = parsed(seq![header] + front + rest).files;
            let f = files[0];
            &&& files.len() == 1
            &&& diff_lines(f.hunks) == rest.filter(|l: Seq<char>| shown(l))
            &&& f.hunks.map_values(|h: HunkView| h.header) == rest.filter(
                |l: Seq<char>| begins_hunk(l),
            )
            &&& f.additions == at_most_max(rest.filter(|l: Seq<char>| marked(l, '+')).len())
            &&& f.deletions == at_most_max(rest.filter(|l: Seq<char>| marked(l, '-')).len())
            &&& same_heading(f, parsed(seq![header] + front).files[0])
        }),
{
    lemma_section(header, front, rest);
}

/// The number that the next line of the hunk has in the new file.
#[verifier::opaque]
pub open spec fn next_new(h: HunkView) -> u64 {
    at_most_max(
        hunk_start(h.header) as nat + lines_of(
            h.lines,
            DiffLineKind::Added,
            DiffLineKind::Context,
        ),
    )
}

/// The number that the next line of the hunk has in the old file.
#[verifier::opaque]
pub open spec fn next_old(h: HunkView) -> u64 {
    at_most_max(
        old_start(h.header) as nat + lines_of(
            h.lines,
            DiffLineKind::Removed,
            DiffLineKind::Context,
        ),
    )
}

proof fn lemma_one_more_line(h: HunkView, l: LineView)
    requires
        numbered(h),
        l.new_lineno == if l.kind == DiffLineKind::Removed {
            None
        } else {
            Some(next_new(h))
        },
        l.old_lineno == if l.kind == DiffLineKind::Added {
            None
        } else {
            Some(next_old(h))
        },
    ensures
        ({
            let more = HunkView { header: h.header, lines: h.lines.push(l) };
            &&& numbered(more)
            &&& next_new(more) == if l.kind == DiffLineKind::Removed {
                next_new(h)
            } else {
                next_number(next_new(h))
            }
            &&& next_old(more) == if l.kind == DiffLineKind::Added {
                next_old(h)
            } else {
                next_number(next_old(h))
            }
        }),
{
    reveal(numbered);
    reveal(next_new);
    reveal(next_old);
    let more = HunkView { header: h.header, lines: h.lines.push(l) };
    assert(more.lines.drop_last() =~= h.lines);
    assert forall|i: int| 0 <= i < h.lines.len() implies #[trigger] more.lines[i] == h.lines[i]
        && more.lines.take(i) == h.lines.take(i) by {
        assert(more.lines.take(i) =~= h.lines.take(i));
    }
    assert(more.lines.take(h.lines.len() as int) =~= h.lines);
    let in_new = |l: LineView| l.kind == DiffLineKind::Added || l.kind == DiffLineKind::Context;
    let in_old = |l: LineView| l.kind == DiffLineKind::Removed || l.kind == DiffLineKind::Context;
    lemma_filter_push(h.lines, l, in_new);
    lemma_filter_push(h.lines, l, in_old);
}

proof fn lemma_filter_push<A>(all: Seq<A>, x: A, p: spec_fn(A) -> bool)
    ensures
        all.push(x).filter(p) == if p(x) {
            all.filter(p).push(x)
        } else {
            all.filter(p)
        },
{
    reveal(Seq::filter);
    assert(all.push(x).drop_last() =~= all);
}

proof fn lemma_fresh_hunk(h: HunkView)
    requires
        h.lines.len() == 0,
    ensures
        numbered(h),
        next_new(h) == hunk_start(h.header),
        next_old(h) == old_start(h.header),
{
    reveal(numbered);
    reveal(next_new);
    reveal(next_old);
    reveal(Seq::filter);
}

spec fn hunks_numbered(s: ParseView) -> bool {
    forall|i: int, j: int|
        0 <= i < s.files.len() && 0 <= j < s.files[i].hunks.len() ==> numbered(
            #[trigger] s.files[i].hunks[j],
        )
}

spec fn counts_on(s: ParseView) -> bool {
    s.in_hunk ==> s.files.len() > 0 && s.files.last().hunks.len() > 0 && s.new_next == next_new(
        s.files.last().hunks.last(),
    ) && s.old_next == next_old(s.files.last().hunks.last())
}

proof fn lemma_line_read(s: ParseView, line: Seq<char>)
    requires
        hunks_numbered(s),
        counts_on(s),
        s.in_hunk,
        !begins_file(line),
        !begins_hunk(line),
    ensures
        hunks_numbered(parse_step(s, line)),
        counts_on(parse_step(s, line)),
{
    let t = parse_step(s, line);
    if marked(line, '+') || marked(line, '-') || marked(line, ' ') {
        let h = s.files.last().hunks.last();
        let n = t.files.len() - 1;
        let m = t.files[n].hunks.len() - 1;
        assert(h == s.files[n].hunks[m]);
        let more = t.files[n].hunks[m];
        lemma_one_more_line(h, more.lines.last());
        assert(more =~= (HunkView { header: h.header, lines: h.lines.push(more.lines.last()) }));
        assert forall|i: int, j: int|
            0 <= i < t.files.len() && 0 <= j < t.files[i].hunks.len() implies numbered(
            #[trigger] t.files[i].hunks[j],
        ) by {
            if i < n || j < m {
                assert(t.files[i].hunks[j] == s.files[i].hunks[j]);
            }
        }
    }
}

proof fn lemma_header_read(s: ParseView, line: Seq<char>)
    requires
        hunks_numbered(s),
        begins_file(line) || begins_hunk(line) || !s.in_hunk,
    ensures
        hunks_numbered(parse_step(s, line)),
        counts_on(parse_step(s, line)) || parse_step(s, line) == s,
{
    let t = parse_step(s, line);
    if begins_hunk(line) && !begins_file(line) && s.files.len() > 0 {
        lemma_fresh_hunk(t.files.last().hunks.last());
    }
    assert forall|i: int, j: int|
        0 <= i < t.files.len() && 0 <= j < t.files[i].hunks.len() implies numbered(
        #[trigger] t.files[i].hunks[j],
    ) by {
        if i < s.files.len() && j < s.files[i].hunks.len() {
            assert(t.files[i].hunks[j] == s.files[i].hunks[j]);
        }
    }
}

proof fn lemma_numbered(all: Seq<Seq<char>>)
    ensures
        hunks_numbered(parsed(all)),
        counts_on(parsed(all)),
    decreases all.len(),
{
    if all.len() > 0 {
        let s = parsed(all.drop_last());
        lemma_numbered(all.drop_last());
        if begins_file(all.last()) || begins_hunk(all.last()) || !s.in_hunk {
            lemma_header_read(s, all.last());
        } else {
            lemma_line_read(s, all.last());
        }
    }
}

/// Every line of every hunk has the numbers that it has in the old and in the new file.
pub proof fn every_line_is_numbered(all: Seq<Seq<char>>, i: int, j: int)
    requires
        0 <= i < parsed(all).files.len(),
        0 <= j < parsed(all).files[i].hunks.len(),
    ensures
        numbered(parsed(all).files[i].hunks[j]),
{
    lemma_numbered(all);
}

proof fn lemma_prefix(p: Seq<char>, n: Seq<char>)
    ensures
        starts_with(p + n, p),
        behind(p + n, p) == n,
{
    assert((p + n).subrange(0, p.len() as int) =~= p);
    assert(behind(p + n, p) =~= n);
}

proof fn lemma_other_prefix(p: Seq<char>, n: Seq<char>, q: Seq<char>, k: int)
    requires
        0 <= k < p.len(),
        k < q.len(),
        p[k] != q[k],
    ensures
        !starts_with(p + n, q),
{
    if starts_with(p + n, q) {
        assert((p + n).subrange(0, q.len() as int)[k] == (p + n)[k]);
    }
}

/// What the lines before the first hunk tell of a file: each line, whatever stands
/// before it, tells its own and leaves the rest as it was. `n` is what stands behind
/// the words.
pub proof fn headings_are_read(
    header: Seq<char>,
    front: Seq<Seq<char>>,
    line: Seq<char>,
    n: Seq<char>,
)
    requires
        begins_file(header),
        one_section(front),
        forall|i: int| 0 <= i < front.len() ==> !begins_hunk(#[trigger] front[i]),
        !begins_file(line),
        !begins_hunk(line),
    ensures
        ({
            let f = parsed(seq![header] + front).files[0];
            let g = parsed(seq![header] + front.push(line)).files[0];
            &&& line == "new file mode "@ + n ==> g == FileView { status: DiffStatus::Added, ..f }
            &&& line == "deleted file mode "@ + n ==> g == FileView {
                status: DiffStatus::Deleted,
                ..f
            }
            &&& line == "rename from "@ + n ==> g == FileView {
                status: DiffStatus::Renamed,
                old_filename: Some(n),
                ..f
            }
            &&& line == "rename to "@ + n ==> g == FileView { filename: n, ..f }
            &&& line == "copy from "@ + n ==> g == FileView {
                status: DiffStatus::Copied,
                old_filename: Some(n),
                ..f
            }
            &&& line == "copy to "@ + n ==> g == FileView { filename: n, ..f }
            &&& line == "new mode "@ + n ==> g == FileView { mode_change: Some(n), ..f }
            &&& !starts_with(line, "new "@) && !starts_with(line, "deleted "@) && !starts_with(
                line,
                "rename "@,
            ) && !starts_with(line, "copy "@) ==> g == f
        }),
{
    let all = seq![header] + front;
    lemma_section(header, front, Seq::empty());
    assert(all + Seq::<Seq<char>>::empty() =~= all);
    assert(seq![header] + front.push(line) =~= all.push(line));
    lemma_parse_push(all, line);
    reveal_strlit("new file mode ");
    reveal_strlit("deleted file mode ");
    reveal_strlit("rename from ");
    reveal_strlit("rename to ");
    reveal_strlit("copy from ");
    reveal_strlit("copy to ");
    reveal_strlit("new mode ");
    reveal_strlit("new ");
    reveal_strlit("deleted ");
    reveal_strlit("rename ");
    reveal_strlit("copy ");
    let added = "new file mode "@;
    let deleted = "deleted file mode "@;
    let from = "rename from "@;
    let to = "rename to "@;
    let copied = "copy from "@;
    let copy = "copy to "@;
    let mode = "new mode "@;
    lemma_prefix(added, n);
    lemma_prefix(deleted, n);
    lemma_prefix(from, n);
    lemma_prefix(to, n);
    lemma_prefix(copied, n);
    lemma_prefix(copy, n);
    lemma_prefix(mode, n);
    lemma_other_prefix(deleted, n, added, 0);
    lemma_other_prefix(from, n, added, 0);
    lemma_other_prefix(from, n, deleted, 0);
    lemma_other_prefix(to, n, added, 0);
    lemma_other_prefix(to, n, deleted, 0);
    lemma_other_prefix(to, n, from, 7);
    lemma_other_prefix(copied, n, added, 0);
    lemma_other_prefix(copied, n, deleted, 0);
    lemma_other_prefix(copied, n, from, 0);
    lemma_other_prefix(copied, n, to, 0);
    lemma_other_prefix(copy, n, added, 0);
    lemma_other_prefix(copy, n, deleted, 0);
    lemma_other_prefix(copy, n, from, 0);
    lemma_other_prefix(copy, n, to, 0);
    lemma_other_prefix(copy, n, copied, 5);
    lemma_other_prefix(mode, n, added, 4);
    lemma_other_prefix(mode, n, deleted, 0);
    lemma_other_prefix(mode, n, from, 0);
    lemma_other_prefix(mode, n, to, 0);
    lemma_other_prefix(mode, n, copied, 0);
    lemma_other_prefix(mode, n, copy, 0);
    lemma_longer_prefix(line, added, "new "@);
    lemma_longer_prefix(line, mode, "new "@);
    lemma_longer_prefix(line, deleted, "deleted "@);
    lemma_longer_prefix(line, from, "rename "@);
    lemma_longer_prefix(line, to, "rename "@);
    lemma_longer_prefix(line, copied, "copy "@);
    lemma_longer_prefix(line, copy, "copy "@);
}

proof fn lemma_longer_prefix(line: Seq<char>, long: Seq<char>, short: Seq<char>)
    requires
        short.len() <= long.len(),
        long.take(short.len() as int) =~= short,
    ensures
        starts_with(line, long) ==> starts_with(line, short),
{
    if starts_with(line, long) {
        assert(line.subrange(0, short.len() as int) =~= line.subrange(0, long.len() as int).take(
            short.len() as int,
        ));
    }
}

/// A file is read under the name that it has after the change, as one that was
/// modified, and without any hunks, where nothing but its first line is there.
pub proof fn files_are_named(old: Seq<char>, new: Seq<char>)
    requires
        !contains(new, " b/"@),
    ensures
        ({
            let files = parsed(seq!["diff --git a/"@ + old + " b/"@ + new]).files;
            &&& files.len() == 1
            &&& files[0].filename == new
            &&& files[0].old_filename is None
            &&& files[0].status == DiffStatus::Modified
            &&& files[0].hunks.len() == 0
            &&& files[0].additions == 0
            &&& files[0].deletions == 0
            &&& files[0].mode_change is None
        }),
{
    reveal_strlit("diff --git a/");
    reveal_strlit("diff --git ");
    reveal_strlit(" b/");
    let line = "diff --git a/"@ + old + " b/"@ + new;
    let at: int = 13 + old.len() as int;
    assert(line.subrange(0, 11) =~= "diff --git "@);
    assert(seq![line].drop_last() =~= Seq::<Seq<char>>::empty());
    reveal_with_fuel(parsed, 2);
    assert(line[at] == ' ' && line[at + 1] == 'b' && line[at + 2] == '/');
    assert(line.subrange(at + 3, line.len() as int) =~= new);
    lemma_last_b(line, at, new, line.len() as int);
}

proof fn lemma_last_b(line: Seq<char>, at: int, new: Seq<char>, end: int)
    requires
        0 <= at,
        at + 3 <= end <= line.len(),
        line[at] == ' ' && line[at + 1] == 'b' && line[at + 2] == '/',
        new == line.subrange(at + 3, line.len() as int),
        !contains(new, " b/"@),
    ensures
        last_b(line, end) == Some(at),
    decreases end,
{
    reveal_strlit(" b/");
    if end > at + 3 {
        if line[end - 3] == ' ' && line[end - 2] == 'b' && line[end - 1] == '/' {
            let k = end - 3 - (at + 3);
            assert(k >= 0);
            assert(new.subrange(k, k + 3) =~= " b/"@);
            assert(occurs_at(new, " b/"@, k));
        }
        lemma_last_b(line, at, new, end - 1);
    }
}

/// A hunk begins where its header says, in the old and in the new file.
pub proof fn headers_tell_where_hunks_begin(old: nat, new: nat, p: Seq<char>, q: Seq<char>)
    requires
        old <= u64::MAX,
        new <= u64::MAX,
        p.len() == 0 || p[0] == ',',
        !p.contains(' '),
        q.len() == 0 || q[0] == ',' || q[0] == ' ',
    ensures
        ({
            let header = "@@ -"@ + decimal(old) + p + " +"@ + decimal(new) + q;
            old_start(header) == old && hunk_start(header) == new
        }),
{
    reveal_strlit("@@ -");
    reveal_strlit("@@ ");
    reveal_strlit(" +");
    reveal_strlit("@@ - +");
    reveal_strlit("-");
    decimal_is_digits(old);
    decimal_is_digits(new);
    let header = "@@ -"@ + decimal(old) + p + " +"@ + decimal(new) + q;
    let first = "-"@ + decimal(old) + p;
    let rest = first + seq![' '] + ("+"@ + decimal(new) + q);
    reveal_strlit("+");
    assert(header =~= "@@ "@ + rest);
    lemma_marks_off(rest);
    assert(!first.contains(' '));
    hunk_start_of(first, new, q);
    let tail = rest.subrange(1, rest.len() as int);
    let swapped = "@@ - +"@ + tail;
    let after = p + seq![' '] + ("+"@ + decimal(new) + q);
    assert("@@ - +"@ + tail =~= "@@ "@ + ("-"@ + seq![' '] + ("+"@ + decimal(old) + after)));
    hunk_start_of("-"@, old, after);
}

/// What is said of a changed file is all that it holds.
pub proof fn views_of_files_tell_all(files: Seq<DiffFile>, i: int, j: int, k: int)
    requires
        0 <= i < files.len(),
    ensures
        ({
            let f = files[i];
            let v = file_views(files)[i];
            &&& file_views(files).len() == files.len()
            &&& v.filename == f.filename@
            &&& (f.old_filename is None ==> v.old_filename is None)
            &&& (f.old_filename matches Some(n) ==> v.old_filename == Some(n@))
            &&& (f.mode_change is None ==> v.mode_change is None)
            &&& (f.mode_change matches Some(n) ==> v.mode_change == Some(n@))
            &&& v.status == f.status
            &&& v.additions == f.additions
            &&& v.deletions == f.deletions
            &&& v.hunks.len() == f.hunks@.len()
            &&& 0 <= j < f.hunks@.len() ==> {
                let h = f.hunks@[j];
                &&& v.hunks[j].header == h.header@
                &&& v.hunks[j].lines.len() == h.lines@.len()
                &&& 0 <= k < h.lines@.len() ==> {
                    &&& v.hunks[j].lines[k].kind == h.lines@[k].kind
                    &&& v.hunks[j].lines[k].content == h.lines@[k].content@
                    &&& v.hunks[j].lines[k].old_lineno == h.lines@[k].old_lineno
                    &&& v.hunks[j].lines[k].new_lineno == h.lines@[k].new_lineno
                }
            }
        }),
{
}

/// Hunks are written one after the other: none changes how another is written.
pub proof fn hunks_stand_one_after_the_other(a: Seq<HunkView>, b: Seq<HunkView>)
    ensures
        diff_lines(a + b) == diff_lines(a) + diff_lines(b),
    decreases b.len(),
{
    if b.len() == 0 {
        assert(a + b =~= a);
        assert(diff_lines(a) + diff_lines(b) =~= diff_lines(a));
    } else {
        hunks_stand_one_after_the_other(a, b.drop_last());
        assert((a + b).drop_last() =~= a + b.drop_last());
        assert(diff_lines(a + b) =~= diff_lines(a) + diff_lines(b));
    }
}

/// One hunk is written as its header and then each of its lines behind its mark.
pub proof fn hunks_are_their_header_and_lines(h: HunkView, i: int)
    ensures
        diff_lines(seq![h]).len() == 1 + h.lines.len(),
        diff_lines(seq![h])[0] == h.header,
        0 <= i < h.lines.len() && h.lines[i].kind == DiffLineKind::Added ==> diff_lines(
            seq![h],
        )[i + 1] == seq!['+'] + h.lines[i].content,
        0 <= i < h.lines.len() && h.lines[i].kind == DiffLineKind::Removed ==> diff_lines(
            seq![h],
        )[i + 1] == seq!['-'] + h.lines[i].content,
        0 <= i < h.lines.len() && h.lines[i].kind == DiffLineKind::Context ==> diff_lines(
            seq![h],
        )[i + 1] == seq![' '] + h.lines[i].content,
{
    let none = Seq::<HunkView>::empty();
    assert(seq![h].drop_last() =~= none);
    assert(diff_lines(none) =~= Seq::<Seq<char>>::empty());
    let written = Seq::<Seq<char>>::empty().push(h.header) + h.lines.map_values(
        |l: LineView| diff_line(l),
    );
    assert(diff_lines(seq![h]) == written);
}

/// A line is shown just where it begins a hunk or stands behind one of the three marks.
pub proof fn marks_tell_what_is_shown(line: Seq<char>)
    ensures
        shown(line) <==> starts_with(line, "@@ "@) || (line.len() > 0 && (line[0] == '+' || line[0]
            == '-' || line[0] == ' ')),
        begins_hunk(line) <==> starts_with(line, "@@ "@),
        begins_file(line) <==> starts_with(line, "diff --git "@),
        marked(line, '+') <==> line.len() > 0 && line[0] == '+',
        marked(line, '-') <==> line.len() > 0 && line[0] == '-',
{
}

} // verus!
