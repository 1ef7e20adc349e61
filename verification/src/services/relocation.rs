//! Lines for findings that came without one.
use vstd::prelude::*;

use crate::diff::{file_text, format_diff_file, DiffFile, DiffLine, DiffLineKind, Hunk};
use crate::diff_parser::{hunk_view, line_view, numbered, LineView};
use crate::engine::ReviewFinding;
use crate::json::{json_parsed, parse_json, set_members_are_found, Json, JsonView};
use crate::numeral::{
    decimal, decimal_is_digits, decimal_reads_back, is_digit, parse_u64, read_unsigned,
};
use crate::services::review_filter::{unfenced, unfenced_lines};
use crate::text::{
    chars_of, contains, find, join, lemma_first_separator, lemma_split_front, lemma_split_one,
    parts_are_contained, same, split, starts_with, text_between, text_join, text_split,
    text_trim_start, trim_start, views,
};

verus! {

/// What the model is told to do with a snippet.
pub const RELOCATE_SYSTEM_PROMPT: &'static str = "You are a code location assistant. Given a diff and a code snippet, find the exact line range in the diff where the snippet appears. Return the start_line and end_line as a JSON object.";

// ---------------------------------------------------------------------------
// Hunk headers

/// `s` without the marks `@@ ` in front.
pub open spec fn without_marks(s: Seq<char>) -> Seq<char>
    decreases s.len(),
{
    if s.len() >= 3 && starts_with(s, "@@ "@) {
        without_marks(s.subrange(3, s.len() as int))
    } else {
        s
    }
}

/// `s` without the plus signs in front.
pub open spec fn without_plus(s: Seq<char>) -> Seq<char>
    decreases s.len(),
{
    if s.len() > 0 && s[0] == '+' {
        without_plus(s.subrange(1, s.len() as int))
    } else {
        s
    }
}

/// The first line of a hunk in the new file: in the second part of the header,
/// behind the plus sign and up to a comma. One where there is no number.
pub open spec fn hunk_start(header: Seq<char>) -> u64 {
    let parts = split(trim_start(without_marks(header)), ' ');
    if parts.len() >= 2 {
        match read_unsigned(split(without_plus(parts[1]), ',')[0], u64::MAX as nat) {
            Ok(n) => n as u64,
            Err(_) => 1,
        }
    } else {
        1
    }
}

/// `s` without the marks `@@ ` in front.
pub fn strip_marks(s: &str) -> (r: String)
    ensures
        r@ == without_marks(s@),
{
    let v = chars_of(s);
    let n: usize = v.len();
    let mut i: usize = 0;
    proof {
        reveal_strlit("@@ ");
    }
    assert(v@.subrange(0, n as int) =~= v@);
    while n - i >= 3 && v[i] == '@' && v[i + 1] == '@' && v[i + 2] == ' '
        invariant
            i <= n,
            n == v@.len(),
            "@@ "@ =~= seq!['@', '@', ' '],
            without_marks(v@) == without_marks(v@.subrange(i as int, n as int)),
        decreases n - i,
    {
        proof {
            let tail = v@.subrange(i as int, n as int);
            assert(tail.subrange(0, 3) =~= "@@ "@);
            assert(tail.subrange(3, tail.len() as int) =~= v@.subrange(i + 3, n as int));
        }
        i += 3;
    }
    proof {
        let tail = v@.subrange(i as int, n as int);
        if tail.len() >= 3 && starts_with(tail, "@@ "@) {
            let front = tail.subrange(0, 3);
            assert(front[0] == v@[i as int] && front[1] == v@[i + 1] && front[2] == v@[i + 2]);
        }
    }
    text_between(&v, i, n)
}

fn strip_plus(s: &str) -> (r: String)
    ensures
        r@ == without_plus(s@),
{
    let v = chars_of(s);
    let n: usize = v.len();
    let mut i: usize = 0;
    assert(v@.subrange(0, n as int) =~= v@);
    while i < n && v[i] == '+'
        invariant
            i <= n,
            n == v@.len(),
            without_plus(v@) == without_plus(v@.subrange(i as int, n as int)),
        decreases n - i,
    {
        proof {
            let tail = v@.subrange(i as int, n as int);
            assert(tail[0] == v@[i as int]);
            assert(tail.subrange(1, tail.len() as int) =~= v@.subrange(i + 1, n as int));
        }
        i += 1;
    }
    proof {
        let tail = v@.subrange(i as int, n as int);
        if i < n {
            assert(tail[0] == v@[i as int]);
        }
    }
    text_between(&v, i, n)
}

/// A text has at least one part.
proof fn lemma_split_nonempty(s: Seq<char>, sep: char)
    ensures
        split(s, sep).len() >= 1,
    decreases s.len(),
{
    match find(s, seq![sep]) {
        Some(i) => if 0 <= i < s.len() {
            lemma_split_nonempty(s.subrange(i + 1, s.len() as int), sep);
        },
        None => {},
    }
}

/// The first line of a hunk in the new file.
pub fn parse_hunk_new_start(header: &str) -> (r: u64)
    ensures
        r == hunk_start(header@),
{
    let parts = text_split(text_trim_start(strip_marks(header).as_str()).as_str(), ' ');
    assert(views(parts@).len() == parts@.len());
    if parts.len() < 2 {
        return 1;
    }
    assert(views(parts@)[1] == parts@[1]@);
    let numbers = text_split(strip_plus(parts[1].as_str()).as_str(), ',');
    proof {
        lemma_split_nonempty(without_plus(parts@[1]@), ',');
        assert(views(numbers@).len() == numbers@.len());
        assert(views(numbers@)[0] == numbers@[0]@);
    }
    match parse_u64(numbers[0].as_str()) {
        Ok(n) => n,
        Err(_) => 1,
    }
}

/// The marks in front of a header come off, and nothing else.
pub proof fn lemma_marks_off(rest: Seq<char>)
    requires
        rest.len() > 0,
        rest[0] != '@',
    ensures
        without_marks("@@ "@ + rest) == rest,
{
    reveal_strlit("@@ ");
    reveal_with_fuel(without_marks, 2);
    let s = "@@ "@ + rest;
    assert(s.subrange(0, 3) =~= "@@ "@);
    assert(s.subrange(3, s.len() as int) =~= rest);
    if rest.len() >= 3 && starts_with(rest, "@@ "@) {
        assert(rest.subrange(0, 3)[0] == rest[0]);
    }
}

/// A hunk begins in the new file at the number behind the plus sign in the second part
/// of its header, whatever the first part and the rest are.
pub proof fn hunk_start_of(first: Seq<char>, n: nat, rest: Seq<char>)
    requires
        n <= u64::MAX,
        first.len() > 0,
        first[0] == '-',
        !first.contains(' '),
        rest.len() == 0 || rest[0] == ',' || rest[0] == ' ',
    ensures
        hunk_start("@@ "@ + (first + seq![' '] + ("+"@ + decimal(n) + rest))) == n,
{
    reveal_strlit("+");
    decimal_is_digits(n);
    let second = "+"@ + decimal(n) + rest;
    let s = first + seq![' '] + second;
    lemma_marks_off(s);
    assert(trim_start(s) == s);
    lemma_split_front(first, ' ', second);
    let parts = split(s, ' ');
    assert(parts =~= seq![first] + split(second, ' '));
    // The second part goes on behind the number up to the next space.
    let d = decimal(n);
    assert forall|i: int| 0 <= i < d.len() implies d[i] != ' ' && d[i] != ',' && d[i] != '+' by {
        assert(is_digit(d[i]));
    }
    let plus = "+"@ + d;
    assert(!plus.contains(' ')) by {
        if plus.contains(' ') {
            let k = choose|k: int| 0 <= k < plus.len() && plus[k] == ' ';
            if k > 0 {
                assert(plus[k] == d[k - 1]);
            }
        }
    }
    lemma_first_piece(plus, rest, ' ');
    let word = split(second, ' ')[0];
    let more = word.subrange(plus.len() as int, word.len() as int);
    assert(word =~= plus + more);
    assert(parts[1] == word);
    assert(word[0] == '+');
    assert(word.subrange(1, word.len() as int) =~= d + more);
    assert((d + more)[0] == d[0]);
    reveal_with_fuel(without_plus, 2);
    assert(without_plus(word) == d + more);
    assert(!d.contains(','));
    lemma_first_piece(d, more, ',');
    assert(split(d + more, ',')[0] =~= d) by {
        if more.len() > 0 {
            assert(more[0] == ',');
            let tail = more.subrange(1, more.len() as int);
            assert(d + more =~= d + seq![','] + tail);
            lemma_split_front(d, ',', tail);
        } else {
            assert(d + more =~= d);
            lemma_split_one(d, ',');
        }
    }
    decimal_reads_back(n, u64::MAX as nat);
}

/// The first piece of a text begins with whatever holds no separator at its front.
proof fn lemma_first_piece(front: Seq<char>, rest: Seq<char>, sep: char)
    requires
        !front.contains(sep),
    ensures
        split(front + rest, sep).len() > 0,
        split(front + rest, sep)[0].len() >= front.len(),
        split(front + rest, sep)[0].take(front.len() as int) == front,
        split(front + rest, sep)[0].len() > front.len() ==> rest.len() > 0 && split(
            front + rest,
            sep,
        )[0][front.len() as int] == rest[0] && rest[0] != sep,
{
    let s = front + rest;
    lemma_first_separator(s, sep);
    match find(s, seq![sep]) {
        Some(i) => {
            if i < front.len() {
                assert(front[i] == s[i]);
            }
            let piece = s.subrange(0, i);
            assert(piece.take(front.len() as int) =~= front);
            if piece.len() > front.len() {
                let k = front.len() as int;
                assert(piece[k] == s[k]);
                assert(piece.contains(piece[k]));
            }
        },
        None => {
            assert(s.take(front.len() as int) =~= front);
            if rest.len() > 0 {
                assert(s.contains(s[front.len() as int]));
            }
        },
    }
}

// ---------------------------------------------------------------------------
// The first line of a change

/// A line of the new file is among the lines.
pub open spec fn shows_new_file(lines: Seq<DiffLine>) -> bool {
    exists|i: int| 0 <= i < lines.len() && (#[trigger] lines[i]).kind != DiffLineKind::Removed
}

/// The number of the first line of the new file that the hunks from the `i`-th
/// on show.
pub open spec fn first_new_line(hunks: Seq<Hunk>, i: int) -> Option<u64>
    decreases hunks.len() - i,
{
    if i < 0 || i >= hunks.len() {
        None
    } else if shows_new_file(hunks[i].lines@) {
        Some(hunk_start(hunks[i].header@))
    } else {
        first_new_line(hunks, i + 1)
    }
}

fn has_new_line(lines: &Vec<DiffLine>) -> (r: bool)
    ensures
        r == shows_new_file(lines@),
{
    let mut i: usize = 0;
    while i < lines.len()
        invariant
            i <= lines@.len(),
            forall|j: int| 0 <= j < i ==> (#[trigger] lines@[j]).kind == DiffLineKind::Removed,
        decreases lines@.len() - i,
    {
        if lines[i].kind != DiffLineKind::Removed {
            assert(lines@[i as int].kind != DiffLineKind::Removed);
            return true;
        }
        i += 1;
    }
    false
}

/// The line of a change that a finding without a line is put at: the first line
/// of the new file that the diff shows. The words of the finding do not count.
pub fn match_from_hunks(diff_file: &DiffFile, _message: &str, _suggestion: &Option<String>) -> (r:
    Option<u64>)
    ensures
        r == first_new_line(diff_file.hunks@, 0),
{
    let mut i: usize = 0;
    while i < diff_file.hunks.len()
        invariant
            i <= diff_file.hunks@.len(),
            first_new_line(diff_file.hunks@, 0) == first_new_line(diff_file.hunks@, i as int),
        decreases diff_file.hunks@.len() - i,
    {
        if has_new_line(&diff_file.hunks[i].lines) {
            return Some(parse_hunk_new_start(diff_file.hunks[i].header.as_str()));
        }
        i += 1;
    }
    None
}

// ---------------------------------------------------------------------------
// Asking for the line

/// What is done about the line of a finding.
pub enum RelocateStep {
    /// It stays as it is.
    Leave,
    /// It becomes this one.
    PutAt(u64),
    /// The model is asked, with this prompt.
    Ask(String),
}

/// The prompt that asks for the line of a finding.
pub open spec fn relocate_prompt(file: DiffFile, message: Seq<char>, suggestion: Seq<char>) -> Seq<
    char,
> {
    "Diff:\n```\n"@ + file_text(file) + "\n```\n\nFinding: "@ + message + "\n\nSuggestion: "@
        + suggestion
        + "\n\nReturn the line number where this finding applies as JSON: {\"line\": N}"@
}

/// The first changed file with the name.
pub open spec fn file_named(files: Seq<DiffFile>, name: Seq<char>, i: int) -> Option<DiffFile>
    decreases files.len() - i,
{
    if i < 0 || i >= files.len() {
        None
    } else if files[i].filename@ == name {
        Some(files[i])
    } else {
        file_named(files, name, i + 1)
    }
}

/// The changed file that a finding is about.
pub open spec fn file_of(finding: ReviewFinding, files: Seq<DiffFile>) -> Option<DiffFile> {
    match finding.file {
        Some(name) => file_named(files, name@, 0),
        None => None,
    }
}

fn find_file<'a>(files: &'a Vec<DiffFile>, name: &str) -> (r: Option<&'a DiffFile>)
    ensures
        match r {
            Some(f) => file_named(files@, name@, 0) == Some(*f),
            None => file_named(files@, name@, 0) is None,
        },
{
    let mut i: usize = 0;
    while i < files.len()
        invariant
            i <= files@.len(),
            file_named(files@, name@, 0) == file_named(files@, name@, i as int),
        decreases files@.len() - i,
    {
        if same(files[i].filename.as_str(), name) {
            return Some(&files[i]);
        }
        i += 1;
    }
    None
}

/// A finding that is given a line: one with a suggestion and without a line,
/// about a file of the diff.
pub open spec fn wants_line(finding: ReviewFinding, files: Seq<DiffFile>) -> bool {
    finding.line is None && finding.suggestion is Some && file_of(finding, files) is Some
}

/// The line of a finding that the diff shows, where the finding wants one.
pub open spec fn shown_line(finding: ReviewFinding, files: Seq<DiffFile>) -> Option<u64> {
    if wants_line(finding, files) {
        first_new_line(file_of(finding, files).unwrap().hunks@, 0)
    } else {
        None
    }
}

/// The finding with the line that the diff shows.
pub open spec fn placed(finding: ReviewFinding, files: Seq<DiffFile>) -> ReviewFinding {
    match shown_line(finding, files) {
        Some(n) => ReviewFinding { line: Some(n), ..finding },
        None => finding,
    }
}

/// The model is asked for the line of a finding.
pub open spec fn asked_for(finding: ReviewFinding, files: Seq<DiffFile>) -> bool {
    wants_line(finding, files) && shown_line(finding, files) is None
}

/// What is done about the line of a finding: only one with a suggestion and
/// without a line, about a file of the diff, is given a line. Where the diff
/// shows no line of the new file, the model is asked.
pub fn relocate_step(finding: &ReviewFinding, files: &Vec<DiffFile>) -> (r: RelocateStep)
    ensures
        if !wants_line(*finding, files@) {
            r == RelocateStep::Leave
        } else {
            match shown_line(*finding, files@) {
                Some(n) => r == RelocateStep::PutAt(n),
                None => r matches RelocateStep::Ask(p) && p@ == relocate_prompt(
                    file_of(*finding, files@).unwrap(),
                    finding.message@,
                    finding.suggestion.unwrap()@,
                ),
            }
        },
{
    if finding.line.is_some() {
        return RelocateStep::Leave;
    }
    let suggestion = match &finding.suggestion {
        Some(s) => s,
        None => {
            return RelocateStep::Leave;
        },
    };
    let file = match &finding.file {
        Some(name) => match find_file(files, name.as_str()) {
            Some(f) => f,
            None => {
                return RelocateStep::Leave;
            },
        },
        None => {
            return RelocateStep::Leave;
        },
    };
    match match_from_hunks(file, finding.message.as_str(), &finding.suggestion) {
        Some(n) => RelocateStep::PutAt(n),
        None => {
            let mut p = "Diff:\n```\n".to_owned();
            p.push_str(format_diff_file(file).as_str());
            p.push_str("\n```\n\nFinding: ");
            p.push_str(finding.message.as_str());
            p.push_str("\n\nSuggestion: ");
            p.push_str(suggestion.as_str());
            p.push_str(
                "\n\nReturn the line number where this finding applies as JSON: {\"line\": N}",
            );
            RelocateStep::Ask(p)
        },
    }
}

/// The line that an answer names, given what it is as JSON.
pub open spec fn named_line(parsed: Option<JsonView>) -> Option<u64> {
    match parsed {
        Some(v) => v.number_at("line"@),
        None => None,
    }
}

/// The line that an answer names, given what it is as JSON.
pub fn line_from(parsed: &Option<Json>) -> (r: Option<u64>)
    ensures
        r == named_line(
            match *parsed {
                Some(j) => Some(j@),
                None => None,
            },
        ),
{
    match parsed {
        Some(j) => j.number_at("line"),
        None => None,
    }
}

/// The line that an answer names, with or without a fence around it.
pub fn relocated_line(answer: &str) -> (r: Option<u64>)
    ensures
        r == named_line(json_parsed(join(unfenced(answer@), ""@))),
{
    let cleaned = text_join(&unfenced_lines(answer), "");
    line_from(&parse_json(cleaned.as_str()))
}

/// The finding after it was given a line, where there is one for it.
pub open spec fn with_line_of(finding: ReviewFinding, line: Option<u64>) -> ReviewFinding {
    match line {
        Some(n) => ReviewFinding { line: Some(n), ..finding },
        None => finding,
    }
}

/// A line that was found for a finding is put in, and nothing else of it is changed.
pub proof fn nothing_but_the_line_is_changed(finding: ReviewFinding, line: Option<u64>)
    ensures
        ({
            let after = with_line_of(finding, line);
            &&& line is Some ==> after.line == line
            &&& line is None ==> after.line == finding.line
            &&& after.severity == finding.severity
            &&& after.file == finding.file
            &&& after.category == finding.category
            &&& after.message == finding.message
            &&& after.suggestion == finding.suggestion
        }),
{
}

/// Gives a finding the line that was found for it; without one it stays as it is.
pub fn apply_line(finding: &mut ReviewFinding, line: Option<u64>)
    ensures
        *final(finding) == with_line_of(*old(finding), line),
        final(finding).line == match line {
            Some(n) => Some(n),
            None => old(finding).line,
        },
        final(finding).severity == old(finding).severity,
        final(finding).file == old(finding).file,
        final(finding).category == old(finding).category,
        final(finding).message == old(finding).message,
        final(finding).suggestion == old(finding).suggestion,
{
    match line {
        Some(n) => {
            finding.line = Some(n);
        },
        None => {},
    }
}

/// Gives a finding the line that the answer of the model names; without an
/// answer, or where it names none, the finding stays as it is.
pub fn apply_answer(finding: &mut ReviewFinding, answer: Option<&str>)
    ensures
        *final(finding) == with_line_of(
            *old(finding),
            match answer {
                Some(text) => named_line(json_parsed(join(unfenced(text@), ""@))),
                None => None,
            },
        ),
        final(finding).line == match answer {
            Some(text) => match named_line(json_parsed(join(unfenced(text@), ""@))) {
                Some(n) => Some(n),
                None => old(finding).line,
            },
            None => old(finding).line,
        },
        final(finding).severity == old(finding).severity,
        final(finding).file == old(finding).file,
        final(finding).category == old(finding).category,
        final(finding).message == old(finding).message,
        final(finding).suggestion == old(finding).suggestion,
{
    let line = match answer {
        Some(text) => relocated_line(text),
        None => None,
    };
    apply_line(finding, line);
}

/// Gives the findings from `from` on the lines that the diff shows, up to the
/// first one whose line the model is asked for: that finding and the prompt.
pub fn resolve_line_numbers(
    findings: &mut Vec<ReviewFinding>,
    files: &Vec<DiffFile>,
    from: usize,
) -> (r: Option<(usize, String)>)
    ensures
        final(findings)@.len() == old(findings)@.len(),
        match r {
            Some((i, prompt)) => {
                &&& from <= i < old(findings)@.len()
                &&& asked_for(old(findings)@[i as int], files@)
                &&& prompt@ == relocate_prompt(
                    file_of(old(findings)@[i as int], files@).unwrap(),
                    old(findings)@[i as int].message@,
                    old(findings)@[i as int].suggestion.unwrap()@,
                )
            },
            None => true,
        },
        forall|j: int|
            #![trigger final(findings)@[j]]
            0 <= j < old(findings)@.len() ==> if from <= j && (r matches Some(a) ==> j < a.0) {
                final(findings)@[j] == placed(old(findings)@[j], files@) && !asked_for(
                    old(findings)@[j],
                    files@,
                )
            } else {
                final(findings)@[j] == old(findings)@[j]
            },
{
    let ghost before = findings@;
    let mut i: usize = from;
    while i < findings.len()
        invariant
            from <= i,
            before == old(findings)@,
            findings@.len() == before.len(),
            forall|j: int|
                #![trigger findings@[j]]
                0 <= j < before.len() ==> if from <= j < i {
                    findings@[j] == placed(before[j], files@) && !asked_for(before[j], files@)
                } else {
                    findings@[j] == before[j]
                },
        decreases findings@.len() - i,
    {
        assert(findings@[i as int] == before[i as int]);
        match relocate_step(&findings[i], files) {
            RelocateStep::Leave => {},
            RelocateStep::PutAt(n) => {
                findings[i].line = Some(n);
            },
            RelocateStep::Ask(prompt) => {
                return Some((i, prompt));
            },
        }
        i += 1;
    }
    None
}

/// A line that a finding has is never changed, and of a finding without one
/// nothing but the line is.
pub proof fn lines_are_only_added(finding: ReviewFinding, files: Seq<DiffFile>)
    ensures
        finding.line is Some ==> placed(finding, files) == finding,
        placed(finding, files) == (ReviewFinding {
            line: placed(finding, files).line,
            ..finding
        }),
        !asked_for(placed(finding, files), files) || placed(finding, files) == finding,
{
}

/// A finding is put at the first line of the new file that the diff shows of its file:
/// the first line that was not removed, under the number that it has there.
pub proof fn the_first_line_shown_is_taken(hunks: Seq<Hunk>, i: int, j: int)
    requires
        0 <= i < hunks.len(),
        0 <= j < hunks[i].lines@.len(),
        numbered(hunk_view(hunks[i])),
        hunks[i].lines@[j].kind != DiffLineKind::Removed,
        forall|k: int|
            0 <= k < j ==> (#[trigger] hunks[i].lines@[k]).kind == DiffLineKind::Removed,
        forall|h: int, k: int|
            0 <= h < i && 0 <= k < hunks[h].lines@.len() ==> (
            #[trigger] hunks[h].lines@[k]).kind == DiffLineKind::Removed,
    ensures
        first_new_line(hunks, 0) == hunks[i].lines@[j].new_lineno,
        first_new_line(hunks, 0) is Some,
{
    lemma_first_shown(hunks, 0, i, j);
    let v = hunk_view(hunks[i]);
    reveal(numbered);
    assert(v.lines[j].new_lineno == hunks[i].lines@[j].new_lineno);
    let front = v.lines.take(j);
    let p = |l: LineView| l.kind == DiffLineKind::Added || l.kind == DiffLineKind::Context;
    assert forall|k: int| 0 <= k < front.len() implies !p(#[trigger] front[k]) by {
        assert(front[k] == line_view(hunks[i].lines@[k]));
    }
    lemma_none_pass(front, p);
}

proof fn lemma_none_pass(lines: Seq<LineView>, p: spec_fn(LineView) -> bool)
    requires
        forall|k: int| 0 <= k < lines.len() ==> !p(#[trigger] lines[k]),
    ensures
        lines.filter(p).len() == 0,
    decreases lines.len(),
{
    reveal(Seq::filter);
    if lines.len() > 0 {
        assert(!p(lines[lines.len() - 1]));
        assert forall|k: int| 0 <= k < lines.drop_last().len() implies !p(
            #[trigger] lines.drop_last()[k],
        ) by {
            assert(!p(lines[k]));
        }
        lemma_none_pass(lines.drop_last(), p);
    }
}

proof fn lemma_first_shown(hunks: Seq<Hunk>, from: int, i: int, j: int)
    requires
        0 <= from <= i < hunks.len(),
        0 <= j < hunks[i].lines@.len(),
        hunks[i].lines@[j].kind != DiffLineKind::Removed,
        forall|h: int, k: int|
            0 <= h < i && 0 <= k < hunks[h].lines@.len() ==> (
            #[trigger] hunks[h].lines@[k]).kind == DiffLineKind::Removed,
    ensures
        first_new_line(hunks, from) == Some(hunk_start(hunks[i].header@)),
    decreases i - from,
{
    if from < i {
        lemma_first_shown(hunks, from + 1, i, j);
        assert(!shows_new_file(hunks[from].lines@)) by {
            if shows_new_file(hunks[from].lines@) {
                let k = choose|k: int|
                    0 <= k < hunks[from].lines@.len() && (#[trigger] hunks[from].lines@[k]).kind
                        != DiffLineKind::Removed;
                assert(hunks[from].lines@[k].kind == DiffLineKind::Removed);
            }
        }
    } else {
        assert(shows_new_file(hunks[i].lines@));
    }
}

/// A file of which the diff shows nothing but what was removed gives no line.
pub proof fn removed_files_give_no_line(hunks: Seq<Hunk>, from: int)
    requires
        0 <= from,
        forall|h: int, k: int|
            0 <= h < hunks.len() && 0 <= k < hunks[h].lines@.len() ==> (
            #[trigger] hunks[h].lines@[k]).kind == DiffLineKind::Removed,
    ensures
        first_new_line(hunks, from) is None,
    decreases hunks.len() - from,
{
    if from < hunks.len() {
        removed_files_give_no_line(hunks, from + 1);
        if shows_new_file(hunks[from].lines@) {
            let k = choose|k: int|
                0 <= k < hunks[from].lines@.len() && (#[trigger] hunks[from].lines@[k]).kind
                    != DiffLineKind::Removed;
            assert(hunks[from].lines@[k].kind == DiffLineKind::Removed);
        }
    }
}

proof fn lemma_file_named(files: Seq<DiffFile>, name: Seq<char>, from: int, i: int)
    requires
        0 <= from <= i < files.len(),
        files[i].filename@ == name,
        forall|k: int| from <= k < i ==> (#[trigger] files[k]).filename@ != name,
    ensures
        file_named(files, name, from) == Some(files[i]),
    decreases i - from,
{
    if from < i {
        assert(files[from].filename@ != name);
        lemma_file_named(files, name, from + 1, i);
    }
}

/// A finding with a suggestion and without a line, about a file of the diff, is put at
/// the first line that the diff shows of that file; where it shows none, the model is
/// asked about that file. Any other finding is left alone.
pub proof fn findings_are_put_where_their_file_changed(
    finding: ReviewFinding,
    files: Seq<DiffFile>,
    i: int,
)
    requires
        finding.file is Some,
        0 <= i < files.len(),
        files[i].filename@ == finding.file.unwrap()@,
        forall|k: int|
            0 <= k < i ==> (#[trigger] files[k]).filename@ != finding.file.unwrap()@,
    ensures
        finding.line is Some || finding.suggestion is None ==> placed(finding, files) == finding
            && !asked_for(finding, files),
        finding.line is None && finding.suggestion is Some ==> match first_new_line(
            files[i].hunks@,
            0,
        ) {
            Some(n) => placed(finding, files) == (ReviewFinding { line: Some(n), ..finding })
                && !asked_for(finding, files),
            None => placed(finding, files) == finding && asked_for(finding, files) && file_of(
                finding,
                files,
            ) == Some(files[i]),
        },
{
    lemma_file_named(files, finding.file.unwrap()@, 0, i);
}

/// A finding about no file, or about one that the diff does not change, is left alone.
pub proof fn findings_elsewhere_are_left_alone(finding: ReviewFinding, files: Seq<DiffFile>)
    requires
        finding.file matches Some(name) ==> forall|k: int|
            0 <= k < files.len() ==> (#[trigger] files[k]).filename@ != name@,
    ensures
        placed(finding, files) == finding,
        !asked_for(finding, files),
{
    match finding.file {
        Some(name) => {
            lemma_no_file_named(files, name@, 0);
        },
        None => {},
    }
}

proof fn lemma_no_file_named(files: Seq<DiffFile>, name: Seq<char>, from: int)
    requires
        0 <= from,
        forall|k: int| 0 <= k < files.len() ==> (#[trigger] files[k]).filename@ != name,
    ensures
        file_named(files, name, from) is None,
    decreases files.len() - from,
{
    if from < files.len() {
        assert(files[from].filename@ != name);
        lemma_no_file_named(files, name, from + 1);
    }
}

/// The model that is asked for a line sees the diff of the file, the finding and the
/// suggestion; and the line is the number that it names.
pub proof fn questions_show_what_they_are_about(
    file: DiffFile,
    message: Seq<char>,
    suggestion: Seq<char>,
    v: JsonView,
    n: u64,
    written: Seq<char>,
)
    requires
        v is Object,
    ensures
        contains(relocate_prompt(file, message, suggestion), file_text(file)),
        contains(relocate_prompt(file, message, suggestion), "Finding: "@ + message),
        contains(relocate_prompt(file, message, suggestion), "Suggestion: "@ + suggestion),
        named_line(Some(v.with("line"@, JsonView::Number(Some(n), written)))) == Some(n),
        named_line(None) is None,
{
    reveal_strlit("\n```\n\nFinding: ");
    reveal_strlit("Finding: ");
    reveal_strlit("\n\nSuggestion: ");
    reveal_strlit("Suggestion: ");
    let end = "\n\nReturn the line number where this finding applies as JSON: {\"line\": N}"@;
    let p = relocate_prompt(file, message, suggestion);
    let f = file_text(file);
    let m = "Finding: "@ + message;
    let s = "Suggestion: "@ + suggestion;
    let fence = "\n```\n\nFinding: "@.subrange(0, 6);
    let gap = "\n\nSuggestion: "@.subrange(0, 2);
    assert("\n```\n\nFinding: "@ =~= fence + "Finding: "@);
    assert("\n\nSuggestion: "@ =~= gap + "Suggestion: "@);
    assert(p =~= "Diff:\n```\n"@ + f + fence + m + gap + s + end);
    parts_are_contained("Diff:\n```\n"@, f, fence + m + gap + s + end);
    assert("Diff:\n```\n"@ + f + (fence + m + gap + s + end) =~= p);
    parts_are_contained("Diff:\n```\n"@ + f + fence, m, gap + s + end);
    assert("Diff:\n```\n"@ + f + fence + m + (gap + s + end) =~= p);
    parts_are_contained("Diff:\n```\n"@ + f + fence + m + gap, s, end);
    set_members_are_found(v, "line"@, JsonView::Number(Some(n), written), "line"@);
}

} // verus!
