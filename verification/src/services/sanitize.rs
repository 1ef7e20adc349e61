//! What is taken out of an answer before it is published.
//!
//! Workflow commands (`::command::`) and ANSI escape sequences are removed
//! everywhere but in fenced code blocks, which are kept as they are. A fence
//! that is not closed ends by itself after so many lines.
use vstd::prelude::*;

use crate::text::{
    chars_of, contains, find, find_from, join, lemma_find_from, lemma_find_tail,
    lemma_first_separator, lemma_split_holds_no_separator, lemma_split_join, lemma_views_push,
    occurs_at, pieces_make_up_the_text, position_from, split, starts_with, text_join, text_of,
    text_split, text_starts_with, text_trim_start, trim_start, views,
};

verus! {

/// How many lines a fenced block may have.
pub const MAX_FENCE_LINES: usize = 500;

/// How many characters of `s` an escape sequence takes that has begun with an
/// escape and a bracket: up to its final character, or all.
pub open spec fn sequence_length(s: Seq<char>) -> nat
    decreases s.len(),
{
    if s.len() == 0 {
        0
    } else if '@' <= s[0] <= '~' {
        1
    } else {
        1 + sequence_length(s.subrange(1, s.len() as int))
    }
}

/// `s` without escape sequences and without other escape characters.
pub open spec fn without_escapes(s: Seq<char>) -> Seq<char>
    decreases s.len(),
    via without_escapes_terminates
{
    if s.len() == 0 {
        Seq::empty()
    } else if s[0] == '\u{1b}' {
        if s.len() > 1 && s[1] == '[' {
            let n = 2 + sequence_length(s.subrange(2, s.len() as int));
            without_escapes(s.subrange(n as int, s.len() as int))
        } else {
            without_escapes(s.subrange(1, s.len() as int))
        }
    } else {
        seq![s[0]] + without_escapes(s.subrange(1, s.len() as int))
    }
}

#[via_fn]
proof fn without_escapes_terminates(s: Seq<char>) {
    if s.len() > 1 {
        lemma_sequence_length(s.subrange(2, s.len() as int));
    }
}

proof fn lemma_sequence_length(s: Seq<char>)
    ensures
        sequence_length(s) <= s.len(),
    decreases s.len(),
{
    if s.len() > 0 && !('@' <= s[0] <= '~') {
        lemma_sequence_length(s.subrange(1, s.len() as int));
    }
}

pub open spec fn is_letter(c: char) -> bool {
    'a' <= c <= 'z' || 'A' <= c <= 'Z'
}

/// How many characters a workflow command takes that `s` begins with; none
/// where it begins with something else.
pub open spec fn command_length(s: Seq<char>) -> int {
    if s.len() > 2 && s[0] == ':' && s[1] == ':' && is_letter(s[2]) {
        match find_from(s, "::"@, 3) {
            Some(j) => j + 2,
            None => 0,
        }
    } else {
        0
    }
}

/// Where the first workflow command from `i` on begins.
pub open spec fn first_command(s: Seq<char>, i: int) -> Option<int>
    decreases s.len() - i,
{
    if i < 0 || i >= s.len() {
        None
    } else if command_length(s.subrange(i, s.len() as int)) > 0 {
        Some(i)
    } else {
        first_command(s, i + 1)
    }
}

/// `s` without the workflow command that begins at `i`.
pub open spec fn cut_command(s: Seq<char>, i: int) -> Seq<char> {
    let n = s.len() as int;
    s.subrange(0, i) + s.subrange(i + command_length(s.subrange(i, n)), n)
}

/// `s` without workflow commands: the first one is taken out until there is none
/// left, so that none can come to be by taking out another.
pub open spec fn without_commands(s: Seq<char>) -> Seq<char>
    decreases s.len(),
    via without_commands_terminates
{
    match first_command(s, 0) {
        Some(i) => without_commands(cut_command(s, i)),
        None => s,
    }
}

#[via_fn]
proof fn without_commands_terminates(s: Seq<char>) {
    lemma_first_command(s, 0);
    match first_command(s, 0) {
        Some(i) => {
            lemma_command_length(s.subrange(i, s.len() as int));
        },
        None => {},
    }
}

proof fn lemma_first_command(s: Seq<char>, i: int)
    requires
        0 <= i,
    ensures
        match first_command(s, i) {
            Some(j) => i <= j < s.len() && command_length(s.subrange(j, s.len() as int)) > 0,
            None => forall|j: int|
                i <= j < s.len() ==> command_length(#[trigger] s.subrange(j, s.len() as int)) == 0,
        },
    decreases s.len() - i,
{
    if i < s.len() {
        lemma_command_length(s.subrange(i, s.len() as int));
        if command_length(s.subrange(i, s.len() as int)) == 0 {
            lemma_first_command(s, i + 1);
            if first_command(s, i + 1) is None {
                assert forall|j: int| i <= j < s.len() implies command_length(
                    #[trigger] s.subrange(j, s.len() as int),
                ) == 0 by {}
            }
        }
    }
}

proof fn lemma_command_length(s: Seq<char>)
    ensures
        0 <= command_length(s) <= s.len(),
{
    reveal_strlit("::");
    if s.len() > 2 {
        lemma_find_from(s, "::"@, 3);
    }
}

/// A line outside of code blocks, as it is published.
pub open spec fn clean_line(line: Seq<char>) -> Seq<char> {
    without_commands(without_escapes(line))
}

/// A line that opens or closes a code block.
pub open spec fn is_fence(line: Seq<char>) -> bool {
    starts_with(trim_start(line), "```"@)
}

/// The state behind a line outside of code blocks, as it is published: the block
/// that the line opens, or none.
pub open spec fn opened_by(line: Seq<char>) -> nat {
    if is_fence(line) {
        1
    } else {
        0
    }
}

/// The lines from the `i`-th on as they are published; `open` is zero outside of
/// a code block, and inside it counts the fence and the lines since. A line outside
/// of code blocks is cleaned before it is seen whether it opens one, so that no
/// fence comes to be by cleaning.
pub open spec fn clean_lines(lines: Seq<Seq<char>>, i: int, open: nat) -> Seq<Seq<char>>
    decreases lines.len() - i,
{
    if i < 0 || i >= lines.len() {
        Seq::empty()
    } else {
        let line = lines[i];
        if open == 0 {
            seq![clean_line(line)] + clean_lines(lines, i + 1, opened_by(clean_line(line)))
        } else if open > MAX_FENCE_LINES {
            seq![clean_line(line)] + clean_lines(lines, i + 1, 0)
        } else if is_fence(line) {
            seq![line] + clean_lines(lines, i + 1, 0)
        } else {
            seq![line] + clean_lines(lines, i + 1, open + 1)
        }
    }
}

/// An answer as it is published.
pub open spec fn sanitized(text: Seq<char>) -> Seq<char> {
    join(clean_lines(split(text, '\n'), 0, 0), "\n"@)
}

fn strip_escapes(s: &str) -> (r: String)
    ensures
        r@ == without_escapes(s@),
{
    let v = chars_of(s);
    let n: usize = v.len();
    let mut out = String::new();
    let mut i: usize = 0;
    assert(v@.subrange(0, n as int) =~= v@);
    assert(out@ + without_escapes(v@) =~= without_escapes(v@));
    while i < n
        invariant
            i <= n,
            n == v@.len(),
            without_escapes(v@) == out@ + without_escapes(v@.subrange(i as int, n as int)),
        decreases n - i,
    {
        let ghost tail = v@.subrange(i as int, n as int);
        assert(tail[0] == v@[i as int]);
        assert(tail.subrange(1, tail.len() as int) =~= v@.subrange(i + 1, n as int));
        if v[i] == '\u{1b}' {
            if i + 1 < n && v[i + 1] == '[' {
                assert(tail[1] == v@[i + 1]);
                let start: usize = i + 2;
                let mut j: usize = start;
                let ghost rest = v@.subrange(start as int, n as int);
                assert(tail.subrange(2, tail.len() as int) =~= rest);
                while j < n && !('@' <= v[j] && v[j] <= '~')
                    invariant
                        start <= j <= n,
                        n == v@.len(),
                        rest == v@.subrange(start as int, n as int),
                        sequence_length(rest) == (j - start) + sequence_length(
                            v@.subrange(j as int, n as int),
                        ),
                    decreases n - j,
                {
                    let ghost t = v@.subrange(j as int, n as int);
                    assert(t[0] == v@[j as int]);
                    assert(t.subrange(1, t.len() as int) =~= v@.subrange(j + 1, n as int));
                    j += 1;
                }
                proof {
                    let t = v@.subrange(j as int, n as int);
                    if j < n {
                        assert(t[0] == v@[j as int]);
                    }
                    lemma_sequence_length(rest);
                }
                if j < n {
                    j += 1;
                }
                proof {
                    let k = 2 + sequence_length(rest);
                    assert(j == i + k);
                    assert(tail.subrange(k as int, tail.len() as int) =~= v@.subrange(
                        j as int,
                        n as int,
                    ));
                }
                i = j;
            } else {
                i += 1;
            }
        } else {
            let ghost before = out@;
            out.push(v[i]);
            assert(before + (seq![v@[i as int]] + without_escapes(v@.subrange(i + 1, n as int)))
                =~= out@ + without_escapes(v@.subrange(i + 1, n as int)));
            i += 1;
        }
    }
    assert(v@.subrange(i as int, n as int) =~= Seq::<char>::empty());
    assert(out@ + Seq::<char>::empty() =~= out@);
    out
}

/// Where the first workflow command begins, and where it ends.
fn find_command(v: &Vec<char>) -> (r: Option<(usize, usize)>)
    ensures
        match r {
            Some((i, end)) => first_command(v@, 0) == Some(i as int) && i < end <= v@.len() && end
                == i + command_length(v@.subrange(i as int, v@.len() as int)),
            None => first_command(v@, 0) is None,
        },
{
    let n: usize = v.len();
    let colons = chars_of("::");
    let mut i: usize = 0;
    proof {
        reveal_strlit("::");
    }
    while i < n
        invariant
            i <= n,
            n == v@.len(),
            colons@ == "::"@,
            colons@.len() == 2,
            first_command(v@, 0) == first_command(v@, i as int),
        decreases n - i,
    {
        let ghost tail = v@.subrange(i as int, n as int);
        assert(tail[0] == v@[i as int]);
        if n - i > 2 && v[i] == ':' && v[i + 1] == ':' && ((v[i + 2] >= 'a' && v[i + 2] <= 'z') || (
        v[i + 2] >= 'A' && v[i + 2] <= 'Z')) {
            assert(tail[1] == v@[i + 1] && tail[2] == v@[i + 2]);
            proof {
                lemma_find_tail(v@, "::"@, i as int, i + 3);
                lemma_command_length(tail);
            }
            match position_from(v, &colons, i + 3) {
                Some(j) => {
                    return Some((i, j + 2));
                },
                None => {},
            }
        } else if n - i > 2 {
            assert(tail[1] == v@[i + 1] && tail[2] == v@[i + 2]);
        }
        i += 1;
    }
    None
}

fn strip_commands(s: &str) -> (r: String)
    ensures
        r@ == without_commands(s@),
{
    let mut v = chars_of(s);
    loop
        invariant
            without_commands(s@) == without_commands(v@),
        ensures
            v@ == without_commands(s@),
        decreases v@.len(),
    {
        match find_command(&v) {
            Some((i, end)) => {
                let ghost before = v@;
                let mut rest = v.split_off(end);
                v.truncate(i);
                v.append(&mut rest);
                assert(v@ =~= cut_command(before, i as int));
            },
            None => {
                break;
            },
        }
    }
    text_of(&v)
}

/// Takes workflow commands and ANSI escape sequences out of an answer, but for
/// its code blocks.
pub fn sanitize_output(text: &str) -> (r: String)
    ensures
        r@ == sanitized(text@),
{
    let lines = text_split(text, '\n');
    let ghost all = views(lines@);
    let mut out: Vec<String> = Vec::new();
    let mut open: usize = 0;
    let mut i: usize = 0;
    assert(views(out@) =~= Seq::<Seq<char>>::empty());
    assert(views(out@) + clean_lines(all, 0, 0) =~= clean_lines(all, 0, 0));
    while i < lines.len()
        invariant
            i <= lines@.len(),
            open <= MAX_FENCE_LINES + 1,
            all == views(lines@),
            clean_lines(all, 0, 0) == views(out@) + clean_lines(all, i as int, open as nat),
        decreases lines@.len() - i,
    {
        assert(all[i as int] == lines@[i as int]@);
        let ghost before = views(out@);
        let ghost was = open as nat;
        let outside = open == 0 || open > MAX_FENCE_LINES;
        let line = if outside {
            strip_commands(strip_escapes(lines[i].as_str()).as_str())
        } else {
            lines[i].clone()
        };
        let fence = text_starts_with(text_trim_start(line.as_str()).as_str(), "```");
        open = if open == 0 {
            if fence {
                1
            } else {
                0
            }
        } else if outside || fence {
            0
        } else {
            open + 1
        };
        proof {
            lemma_views_push(out@, line);
            let rest = clean_lines(all, i + 1, open as nat);
            assert(clean_lines(all, i as int, was) == seq![line@] + rest);
            assert(before + (seq![line@] + rest) =~= before.push(line@) + rest);
        }
        out.push(line);
        i += 1;
    }
    assert(clean_lines(all, i as int, open as nat) =~= Seq::<Seq<char>>::empty());
    assert(views(out@) + Seq::<Seq<char>>::empty() =~= views(out@));
    text_join(&out, "\n")
}

/// A line without an escape character and without two colons in a row is
/// published as it is.
pub proof fn harmless_line_is_kept(line: Seq<char>)
    requires
        !line.contains('\u{1b}'),
        !contains(line, "::"@),
    ensures
        clean_line(line) == line,
{
    lemma_no_escapes(line);
    lemma_no_commands(line);
}

proof fn lemma_no_escapes(s: Seq<char>)
    requires
        !s.contains('\u{1b}'),
    ensures
        without_escapes(s) == s,
    decreases s.len(),
{
    if s.len() > 0 {
        let t = s.subrange(1, s.len() as int);
        assert(s.contains(s[0]));
        assert(!t.contains('\u{1b}')) by {
            if t.contains('\u{1b}') {
                let i = choose|i: int| 0 <= i < t.len() && t[i] == '\u{1b}';
                assert(s[i + 1] == '\u{1b}');
            }
        }
        lemma_no_escapes(t);
        assert(seq![s[0]] + t =~= s);
    } else {
        assert(without_escapes(s) =~= s);
    }
}

proof fn lemma_no_commands(s: Seq<char>)
    requires
        !contains(s, "::"@),
    ensures
        without_commands(s) == s,
{
    reveal_strlit("::");
    lemma_first_command(s, 0);
    match first_command(s, 0) {
        Some(i) => {
            let t = s.subrange(i, s.len() as int);
            assert(t[0] == s[i] && t[1] == s[i + 1]);
            assert(s.subrange(i, i + 2) =~= "::"@);
            assert(occurs_at(s, "::"@, i));
        },
        None => {},
    }
}

/// Nowhere in the text does a workflow command begin.
pub open spec fn free_of_commands(s: Seq<char>) -> bool {
    forall|i: int|
        0 <= i < s.len() ==> command_length(#[trigger] s.subrange(i, s.len() as int)) == 0
}

/// A line that was cleaned holds no workflow command and no escape character.
pub proof fn cleaned_lines_are_harmless(line: Seq<char>)
    ensures
        free_of_commands(clean_line(line)),
        !clean_line(line).contains('\u{1b}'),
{
    lemma_escapes_are_out(line);
    lemma_commands_are_out(without_escapes(line));
}

proof fn lemma_escapes_are_out(s: Seq<char>)
    ensures
        !without_escapes(s).contains('\u{1b}'),
    decreases s.len(),
{
    if s.len() > 0 {
        if s[0] == '\u{1b}' && s.len() > 1 && s[1] == '[' {
            lemma_sequence_length(s.subrange(2, s.len() as int));
            let n = 2 + sequence_length(s.subrange(2, s.len() as int));
            lemma_escapes_are_out(s.subrange(n as int, s.len() as int));
        } else {
            let t = s.subrange(1, s.len() as int);
            lemma_escapes_are_out(t);
            if s[0] != '\u{1b}' {
                let out = seq![s[0]] + without_escapes(t);
                if out.contains('\u{1b}') {
                    let i = choose|i: int| 0 <= i < out.len() && out[i] == '\u{1b}';
                    assert(without_escapes(t)[i - 1] == '\u{1b}');
                }
            }
        }
    }
}

proof fn lemma_commands_are_out(s: Seq<char>)
    ensures
        free_of_commands(without_commands(s)),
        !s.contains('\u{1b}') ==> !without_commands(s).contains('\u{1b}'),
    decreases s.len(),
{
    lemma_first_command(s, 0);
    match first_command(s, 0) {
        Some(i) => {
            lemma_command_length(s.subrange(i, s.len() as int));
            let t = cut_command(s, i);
            lemma_commands_are_out(t);
            if !s.contains('\u{1b}') && t.contains('\u{1b}') {
                let k = choose|k: int| 0 <= k < t.len() && t[k] == '\u{1b}';
                if k < i {
                    assert(s[k] == '\u{1b}');
                } else {
                    assert(s[k + command_length(s.subrange(i, s.len() as int))] == '\u{1b}');
                }
            }
        },
        None => {},
    }
}

/// Every line is published, as it is or cleaned; and where no cleaned line is a
/// fence, every line is cleaned.
pub proof fn lines_are_kept_or_cleaned(lines: Seq<Seq<char>>, i: int, open: nat)
    requires
        0 <= i <= lines.len(),
    ensures
        clean_lines(lines, i, open).len() == lines.len() - i,
        forall|j: int|
            i <= j < lines.len() ==> ({
                let out = #[trigger] clean_lines(lines, i, open)[j - i];
                out == lines[j] || out == clean_line(lines[j])
            }),
        open == 0 && (forall|j: int|
            i <= j < lines.len() ==> !is_fence(clean_line(#[trigger] lines[j]))) ==> forall|j: int|
            i <= j < lines.len() ==> #[trigger] clean_lines(lines, i, open)[j - i] == clean_line(
                lines[j],
            ),
    decreases lines.len() - i,
{
    if i < lines.len() {
        let next: nat = if open == 0 {
            opened_by(clean_line(lines[i]))
        } else if open > MAX_FENCE_LINES || is_fence(lines[i]) {
            0
        } else {
            open + 1
        };
        lines_are_kept_or_cleaned(lines, i + 1, next);
        let out = clean_lines(lines, i, open);
        let rest = clean_lines(lines, i + 1, next);
        assert forall|j: int| i < j < lines.len() implies #[trigger] out[j - i] == rest[j - (i
            + 1)] by {}
    }
}

// ---------------------------------------------------------------------------
// What is published

/// A line with no workflow command and no escape character in it.
pub open spec fn harmless(line: Seq<char>) -> bool {
    free_of_commands(line) && !line.contains('\u{1b}')
}

/// Every line outside of code blocks is harmless; `open` is zero outside of a code
/// block, and inside it counts the fence and the lines since.
pub open spec fn harmless_outside(lines: Seq<Seq<char>>, open: nat) -> bool
    decreases lines.len(),
{
    if lines.len() == 0 {
        true
    } else {
        let rest = lines.subrange(1, lines.len() as int);
        if open == 0 {
            harmless(lines[0]) && harmless_outside(rest, opened_by(lines[0]))
        } else if open > MAX_FENCE_LINES {
            harmless(lines[0]) && harmless_outside(rest, 0)
        } else if is_fence(lines[0]) {
            harmless_outside(rest, 0)
        } else {
            harmless_outside(rest, open + 1)
        }
    }
}

/// No line of the text outside of its code blocks holds a workflow command or an
/// escape character.
pub open spec fn publishable(text: Seq<char>) -> bool {
    harmless_outside(split(text, '\n'), 0)
}

/// Whatever an answer holds, no line of it outside of code blocks holds a workflow
/// command or an escape character once it is sanitized.
pub proof fn sanitized_text_is_publishable(text: Seq<char>)
    ensures
        publishable(sanitized(text)),
{
    let all = split(text, '\n');
    lemma_split_holds_no_separator(text, '\n');
    lines_are_kept_or_cleaned(all, 0, 0);
    let out = clean_lines(all, 0, 0);
    assert forall|j: int| 0 <= j < out.len() implies !(#[trigger] out[j]).contains('\n') by {
        assert(out[j] == clean_lines(all, 0, 0)[j - 0]);
        lemma_clean_line_keeps(all[j]);
    }
    lemma_split_join(out);
    lemma_cleaned_outside(all, 0, 0);
}

proof fn lemma_cleaned_outside(lines: Seq<Seq<char>>, i: int, open: nat)
    requires
        0 <= i <= lines.len(),
    ensures
        harmless_outside(clean_lines(lines, i, open), open),
    decreases lines.len() - i,
{
    if i < lines.len() {
        let next: nat = if open == 0 {
            opened_by(clean_line(lines[i]))
        } else if open > MAX_FENCE_LINES || is_fence(lines[i]) {
            0
        } else {
            open + 1
        };
        let out = clean_lines(lines, i, open);
        let rest = clean_lines(lines, i + 1, next);
        lemma_cleaned_outside(lines, i + 1, next);
        cleaned_lines_are_harmless(lines[i]);
        assert(out.subrange(1, out.len() as int) =~= rest);
    }
}

/// Cleaning a line brings no line feed into it.
proof fn lemma_clean_line_keeps(line: Seq<char>)
    ensures
        !line.contains('\n') ==> !clean_line(line).contains('\n'),
{
    lemma_escapes_add_nothing(line, '\n');
    lemma_commands_add_nothing(without_escapes(line), '\n');
}

proof fn lemma_escapes_add_nothing(s: Seq<char>, c: char)
    ensures
        !s.contains(c) ==> !without_escapes(s).contains(c),
    decreases s.len(),
{
    if s.len() > 0 && !s.contains(c) {
        assert(s[0] != c);
        if s[0] == '\u{1b}' && s.len() > 1 && s[1] == '[' {
            lemma_sequence_length(s.subrange(2, s.len() as int));
            let n = 2 + sequence_length(s.subrange(2, s.len() as int));
            let t = s.subrange(n as int, s.len() as int);
            assert forall|k: int| 0 <= k < t.len() implies t[k] != c by {
                assert(s[k + n] != c);
            }
            lemma_escapes_add_nothing(t, c);
        } else {
            let t = s.subrange(1, s.len() as int);
            assert forall|k: int| 0 <= k < t.len() implies t[k] != c by {
                assert(s[k + 1] != c);
            }
            lemma_escapes_add_nothing(t, c);
            if s[0] != '\u{1b}' {
                let out = seq![s[0]] + without_escapes(t);
                assert forall|k: int| 0 <= k < out.len() implies out[k] != c by {
                    if k > 0 {
                        assert(without_escapes(t)[k - 1] != c);
                    }
                }
            }
        }
    }
}

proof fn lemma_commands_add_nothing(s: Seq<char>, c: char)
    ensures
        !s.contains(c) ==> !without_commands(s).contains(c),
    decreases s.len(),
{
    lemma_first_command(s, 0);
    match first_command(s, 0) {
        Some(i) => {
            lemma_command_length(s.subrange(i, s.len() as int));
            let t = cut_command(s, i);
            lemma_commands_add_nothing(t, c);
            if !s.contains(c) {
                assert forall|k: int| 0 <= k < t.len() implies t[k] != c by {
                    if k < i {
                        assert(s[k] != c);
                    } else {
                        assert(s[k + command_length(s.subrange(i, s.len() as int))] != c);
                    }
                }
            }
        },
        None => {},
    }
}

// ---------------------------------------------------------------------------
// What is kept

proof fn lemma_piece_is_inside(s: Seq<char>, sep: char, k: int) -> (i: int)
    requires
        0 <= k < split(s, sep).len(),
    ensures
        occurs_at(s, split(s, sep)[k], i),
    decreases s.len(),
{
    lemma_first_separator(s, sep);
    match find(s, seq![sep]) {
        Some(n) => {
            if k == 0 {
                0
            } else {
                let rest = s.subrange(n + 1, s.len() as int);
                let i = lemma_piece_is_inside(rest, sep, k - 1);
                let piece = split(rest, sep)[k - 1];
                assert(split(s, sep)[k] == piece);
                assert(s.subrange(n + 1 + i, n + 1 + i + piece.len()) =~= rest.subrange(
                    i,
                    i + piece.len(),
                ));
                n + 1 + i
            }
        },
        None => {
            assert(s.subrange(0, s.len() as int) =~= s);
            0
        },
    }
}

/// A text without an escape character and without two colons in a row is published as it
/// is, line by line.
pub proof fn harmless_text_is_kept(text: Seq<char>)
    requires
        !text.contains('\u{1b}'),
        !contains(text, "::"@),
    ensures
        sanitized(text) == text,
{
    reveal_strlit("\n");
    let all = split(text, '\n');
    let out = clean_lines(all, 0, 0);
    lines_are_kept_or_cleaned(all, 0, 0);
    assert forall|j: int| 0 <= j < all.len() implies #[trigger] out[j] == all[j] by {
        assert(out[j] == clean_lines(all, 0, 0)[j - 0]);
        let i = lemma_piece_is_inside(text, '\n', j);
        let line = all[j];
        assert(text.subrange(i, i + line.len()) == line);
        if line.contains('\u{1b}') {
            let k = choose|k: int| 0 <= k < line.len() && line[k] == '\u{1b}';
            assert(text[i + k] == '\u{1b}');
        }
        if contains(line, "::"@) {
            let k = choose|k: int| occurs_at(line, "::"@, k);
            assert(text.subrange(i + k, i + k + "::"@.len()) =~= line.subrange(
                k,
                k + "::"@.len(),
            ));
            assert(occurs_at(text, "::"@, i + k));
        }
        harmless_line_is_kept(line);
    }
    assert(out =~= all);
    pieces_make_up_the_text(text, '\n');
    assert("\n"@ =~= seq!['\n']);
}

/// A workflow command is taken out of its line, and what stands before and behind it is
/// kept.
pub proof fn commands_are_taken_out(a: Seq<char>, c: Seq<char>, b: Seq<char>)
    requires
        !a.contains(':'),
        !b.contains(':'),
        !c.contains(':'),
        c.len() > 0,
        is_letter(c[0]),
        !a.contains('\u{1b}'),
        !b.contains('\u{1b}'),
        !c.contains('\u{1b}'),
    ensures
        clean_line(a + "::"@ + c + "::"@ + b) == a + b,
{
    reveal_strlit("::");
    let s = a + "::"@ + c + "::"@ + b;
    let n = a.len() as int;
    let len = s.len() as int;
    assert(!s.contains('\u{1b}')) by {
        if s.contains('\u{1b}') {
            let k = choose|k: int| 0 <= k < s.len() && s[k] == '\u{1b}';
            if k < n {
                assert(a[k] == s[k]);
            } else if n + 2 <= k < n + 2 + c.len() {
                assert(c[k - n - 2] == s[k]);
            } else if k >= n + 4 + c.len() {
                assert(b[k - n - 4 - c.len()] == s[k]);
            }
        }
    }
    lemma_no_escapes(s);
    let tail = s.subrange(n, len);
    lemma_command_found(c, b);
    assert(tail =~= "::"@ + c + "::"@ + b);
    lemma_first_at(s, 0, n);
    assert(cut_command(s, n) =~= a + b);
    assert(!contains(a + b, "::"@)) by {
        if contains(a + b, "::"@) {
            let k = choose|k: int| occurs_at(a + b, "::"@, k);
            assert((a + b).subrange(k, k + 2)[0] == (a + b)[k]);
            if k < n {
                assert(a[k] == ':');
            } else {
                assert(b[k - n] == ':');
            }
        }
    }
    lemma_no_commands(a + b);
}

proof fn lemma_command_found(c: Seq<char>, b: Seq<char>)
    requires
        !c.contains(':'),
        c.len() > 0,
        is_letter(c[0]),
    ensures
        command_length("::"@ + c + "::"@ + b) == 4 + c.len(),
{
    reveal_strlit("::");
    let s = "::"@ + c + "::"@ + b;
    let at = 2 + c.len() as int;
    lemma_find_from(s, "::"@, 3);
    assert(s.subrange(at, at + 2) =~= "::"@);
    assert(s[2] == c[0]);
    match find_from(s, "::"@, 3) {
        Some(j) => {
            if j < at {
                assert(s.subrange(j, j + 2)[0] == s[j]);
                assert(s[j] == c[j - 2]);
            }
            if at < j {
                assert(!occurs_at(s, "::"@, at));
            }
        },
        None => {
            assert(!occurs_at(s, "::"@, at));
        },
    }
}

proof fn lemma_first_at(s: Seq<char>, i: int, n: int)
    requires
        0 <= i <= n < s.len(),
        forall|k: int| i <= k < n ==> #[trigger] s[k] != ':',
        command_length(s.subrange(n, s.len() as int)) > 0,
    ensures
        first_command(s, i) == Some(n),
    decreases n - i,
{
    if i < n {
        assert(s.subrange(i, s.len() as int)[0] == s[i]);
        lemma_first_at(s, i + 1, n);
    }
}

/// An escape sequence is taken out of its line as a whole, up to its final character.
pub proof fn escape_sequences_are_taken_out(a: Seq<char>, p: Seq<char>, last: char, b: Seq<char>)
    requires
        !a.contains('\u{1b}'),
        forall|i: int| 0 <= i < p.len() ==> !('@' <= #[trigger] p[i] <= '~'),
        '@' <= last <= '~',
    ensures
        without_escapes(a + seq!['\u{1b}', '['] + p + seq![last] + b) == a + without_escapes(b),
    decreases a.len(),
{
    let s = a + seq!['\u{1b}', '['] + p + seq![last] + b;
    if a.len() == 0 {
        let rest = s.subrange(2, s.len() as int);
        assert(rest =~= p + seq![last] + b);
        lemma_sequence_of(p, last, b);
        let n = 2 + p.len() + 1;
        assert(s.subrange(n as int, s.len() as int) =~= b);
        assert(without_escapes(s) =~= a + without_escapes(b));
    } else {
        let tail = a.subrange(1, a.len() as int);
        assert(a.contains(a[0]));
        assert(!tail.contains('\u{1b}')) by {
            if tail.contains('\u{1b}') {
                let k = choose|k: int| 0 <= k < tail.len() && tail[k] == '\u{1b}';
                assert(a[k + 1] == '\u{1b}');
            }
        }
        escape_sequences_are_taken_out(tail, p, last, b);
        assert(s.subrange(1, s.len() as int) =~= tail + seq!['\u{1b}', '['] + p + seq![last] + b);
        assert(seq![a[0]] + (tail + without_escapes(b)) =~= a + without_escapes(b));
    }
}

proof fn lemma_sequence_of(p: Seq<char>, last: char, b: Seq<char>)
    requires
        forall|i: int| 0 <= i < p.len() ==> !('@' <= #[trigger] p[i] <= '~'),
        '@' <= last <= '~',
    ensures
        sequence_length(p + seq![last] + b) == p.len() + 1,
    decreases p.len(),
{
    let s = p + seq![last] + b;
    if p.len() > 0 {
        assert(s[0] == p[0]);
        let tail = p.subrange(1, p.len() as int);
        assert forall|i: int| 0 <= i < tail.len() implies !('@' <= #[trigger] tail[i] <= '~') by {
            assert(tail[i] == p[i + 1]);
        }
        lemma_sequence_of(tail, last, b);
        assert(s.subrange(1, s.len() as int) =~= tail + seq![last] + b);
    } else {
        assert(s[0] == last);
    }
}

/// Code is published as it is: the lines behind a fence, up to the next one and no more
/// than a block may have, are kept whatever they hold.
pub proof fn code_is_kept(lines: Seq<Seq<char>>, i: int, k: int, j: int)
    requires
        0 <= i < j < k <= lines.len(),
        is_fence(clean_line(lines[i])),
        forall|m: int| i < m < k ==> !is_fence(#[trigger] lines[m]),
        k - i <= MAX_FENCE_LINES + 1,
    ensures
        clean_lines(lines, i, 0)[j - i] == lines[j],
{
    lemma_code_is_kept(lines, i + 1, k, j, 1);
    assert(clean_lines(lines, i, 0)[j - i] == clean_lines(lines, i + 1, 1)[j - (i + 1)]);
}

proof fn lemma_code_is_kept(lines: Seq<Seq<char>>, i: int, k: int, j: int, open: nat)
    requires
        0 <= i <= j < k <= lines.len(),
        1 <= open,
        forall|m: int| i <= m < k ==> !is_fence(#[trigger] lines[m]),
        open + (k - i) <= MAX_FENCE_LINES + 1,
    ensures
        clean_lines(lines, i, open).len() == lines.len() - i,
        clean_lines(lines, i, open)[j - i] == lines[j],
    decreases j - i,
{
    lines_are_kept_or_cleaned(lines, i, open);
    if i < j {
        lemma_code_is_kept(lines, i + 1, k, j, open + 1);
        assert(clean_lines(lines, i, open)[j - i] == clean_lines(lines, i + 1, open + 1)[j - (i
            + 1)]);
    }
}

} // verus!
