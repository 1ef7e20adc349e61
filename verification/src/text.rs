//! Operations on text, stated over sequences of characters.
use vstd::prelude::*;

verus! {

/// `String::push` appends the character at the end.
pub assume_specification[ String::push ](s: &mut String, c: char)
    ensures
        final(s)@ == old(s)@.push(c),
;

/// `String::push_str` appends the other text at the end.
pub assume_specification[ String::push_str ](s: &mut String, t: &str)
    ensures
        final(s)@ == old(s)@ + t@,
;

/// The characters of a text.
pub fn chars_of(s: &str) -> (r: Vec<char>)
    ensures
        r@ == s@,
{
    let mut out: Vec<char> = Vec::new();
    for c in it: s.chars()
        invariant
            it.seq() == s@,
            out@ == s@.take(it.index()),
    {
        out.push(c);
    }
    out
}

/// The text made of the characters from `from` up to `to`.
pub fn text_between(v: &Vec<char>, from: usize, to: usize) -> (r: String)
    requires
        from <= to <= v@.len(),
    ensures
        r@ == v@.subrange(from as int, to as int),
{
    let mut out = String::new();
    let mut i: usize = from;
    while i < to
        invariant
            from <= i <= to <= v@.len(),
            out@ == v@.subrange(from as int, i as int),
        decreases to - i,
    {
        out.push(v[i]);
        i += 1;
    }
    out
}

/// All the characters as a text.
pub fn text_of(v: &Vec<char>) -> (r: String)
    ensures
        r@ == v@,
{
    let r = text_between(v, 0, v.len());
    assert(v@.subrange(0, v@.len() as int) =~= v@);
    r
}

/// Whether two texts hold the same characters.
pub fn same(a: &str, b: &str) -> (r: bool)
    ensures
        r == (a@ == b@),
{
    a.to_owned() == b.to_owned()
}

/// The view of an optional text.
pub open spec fn opt_view(o: Option<String>) -> Option<Seq<char>> {
    match o {
        Some(s) => Some(s@),
        None => None,
    }
}

/// The views of a list of texts.
pub open spec fn views(v: Seq<String>) -> Seq<Seq<char>> {
    v.map_values(|s: String| s@)
}

// ---------------------------------------------------------------------------
// Searching

/// `pat` stands in `s` at position `i`.
pub open spec fn occurs_at(s: Seq<char>, pat: Seq<char>, i: int) -> bool {
    0 <= i && i + pat.len() <= s.len() && s.subrange(i, i + pat.len()) == pat
}

/// The first position not before `from` at which `pat` stands in `s`.
pub open spec fn find_from(s: Seq<char>, pat: Seq<char>, from: int) -> Option<int>
    decreases s.len() + 1 - from,
{
    if from < 0 || from + pat.len() > s.len() {
        None
    } else if occurs_at(s, pat, from) {
        Some(from)
    } else {
        find_from(s, pat, from + 1)
    }
}

/// The first position at which `pat` stands in `s`.
pub open spec fn find(s: Seq<char>, pat: Seq<char>) -> Option<int> {
    find_from(s, pat, 0)
}

/// `pat` stands somewhere in `s`.
pub open spec fn contains(s: Seq<char>, pat: Seq<char>) -> bool {
    exists|i: int| occurs_at(s, pat, i)
}

pub open spec fn starts_with(s: Seq<char>, pat: Seq<char>) -> bool {
    occurs_at(s, pat, 0)
}

pub open spec fn ends_with(s: Seq<char>, pat: Seq<char>) -> bool {
    occurs_at(s, pat, s.len() - pat.len())
}

/// What `find_from` returns: the least position at which the pattern stands.
pub proof fn lemma_find_from(s: Seq<char>, pat: Seq<char>, from: int)
    requires
        0 <= from,
    ensures
        match find_from(s, pat, from) {
            Some(i) => from <= i && occurs_at(s, pat, i) && forall|j: int|
                from <= j < i ==> !occurs_at(s, pat, j),
            None => forall|j: int| from <= j ==> !occurs_at(s, pat, j),
        },
    decreases s.len() + 1 - from,
{
    if from + pat.len() <= s.len() && !occurs_at(s, pat, from) {
        lemma_find_from(s, pat, from + 1);
    }
}

/// Searching finds something exactly where the text contains the pattern.
pub proof fn lemma_find_contains(s: Seq<char>, pat: Seq<char>)
    ensures
        contains(s, pat) <==> find(s, pat) is Some,
{
    lemma_find_from(s, pat, 0);
}

/// Whether `pat` stands in `s` at `i`.
pub fn stands_at(s: &Vec<char>, pat: &Vec<char>, i: usize) -> (r: bool)
    ensures
        r == occurs_at(s@, pat@, i as int),
{
    if pat.len() > s.len() || i > s.len() - pat.len() {
        return false;
    }
    let n: usize = s.len();
    let mut k: usize = 0;
    while k < pat.len()
        invariant
            k <= pat@.len(),
            n == s@.len(),
            i + pat@.len() <= s@.len(),
            forall|j: int| 0 <= j < k ==> s@[i + j] == pat@[j],
        decreases pat@.len() - k,
    {
        if s[i + k] != pat[k] {
            assert(s@.subrange(i as int, i + pat@.len())[k as int] != pat@[k as int]);
            return false;
        }
        k += 1;
    }
    assert(s@.subrange(i as int, i + pat@.len()) =~= pat@);
    true
}

/// The first position of `pat` in `s` from `from` on.
pub fn position_from(s: &Vec<char>, pat: &Vec<char>, from: usize) -> (r: Option<usize>)
    ensures
        match r {
            Some(i) => find_from(s@, pat@, from as int) == Some(i as int) && from <= i && i
                + pat@.len() <= s@.len() <= usize::MAX && occurs_at(s@, pat@, i as int),
            None => find_from(s@, pat@, from as int) is None,
        },
{
    if pat.len() > s.len() || from > s.len() - pat.len() {
        return None;
    }
    let mut i: usize = from;
    let n: usize = s.len();
    let last: usize = n - pat.len();
    while i <= last
        invariant
            from <= i <= last + 1,
            n == s@.len(),
            last == n - pat@.len(),
            find_from(s@, pat@, from as int) == find_from(s@, pat@, i as int),
        decreases last + 1 - i,
    {
        if stands_at(s, pat, i) {
            return Some(i);
        }
        if i == last {
            assert(find_from(s@, pat@, i + 1) is None);
            return None;
        }
        i += 1;
    }
    None
}

/// The first position of `pat` in `s`.
pub fn position(s: &Vec<char>, pat: &Vec<char>) -> (r: Option<usize>)
    ensures
        match r {
            Some(i) => find(s@, pat@) == Some(i as int) && i + pat@.len() <= s@.len() <= usize::MAX
                && occurs_at(s@, pat@, i as int),
            None => find(s@, pat@) is None,
        },
{
    position_from(s, pat, 0)
}

/// Whether `pat` stands somewhere in `s`.
pub fn text_contains(s: &str, pat: &str) -> (r: bool)
    ensures
        r == contains(s@, pat@),
{
    proof {
        lemma_find_contains(s@, pat@);
    }
    position(&chars_of(s), &chars_of(pat)).is_some()
}

/// Whether `s` begins with `pat`.
pub fn text_starts_with(s: &str, pat: &str) -> (r: bool)
    ensures
        r == starts_with(s@, pat@),
{
    stands_at(&chars_of(s), &chars_of(pat), 0)
}

/// Whether `s` ends with `pat`.
pub fn text_ends_with(s: &str, pat: &str) -> (r: bool)
    ensures
        r == ends_with(s@, pat@),
{
    let sv = chars_of(s);
    let pv = chars_of(pat);
    if pv.len() > sv.len() {
        return false;
    }
    stands_at(&sv, &pv, sv.len() - pv.len())
}

// ---------------------------------------------------------------------------
// White space

/// The characters with the Unicode property White_Space.
pub open spec fn is_white(c: char) -> bool {
    let n = c as u32;
    ||| 0x9 <= n <= 0xd
    ||| n == 0x20
    ||| n == 0x85
    ||| n == 0xa0
    ||| n == 0x1680
    ||| 0x2000 <= n <= 0x200a
    ||| n == 0x2028
    ||| n == 0x2029
    ||| n == 0x202f
    ||| n == 0x205f
    ||| n == 0x3000
}

/// Whether the character is white space.
pub fn white(c: char) -> (r: bool)
    ensures
        r == is_white(c),
{
    let n: u32 = c as u32;
    (0x9 <= n && n <= 0xd) || n == 0x20 || n == 0x85 || n == 0xa0 || n == 0x1680 || (0x2000 <= n && n
        <= 0x200a) || n == 0x2028 || n == 0x2029 || n == 0x202f || n == 0x205f || n == 0x3000
}

/// `s` without the white space in front.
pub open spec fn trim_start(s: Seq<char>) -> Seq<char>
    decreases s.len(),
{
    if s.len() > 0 && is_white(s[0]) {
        trim_start(s.subrange(1, s.len() as int))
    } else {
        s
    }
}

/// `s` without the white space at its end.
pub open spec fn trim_end(s: Seq<char>) -> Seq<char>
    decreases s.len(),
{
    if s.len() > 0 && is_white(s.last()) {
        trim_end(s.drop_last())
    } else {
        s
    }
}

/// `s` without the white space on either side.
pub open spec fn trim(s: Seq<char>) -> Seq<char> {
    trim_end(trim_start(s))
}

/// `s` without the white space in front.
pub fn text_trim_start(s: &str) -> (r: String)
    ensures
        r@ == trim_start(s@),
{
    let v = chars_of(s);
    let mut i: usize = 0;
    assert(v@.subrange(0, v@.len() as int) =~= v@);
    while i < v.len() && white(v[i])
        invariant
            i <= v@.len(),
            trim_start(v@) == trim_start(v@.subrange(i as int, v@.len() as int)),
        decreases v@.len() - i,
    {
        assert(v@.subrange(i as int, v@.len() as int).subrange(1, v@.len() - i)
            =~= v@.subrange(i + 1, v@.len() as int));
        i += 1;
    }
    text_between(&v, i, v.len())
}

/// `s` without the white space at its end.
pub fn text_trim_end(s: &str) -> (r: String)
    ensures
        r@ == trim_end(s@),
{
    let v = chars_of(s);
    let mut i: usize = v.len();
    assert(v@.subrange(0, v@.len() as int) =~= v@);
    while i > 0 && white(v[i - 1])
        invariant
            i <= v@.len(),
            trim_end(v@) == trim_end(v@.subrange(0, i as int)),
        decreases i,
    {
        assert(v@.subrange(0, i as int).drop_last() =~= v@.subrange(0, i - 1));
        i -= 1;
    }
    text_between(&v, 0, i)
}

/// `s` without the white space on either side.
pub fn text_trim(s: &str) -> (r: String)
    ensures
        r@ == trim(s@),
{
    text_trim_end(text_trim_start(s).as_str())
}

// ---------------------------------------------------------------------------
// Cutting and joining

/// The pieces of `s` between the separators; one more than there are separators.
pub open spec fn split(s: Seq<char>, sep: char) -> Seq<Seq<char>>
    decreases s.len(),
{
    match find(s, seq![sep]) {
        Some(i) => if 0 <= i < s.len() {
            seq![s.subrange(0, i)] + split(s.subrange(i + 1, s.len() as int), sep)
        } else {
            seq![s]
        },
        None => seq![s],
    }
}

/// The lines of `s`: each ends at a line feed, which is not part of it, nor is
/// a carriage return right before that line feed. The last line feed is optional.
pub open spec fn lines(s: Seq<char>) -> Seq<Seq<char>>
    decreases s.len(),
{
    if s.len() == 0 {
        Seq::empty()
    } else {
        match find(s, seq!['\n']) {
            Some(i) => if 0 <= i < s.len() {
                seq![without_cr(s.subrange(0, i))] + lines(s.subrange(i + 1, s.len() as int))
            } else {
                seq![s]
            },
            None => seq![s],
        }
    }
}

/// `s` without one carriage return at its end.
pub open spec fn without_cr(s: Seq<char>) -> Seq<char> {
    if s.len() > 0 && s.last() == '\r' {
        s.drop_last()
    } else {
        s
    }
}

/// The texts one after the other with `sep` between them.
pub open spec fn join(parts: Seq<Seq<char>>, sep: Seq<char>) -> Seq<char>
    decreases parts.len(),
{
    if parts.len() == 0 {
        Seq::empty()
    } else if parts.len() == 1 {
        parts[0]
    } else {
        join(parts.drop_last(), sep) + sep + parts.last()
    }
}

/// `s` with every `pat`, taken from the left and without overlaps, replaced by `to`.
pub open spec fn replace(s: Seq<char>, pat: Seq<char>, to: Seq<char>) -> Seq<char>
    decreases s.len(),
{
    match find(s, pat) {
        Some(i) => if pat.len() > 0 && 0 <= i && i + pat.len() <= s.len() {
            s.subrange(0, i) + to + replace(s.subrange(i + pat.len(), s.len() as int), pat, to)
        } else {
            s
        },
        None => s,
    }
}

/// Searching a tail is searching the whole from where the tail begins.
pub proof fn lemma_find_tail(s: Seq<char>, pat: Seq<char>, start: int, from: int)
    requires
        0 <= start <= from,
        start <= s.len(),
    ensures
        find_from(s.subrange(start, s.len() as int), pat, from - start) == match find_from(
            s,
            pat,
            from,
        ) {
            Some(i) => Some(i - start),
            None => None,
        },
    decreases s.len() + 1 - from,
{
    let t = s.subrange(start, s.len() as int);
    if from + pat.len() <= s.len() {
        assert(t.subrange(from - start, from - start + pat.len()) =~= s.subrange(
            from,
            from + pat.len(),
        ));
        if !occurs_at(s, pat, from) {
            lemma_find_tail(s, pat, start, from + 1);
        }
    }
}

/// How many line feeds a text holds.
spec fn line_feeds(s: Seq<char>) -> nat
    decreases s.len(),
{
    if s.len() == 0 {
        0
    } else {
        line_feeds(s.drop_last()) + if s.last() == '\n' {
            1nat
        } else {
            0
        }
    }
}

proof fn lemma_line_feeds_add(a: Seq<char>, b: Seq<char>)
    ensures
        line_feeds(a + b) == line_feeds(a) + line_feeds(b),
    decreases b.len(),
{
    if b.len() == 0 {
        assert(a + b =~= a);
    } else {
        lemma_line_feeds_add(a, b.drop_last());
        assert((a + b).drop_last() =~= a + b.drop_last());
    }
}

proof fn lemma_no_line_feeds(s: Seq<char>)
    requires
        !s.contains('\n'),
    ensures
        line_feeds(s) == 0,
    decreases s.len(),
{
    if s.len() > 0 {
        assert(s[s.len() - 1] != '\n');
        assert forall|i: int| 0 <= i < s.drop_last().len() implies s.drop_last()[i] != '\n' by {
            assert(s[i] != '\n');
        }
        lemma_no_line_feeds(s.drop_last());
    }
}

/// What stands before the first separator holds none, and where none is found
/// there is none.
pub proof fn lemma_first_separator(s: Seq<char>, sep: char)
    ensures
        match find(s, seq![sep]) {
            Some(i) => 0 <= i < s.len() && s[i] == sep && !s.subrange(0, i).contains(sep),
            None => !s.contains(sep),
        },
{
    lemma_find_from(s, seq![sep], 0);
    assert forall|j: int| 0 <= j < s.len() implies (s[j] == sep) == occurs_at(s, seq![sep], j) by {
        assert(s.subrange(j, j + 1)[0] == s[j]);
        if s[j] == sep {
            assert(s.subrange(j, j + 1) =~= seq![sep]);
        } else {
            assert(seq![sep][0] == sep);
        }
    }
    match find(s, seq![sep]) {
        Some(i) => {
            assert forall|j: int| 0 <= j < i implies s.subrange(0, i)[j] != sep by {
                assert(!occurs_at(s, seq![sep], j));
            }
        },
        None => {},
    }
}

/// A text has at most one line more than line feeds, and no line holds one.
proof fn lemma_lines(s: Seq<char>)
    ensures
        lines(s).len() <= line_feeds(s) + 1,
        forall|k: int| 0 <= k < lines(s).len() ==> !(#[trigger] lines(s)[k]).contains('\n'),
    decreases s.len(),
{
    lemma_first_separator(s, '\n');
    if s.len() > 0 {
        match find(s, seq!['\n']) {
            Some(i) => {
                let front = s.subrange(0, i);
                let rest = s.subrange(i + 1, s.len() as int);
                lemma_lines(rest);
                assert(s =~= front + seq!['\n'] + rest);
                lemma_line_feeds_add(front, seq!['\n']);
                lemma_line_feeds_add(front + seq!['\n'], rest);
                assert(seq!['\n'].last() == '\n');
                let line = without_cr(front);
                assert forall|j: int| 0 <= j < line.len() implies line[j] != '\n' by {
                    assert(line[j] == front[j]);
                }
                assert forall|k: int| 0 <= k < lines(s).len() implies !(
                #[trigger] lines(s)[k]).contains('\n') by {
                    if k > 0 {
                        assert(lines(s)[k] == lines(rest)[k - 1]);
                    }
                }
            },
            None => {},
        }
    }
}

proof fn lemma_joined_line_feeds(parts: Seq<Seq<char>>)
    requires
        parts.len() > 0,
        forall|k: int| 0 <= k < parts.len() ==> !(#[trigger] parts[k]).contains('\n'),
    ensures
        line_feeds(join(parts, "\n"@)) + 1 == parts.len(),
    decreases parts.len(),
{
    reveal_strlit("\n");
    if parts.len() == 1 {
        lemma_no_line_feeds(parts[0]);
    } else {
        let front = parts.drop_last();
        lemma_joined_line_feeds(front);
        lemma_no_line_feeds(parts.last());
        lemma_line_feeds_add(join(front, "\n"@), "\n"@);
        lemma_line_feeds_add(join(front, "\n"@) + "\n"@, parts.last());
        assert("\n"@.drop_last() =~= Seq::<char>::empty());
        assert(line_feeds("\n"@.drop_last()) == 0);
        assert("\n"@.last() == '\n');
        assert(line_feeds("\n"@) == 1);
    }
}

/// The first lines of a text, put together, are no more lines than were taken.
pub proof fn taken_lines_are_no_more(s: Seq<char>, n: int)
    requires
        0 <= n <= lines(s).len(),
    ensures
        lines(join(lines(s).take(n), "\n"@)).len() <= n,
{
    let parts = lines(s).take(n);
    lemma_lines(s);
    if n > 0 {
        assert forall|k: int| 0 <= k < parts.len() implies !(#[trigger] parts[k]).contains(
            '\n',
        ) by {
            assert(parts[k] == lines(s)[k]);
        }
        lemma_joined_line_feeds(parts);
        lemma_lines(join(parts, "\n"@));
    }
}

/// A text without a line feed is at most one line.
pub proof fn lemma_one_line(s: Seq<char>)
    requires
        !s.contains('\n'),
    ensures
        lines(s).len() <= 1,
{
    lemma_no_line_feeds(s);
    lemma_lines(s);
}

/// No piece between separators holds one, and there is at least one piece.
pub proof fn lemma_split_holds_no_separator(s: Seq<char>, sep: char)
    ensures
        split(s, sep).len() > 0,
        forall|k: int| 0 <= k < split(s, sep).len() ==> !(#[trigger] split(s, sep)[k]).contains(sep),
    decreases s.len(),
{
    lemma_first_separator(s, sep);
    match find(s, seq![sep]) {
        Some(i) => {
            let rest = s.subrange(i + 1, s.len() as int);
            lemma_split_holds_no_separator(rest, sep);
            assert forall|k: int| 0 <= k < split(s, sep).len() implies !(
            #[trigger] split(s, sep)[k]).contains(sep) by {
                if k > 0 {
                    assert(split(s, sep)[k] == split(rest, sep)[k - 1]);
                }
            }
        },
        None => {},
    }
}

/// A text without a separator is its only piece.
pub proof fn lemma_split_one(s: Seq<char>, sep: char)
    requires
        !s.contains(sep),
    ensures
        split(s, sep) == seq![s],
{
    lemma_first_separator(s, sep);
}

/// The piece in front of the first separator is the first, and the others are those of
/// what stands behind it.
pub proof fn lemma_split_front(front: Seq<char>, sep: char, rest: Seq<char>)
    requires
        !front.contains(sep),
    ensures
        split(front + seq![sep] + rest, sep) == seq![front] + split(rest, sep),
{
    let s = front + seq![sep] + rest;
    lemma_first_separator(s, sep);
    match find(s, seq![sep]) {
        Some(i) => {
            if i < front.len() {
                assert(s[i] == front[i]);
            } else if i > front.len() {
                assert(s.subrange(0, i)[front.len() as int] == sep);
            }
            assert(s.subrange(0, i) =~= front);
            assert(s.subrange(i + 1, s.len() as int) =~= rest);
        },
        None => {
            assert(s[front.len() as int] == sep);
        },
    }
}

proof fn lemma_join_front(parts: Seq<Seq<char>>, sep: Seq<char>)
    requires
        parts.len() > 1,
    ensures
        join(parts, sep) == parts[0] + sep + join(parts.subrange(1, parts.len() as int), sep),
    decreases parts.len(),
{
    let tail = parts.subrange(1, parts.len() as int);
    if parts.len() == 2 {
        reveal_with_fuel(join, 3);
        assert(parts.drop_last() =~= seq![parts[0]]);
        assert(join(parts, sep) =~= parts[0] + sep + parts[1]);
    } else {
        lemma_join_front(parts.drop_last(), sep);
        assert(parts.drop_last().subrange(1, parts.len() - 1) =~= tail.drop_last());
        assert(join(parts, sep) =~= parts[0] + sep + join(tail, sep));
    }
}

/// Lines that are put together are found again as they were.
pub proof fn lemma_split_join(parts: Seq<Seq<char>>)
    requires
        parts.len() > 0,
        forall|k: int| 0 <= k < parts.len() ==> !(#[trigger] parts[k]).contains('\n'),
    ensures
        split(join(parts, "\n"@), '\n') == parts,
    decreases parts.len(),
{
    reveal_strlit("\n");
    let s = join(parts, "\n"@);
    lemma_first_separator(s, '\n');
    if parts.len() == 1 {
        assert(!parts[0].contains('\n'));
        match find(s, seq!['\n']) {
            Some(i) => {
                assert(s.contains(s[i]));
            },
            None => {},
        }
        assert(split(s, '\n') =~= parts);
    } else {
        let tail = parts.subrange(1, parts.len() as int);
        lemma_join_front(parts, "\n"@);
        assert forall|k: int| 0 <= k < tail.len() implies !(#[trigger] tail[k]).contains('\n') by {
            assert(tail[k] == parts[k + 1]);
        }
        lemma_split_join(tail);
        let n = parts[0].len() as int;
        assert(s[n] == '\n');
        assert(s.contains(s[n]));
        let i = find(s, seq!['\n']).unwrap();
        if i < n {
            assert(s[i] == parts[0][i]);
            assert(parts[0].contains('\n'));
        }
        if i > n {
            assert(s.subrange(0, i)[n] == '\n');
        }
        assert(s.subrange(0, n) =~= parts[0]);
        assert(s.subrange(n + 1, s.len() as int) =~= join(tail, "\n"@));
        assert(split(s, '\n') =~= parts);
    }
}

/// Pushing a text pushes its view.
pub proof fn lemma_views_push(v: Seq<String>, s: String)
    ensures
        views(v.push(s)) == views(v).push(s@),
{
    assert(views(v.push(s)) =~= views(v).push(s@));
}

/// The pieces of `s` between the separators.
pub fn text_split(s: &str, sep: char) -> (r: Vec<String>)
    ensures
        views(r@) == split(s@, sep),
{
    let v = chars_of(s);
    let mut pat: Vec<char> = Vec::new();
    pat.push(sep);
    assert(pat@ =~= seq![sep]);
    let mut out: Vec<String> = Vec::new();
    let n: usize = v.len();
    let mut start: usize = 0;
    assert(v@.subrange(0, v@.len() as int) =~= v@);
    assert(views(out@) =~= Seq::<Seq<char>>::empty());
    assert(views(out@) + split(v@, sep) =~= split(v@, sep));
    loop
        invariant
            v@ == s@,
            n == v@.len(),
            pat@ == seq![sep],
            start <= v@.len(),
            split(v@, sep) == views(out@) + split(v@.subrange(start as int, v@.len() as int), sep),
        decreases v@.len() - start,
    {
        let ghost tail = v@.subrange(start as int, v@.len() as int);
        proof {
            lemma_find_tail(v@, pat@, start as int, start as int);
        }
        match position_from(&v, &pat, start) {
            Some(i) => {
                let piece = text_between(&v, start, i);
                proof {
                    lemma_views_push(out@, piece);
                    assert(tail.subrange(0, i - start) =~= piece@);
                    assert(tail.subrange(i - start + 1, tail.len() as int) =~= v@.subrange(
                        i + 1,
                        v@.len() as int,
                    ));
                    assert(views(out@) + (seq![piece@] + split(
                        v@.subrange(i + 1, v@.len() as int),
                        sep,
                    )) =~= views(out@).push(piece@) + split(
                        v@.subrange(i + 1, v@.len() as int),
                        sep,
                    ));
                }
                out.push(piece);
                start = i + 1;
            },
            None => {
                let piece = text_between(&v, start, v.len());
                proof {
                    lemma_views_push(out@, piece);
                    assert(views(out@) + seq![piece@] =~= views(out@).push(piece@));
                }
                out.push(piece);
                return out;
            },
        }
    }
}

/// The lines of `s`.
pub fn text_lines(s: &str) -> (r: Vec<String>)
    ensures
        views(r@) == lines(s@),
{
    let v = chars_of(s);
    let mut pat: Vec<char> = Vec::new();
    pat.push('\n');
    assert(pat@ =~= seq!['\n']);
    let mut out: Vec<String> = Vec::new();
    let n: usize = v.len();
    let mut start: usize = 0;
    assert(v@.subrange(0, v@.len() as int) =~= v@);
    assert(views(out@) =~= Seq::<Seq<char>>::empty());
    assert(views(out@) + lines(v@) =~= lines(v@));
    while start < v.len()
        invariant
            v@ == s@,
            n == v@.len(),
            pat@ == seq!['\n'],
            start <= v@.len(),
            lines(v@) == views(out@) + lines(v@.subrange(start as int, v@.len() as int)),
        decreases v@.len() - start,
    {
        let ghost tail = v@.subrange(start as int, v@.len() as int);
        proof {
            lemma_find_tail(v@, pat@, start as int, start as int);
        }
        match position_from(&v, &pat, start) {
            Some(i) => {
                let end: usize = if i > start && v[i - 1] == '\r' {
                    i - 1
                } else {
                    i
                };
                let piece = text_between(&v, start, end);
                proof {
                    lemma_views_push(out@, piece);
                    assert(without_cr(tail.subrange(0, i - start)) =~= piece@);
                    assert(tail.subrange(i - start + 1, tail.len() as int) =~= v@.subrange(
                        i + 1,
                        v@.len() as int,
                    ));
                    assert(views(out@) + (seq![piece@] + lines(
                        v@.subrange(i + 1, v@.len() as int),
                    )) =~= views(out@).push(piece@) + lines(
                        v@.subrange(i + 1, v@.len() as int),
                    ));
                }
                out.push(piece);
                start = i + 1;
            },
            None => {
                let piece = text_between(&v, start, v.len());
                proof {
                    lemma_views_push(out@, piece);
                    assert(views(out@) + seq![piece@] =~= views(out@).push(piece@));
                }
                out.push(piece);
                return out;
            },
        }
    }
    proof {
        let tail = v@.subrange(start as int, v@.len() as int);
        assert(tail.len() == 0);
        assert(views(out@) + lines(tail) =~= views(out@));
    }
    out
}

/// The texts one after the other with `sep` between them.
pub fn text_join(parts: &Vec<String>, sep: &str) -> (r: String)
    ensures
        r@ == join(views(parts@), sep@),
{
    let mut out = String::new();
    let mut i: usize = 0;
    let ghost all = views(parts@);
    while i < parts.len()
        invariant
            i <= parts@.len(),
            all == views(parts@),
            out@ == join(all.take(i as int), sep@),
        decreases parts@.len() - i,
    {
        assert(all.take(i + 1).drop_last() =~= all.take(i as int));
        if i > 0 {
            out.push_str(sep);
        }
        out.push_str(parts[i].as_str());
        proof {
            if i == 0 {
                assert(out@ =~= parts@[0]@);
            }
        }
        i += 1;
    }
    assert(all.take(i as int) =~= all);
    out
}

/// `s` with every `pat` replaced by `to`.
pub fn text_replace(s: &str, pat: &str, to: &str) -> (r: String)
    requires
        pat@.len() > 0,
    ensures
        r@ == replace(s@, pat@, to@),
{
    let v = chars_of(s);
    let p = chars_of(pat);
    let mut out = String::new();
    let n: usize = v.len();
    let mut start: usize = 0;
    assert(v@.subrange(0, v@.len() as int) =~= v@);
    assert(out@ + replace(v@, p@, to@) =~= replace(v@, p@, to@));
    loop
        invariant
            v@ == s@,
            n == v@.len(),
            p@ == pat@,
            p@.len() > 0,
            start <= v@.len(),
            replace(v@, p@, to@) == out@ + replace(
                v@.subrange(start as int, v@.len() as int),
                p@,
                to@,
            ),
        decreases v@.len() - start,
    {
        let ghost tail = v@.subrange(start as int, v@.len() as int);
        let ghost before = out@;
        proof {
            lemma_find_tail(v@, p@, start as int, start as int);
        }
        match position_from(&v, &p, start) {
            Some(i) => {
                out.push_str(text_between(&v, start, i).as_str());
                out.push_str(to);
                proof {
                    assert(tail.subrange(0, i - start) =~= v@.subrange(start as int, i as int));
                    assert(tail.subrange(i - start + p@.len(), tail.len() as int) =~= v@.subrange(
                        i + p@.len(),
                        v@.len() as int,
                    ));
                    let rest = replace(v@.subrange(i + p@.len(), v@.len() as int), p@, to@);
                    assert(before + (v@.subrange(start as int, i as int) + to@ + rest) =~= out@
                        + rest);
                }
                start = i + p.len();
            },
            None => {
                out.push_str(text_between(&v, start, v.len()).as_str());
                return out;
            },
        }
    }
}

// ---------------------------------------------------------------------------
// What holds of texts

/// What stands between two texts is contained in the whole.
pub proof fn parts_are_contained(a: Seq<char>, x: Seq<char>, b: Seq<char>)
    ensures
        contains(a + x + b, x),
{
    let s = a + x + b;
    let i = a.len() as int;
    assert(s.subrange(i, i + x.len()) =~= x);
    assert(occurs_at(s, x, i));
}

/// What a part contains, the whole contains.
pub proof fn contained_parts_are_contained(a: Seq<char>, x: Seq<char>, b: Seq<char>, y: Seq<char>)
    requires
        contains(x, y),
    ensures
        contains(a + x + b, y),
{
    let i = choose|i: int| occurs_at(x, y, i);
    let s = a + x + b;
    let k = a.len() + i;
    assert(s.subrange(k, k + y.len()) =~= x.subrange(i, i + y.len()));
    assert(occurs_at(s, y, k));
}

/// Whatever contains a text is that text with something before and behind it.
pub proof fn lemma_contained_splits(s: Seq<char>, x: Seq<char>) -> (r: (Seq<char>, Seq<char>))
    requires
        contains(s, x),
    ensures
        s == r.0 + x + r.1,
{
    let i = choose|i: int| occurs_at(s, x, i);
    let r = (s.subrange(0, i), s.subrange(i + x.len(), s.len() as int));
    assert(s =~= r.0 + x + r.1);
    r
}

/// A text that contains another, of which a third is part, contains that too.
pub proof fn contains_is_transitive(s: Seq<char>, x: Seq<char>, y: Seq<char>)
    requires
        contains(s, x),
        contains(x, y),
    ensures
        contains(s, y),
{
    let r = lemma_contained_splits(s, x);
    contained_parts_are_contained(r.0, x, r.1, y);
}

/// Where the pattern does not stand at the front, the first character stays.
pub proof fn lemma_replace_skips(s: Seq<char>, pat: Seq<char>, to: Seq<char>)
    requires
        s.len() > 0,
        pat.len() > 0,
        !starts_with(s, pat),
    ensures
        replace(s, pat, to) == seq![s[0]] + replace(s.subrange(1, s.len() as int), pat, to),
{
    let tail = s.subrange(1, s.len() as int);
    lemma_find_tail(s, pat, 1, 1);
    assert(find(s, pat) == find_from(s, pat, 1)) by {
        if pat.len() <= s.len() {
        } else {
            assert(find_from(s, pat, 1) is None);
        }
    }
    lemma_find_from(s, pat, 1);
    match find_from(s, pat, 1) {
        Some(i) => {
            assert(s.subrange(0, i) =~= seq![s[0]] + tail.subrange(0, i - 1));
            assert(tail.subrange(i - 1 + pat.len(), tail.len() as int) =~= s.subrange(
                i + pat.len(),
                s.len() as int,
            ));
            assert(replace(s, pat, to) =~= seq![s[0]] + replace(tail, pat, to));
        },
        None => {
            assert(s =~= seq![s[0]] + tail);
        },
    }
}

/// Where the pattern stands at the front, it is replaced there.
pub proof fn lemma_replace_hits(rest: Seq<char>, pat: Seq<char>, to: Seq<char>)
    requires
        pat.len() > 0,
    ensures
        replace(pat + rest, pat, to) == to + replace(rest, pat, to),
{
    let s = pat + rest;
    assert(s.subrange(0, pat.len() as int) =~= pat);
    assert(find(s, pat) == Some(0int));
    assert(s.subrange(pat.len() as int, s.len() as int) =~= rest);
    assert(replace(s, pat, to) =~= to + replace(rest, pat, to));
}

/// What is put in place of a pattern is there, wherever the pattern was.
pub proof fn replaced_text_is_there(s: Seq<char>, pat: Seq<char>, to: Seq<char>)
    requires
        pat.len() > 0,
        contains(s, pat),
    ensures
        contains(replace(s, pat, to), to),
    decreases s.len(),
{
    if starts_with(s, pat) {
        let rest = s.subrange(pat.len() as int, s.len() as int);
        assert(s =~= pat + rest);
        lemma_replace_hits(rest, pat, to);
        parts_are_contained(Seq::empty(), to, replace(rest, pat, to));
        assert(Seq::<char>::empty() + to + replace(rest, pat, to) =~= to + replace(rest, pat, to));
    } else {
        let i = choose|i: int| occurs_at(s, pat, i);
        let tail = s.subrange(1, s.len() as int);
        assert(i > 0);
        assert(tail.subrange(i - 1, i - 1 + pat.len()) =~= s.subrange(i, i + pat.len()));
        assert(occurs_at(tail, pat, i - 1));
        replaced_text_is_there(tail, pat, to);
        lemma_replace_skips(s, pat, to);
        let rest = replace(tail, pat, to);
        contained_parts_are_contained(seq![s[0]], rest, Seq::empty(), to);
        assert(seq![s[0]] + rest + Seq::<char>::empty() =~= seq![s[0]] + rest);
    }
}

/// A text that holds no such pattern stays as it is.
pub proof fn other_text_is_not_replaced(s: Seq<char>, pat: Seq<char>, to: Seq<char>)
    requires
        !contains(s, pat),
    ensures
        replace(s, pat, to) == s,
{
    lemma_find_contains(s, pat);
}

/// A name in braces.
pub open spec fn is_slot(p: Seq<char>) -> bool {
    &&& p.len() >= 2
    &&& p[0] == '{'
    &&& p[p.len() - 1] == '}'
    &&& forall|i: int| 0 < i < p.len() - 1 ==> #[trigger] p[i] != '{' && p[i] != '}'
}

/// Of two names in braces one only begins with the other where they are the same.
proof fn lemma_slot_prefix(m: Seq<char>, s: Seq<char>, p: Seq<char>)
    requires
        is_slot(m),
        is_slot(p),
    ensures
        starts_with(m + s, p) <==> m == p,
{
    let all = m + s;
    if starts_with(all, p) {
        let front = all.subrange(0, p.len() as int);
        if p.len() < m.len() {
            assert(front[p.len() - 1] == m[p.len() - 1]);
        } else if p.len() > m.len() {
            assert(front[m.len() - 1] == m[m.len() - 1]);
            assert(p[m.len() - 1] == '}');
        } else {
            assert(front =~= m);
        }
    }
    if m == p {
        assert(all.subrange(0, p.len() as int) =~= p);
    }
}

/// Text without an opening brace is kept as it is.
pub proof fn lemma_replace_plain(l: Seq<char>, s: Seq<char>, p: Seq<char>, x: Seq<char>)
    requires
        is_slot(p),
        !l.contains('{'),
    ensures
        replace(l + s, p, x) == l + replace(s, p, x),
    decreases l.len(),
{
    if l.len() == 0 {
        assert(l + s =~= s);
        assert(l + replace(s, p, x) =~= replace(s, p, x));
    } else {
        let tail = l.subrange(1, l.len() as int);
        let all = l + s;
        assert(l[0] != '{') by {
            assert(l.contains(l[0]));
        }
        assert(!tail.contains('{')) by {
            if tail.contains('{') {
                let k = choose|k: int| 0 <= k < tail.len() && tail[k] == '{';
                assert(l[k + 1] == '{');
            }
        }
        if starts_with(all, p) {
            assert(all.subrange(0, p.len() as int)[0] == all[0]);
        }
        lemma_replace_skips(all, p, x);
        assert(all.subrange(1, all.len() as int) =~= tail + s);
        lemma_replace_plain(tail, s, p, x);
        assert(seq![all[0]] + (tail + replace(s, p, x)) =~= l + replace(s, p, x));
    }
}

/// A name in braces is replaced as a whole or kept as a whole, whatever stands behind
/// it.
pub proof fn lemma_replace_slot(m: Seq<char>, s: Seq<char>, p: Seq<char>, x: Seq<char>)
    requires
        is_slot(m),
        is_slot(p),
    ensures
        m == p ==> replace(m + s, p, x) == x + replace(s, p, x),
        m != p ==> replace(m + s, p, x) == m + replace(s, p, x),
{
    lemma_slot_prefix(m, s, p);
    if m == p {
        lemma_replace_hits(s, p, x);
    } else {
        let all = m + s;
        let tail = m.subrange(1, m.len() as int);
        lemma_replace_skips(all, p, x);
        assert(all.subrange(1, all.len() as int) =~= tail + s);
        assert(!tail.contains('{')) by {
            if tail.contains('{') {
                let k = choose|k: int| 0 <= k < tail.len() && tail[k] == '{';
                assert(m[k + 1] == '{');
            }
        }
        lemma_replace_plain(tail, s, p, x);
        assert(seq![all[0]] + (tail + replace(s, p, x)) =~= m + replace(s, p, x));
    }
}

/// To replace one name in braces leaves every other one where it is.
pub proof fn other_slots_are_kept(a: Seq<char>, m: Seq<char>, b: Seq<char>, p: Seq<char>, x: Seq<char>)
    requires
        is_slot(m),
        is_slot(p),
        m != p,
    ensures
        replace(a + m + b, p, x) == replace(a, p, x) + m + replace(b, p, x),
    decreases a.len(),
{
    let all = a + m + b;
    if a.len() == 0 {
        assert(all =~= m + b);
        lemma_replace_slot(m, b, p, x);
        assert(find_from(a, p, 0) is None);
        assert(replace(a, p, x) =~= a);
        assert(replace(a, p, x) + m + replace(b, p, x) =~= m + replace(b, p, x));
    } else if starts_with(all, p) {
        let n = p.len() as int;
        let front = all.subrange(0, n);
        if n > a.len() {
            assert(front[a.len() as int] == m[0]);
            assert(p[a.len() as int] == '{');
        }
        let rest = a.subrange(n, a.len() as int);
        assert(a =~= p + rest) by {
            assert(front =~= a.subrange(0, n));
        }
        assert(all =~= p + (rest + m + b));
        lemma_replace_hits(rest + m + b, p, x);
        lemma_replace_hits(rest, p, x);
        other_slots_are_kept(rest, m, b, p, x);
        assert(x + (replace(rest, p, x) + m + replace(b, p, x)) =~= x + replace(rest, p, x) + m
            + replace(b, p, x));
    } else {
        let tail = a.subrange(1, a.len() as int);
        if starts_with(a, p) {
            assert(all.subrange(0, p.len() as int) =~= a.subrange(0, p.len() as int));
        }
        lemma_replace_skips(all, p, x);
        lemma_replace_skips(a, p, x);
        assert(all.subrange(1, all.len() as int) =~= tail + m + b);
        other_slots_are_kept(tail, m, b, p, x);
        assert(seq![a[0]] + (replace(tail, p, x) + m + replace(b, p, x)) =~= seq![a[0]] + replace(
            tail,
            p,
            x,
        ) + m + replace(b, p, x));
    }
}

/// What stands between white space on either side is what is left of a text, and it
/// neither begins nor ends with white space.
pub proof fn trimmed_text_is_what_stands_between(s: Seq<char>)
    ensures
        exists|i: int, j: int|
            {
                &&& 0 <= i <= j <= s.len()
                &&& trim(s) == #[trigger] s.subrange(i, j)
                &&& forall|k: int| 0 <= k < i ==> is_white(#[trigger] s[k])
                &&& forall|k: int| j <= k < s.len() ==> is_white(#[trigger] s[k])
            },
        trim(s).len() > 0 ==> !is_white(trim(s)[0]) && !is_white(trim(s).last()),
{
    let i = lemma_trim_start(s);
    let t = trim_start(s);
    let j = lemma_trim_end(t);
    assert(trim(s) =~= s.subrange(i, i + j));
    assert forall|k: int| i + j <= k < s.len() implies is_white(#[trigger] s[k]) by {
        assert(t[k - i] == s[k]);
    }
    if trim(s).len() > 0 {
        assert(trim(s)[0] == t[0]);
    }
}

proof fn lemma_trim_start(s: Seq<char>) -> (i: int)
    ensures
        0 <= i <= s.len(),
        trim_start(s) == s.subrange(i, s.len() as int),
        forall|k: int| 0 <= k < i ==> is_white(#[trigger] s[k]),
        trim_start(s).len() > 0 ==> !is_white(trim_start(s)[0]),
    decreases s.len(),
{
    if s.len() > 0 && is_white(s[0]) {
        let tail = s.subrange(1, s.len() as int);
        let i = lemma_trim_start(tail);
        assert(tail.subrange(i, tail.len() as int) =~= s.subrange(i + 1, s.len() as int));
        assert forall|k: int| 0 <= k < i + 1 implies is_white(#[trigger] s[k]) by {
            if k > 0 {
                assert(tail[k - 1] == s[k]);
            }
        }
        i + 1
    } else {
        assert(s.subrange(0, s.len() as int) =~= s);
        0
    }
}

proof fn lemma_trim_end(s: Seq<char>) -> (j: int)
    ensures
        0 <= j <= s.len(),
        trim_end(s) == s.subrange(0, j),
        forall|k: int| j <= k < s.len() ==> is_white(#[trigger] s[k]),
        trim_end(s).len() > 0 ==> !is_white(trim_end(s).last()),
    decreases s.len(),
{
    if s.len() > 0 && is_white(s.last()) {
        let front = s.drop_last();
        let j = lemma_trim_end(front);
        assert(front.subrange(0, j) =~= s.subrange(0, j));
        assert forall|k: int| j <= k < s.len() implies is_white(#[trigger] s[k]) by {
            if k < s.len() - 1 {
                assert(front[k] == s[k]);
            }
        }
        j
    } else {
        assert(s.subrange(0, s.len() as int) =~= s);
        s.len() as int
    }
}

/// The pieces of a text, put together with the separator between them, are the text.
pub proof fn pieces_make_up_the_text(s: Seq<char>, sep: char)
    ensures
        join(split(s, sep), seq![sep]) == s,
    decreases s.len(),
{
    lemma_first_separator(s, sep);
    lemma_split_holds_no_separator(s, sep);
    match find(s, seq![sep]) {
        Some(i) => {
            let rest = s.subrange(i + 1, s.len() as int);
            pieces_make_up_the_text(rest, sep);
            lemma_split_holds_no_separator(rest, sep);
            let parts = split(s, sep);
            assert(parts.subrange(1, parts.len() as int) =~= split(rest, sep));
            lemma_join_front(parts, seq![sep]);
            assert(s =~= s.subrange(0, i) + seq![sep] + rest);
        },
        None => {},
    }
}

/// Lines are read one by one: each up to its line feed, without the carriage return
/// before that, and the last one with or without a line feed.
pub proof fn lines_are_read_one_by_one(l: Seq<char>, rest: Seq<char>)
    requires
        !l.contains('\n'),
    ensures
        lines(l + seq!['\n'] + rest) == seq![without_cr(l)] + lines(rest),
        l.len() > 0 ==> lines(l) == seq![l],
        lines(Seq::empty()).len() == 0,
        without_cr(l + seq!['\r']) == l,
        l.len() > 0 && l.last() != '\r' ==> without_cr(l) == l,
{
    let s = l + seq!['\n'] + rest;
    lemma_first_separator(s, '\n');
    lemma_first_separator(l, '\n');
    match find(s, seq!['\n']) {
        Some(i) => {
            if i < l.len() {
                assert(s[i] == l[i]);
            } else if i > l.len() {
                assert(s.subrange(0, i)[l.len() as int] == '\n');
            }
            assert(s.subrange(0, i) =~= l);
            assert(s.subrange(i + 1, s.len() as int) =~= rest);
        },
        None => {
            assert(s[l.len() as int] == '\n');
        },
    }
    assert((l + seq!['\r']).drop_last() =~= l);
}

/// Texts that are put together stand one after the other, with the separator between them
/// and nothing else.
pub proof fn texts_are_joined_one_after_the_other(
    parts: Seq<Seq<char>>,
    x: Seq<char>,
    sep: Seq<char>,
)
    ensures
        join(Seq::empty(), sep) == Seq::<char>::empty(),
        join(seq![x], sep) == x,
        parts.len() > 0 ==> join(parts.push(x), sep) == join(parts, sep) + sep + x,
{
    assert(parts.push(x).drop_last() =~= parts);
}

/// A text begins with another just where it is that text with something behind it, and it
/// ends with another just where it is that text with something before it.
pub proof fn beginnings_and_endings(s: Seq<char>, p: Seq<char>, rest: Seq<char>)
    ensures
        starts_with(p + rest, p),
        ends_with(rest + p, p),
        starts_with(s, p) ==> s == p + s.subrange(p.len() as int, s.len() as int),
        ends_with(s, p) ==> s == s.subrange(0, s.len() - p.len()) + p,
{
    assert((p + rest).subrange(0, p.len() as int) =~= p);
    let t = rest + p;
    assert(t.subrange(t.len() - p.len(), t.len() as int) =~= p);
    if starts_with(s, p) {
        assert(s =~= p + s.subrange(p.len() as int, s.len() as int));
    }
    if ends_with(s, p) {
        assert(s =~= s.subrange(0, s.len() - p.len()) + p);
    }
}

} // verus!
