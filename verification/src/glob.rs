//! A small glob matcher for the patterns that rules are bound to.
use vstd::prelude::*;

use crate::letters::{all_ascii, ascii_lower, ascii_lower_char, lowercased};
use crate::paths::{components, file_name, file_name_of, named_parts};
use crate::text::{
    chars_of, contains, ends_with, find, is_white, lemma_find_contains, lemma_find_from, occurs_at,
    position, same, split, starts_with, text_between, text_contains, text_ends_with, text_split,
    text_starts_with, text_trim, trim, trim_end, trim_start, views,
};

verus! {

/// A pattern without a leading `**/`.
pub open spec fn without_any_dir(p: Seq<char>) -> Seq<char> {
    if starts_with(p, "**/"@) {
        p.subrange(3, p.len() as int)
    } else {
        p
    }
}

/// The position of the first opening brace and of the first closing brace.
pub open spec fn braces(p: Seq<char>) -> Option<(int, int)> {
    match (find(p, "{"@), find(p, "}"@)) {
        (Some(open), Some(close)) => Some((open, close)),
        _ => None,
    }
}

/// The alternatives between the first opening and the first closing brace.
pub open spec fn alternatives(p: Seq<char>) -> Seq<Seq<char>> {
    let (open, close) = braces(p).unwrap();
    split(p.subrange(open + 1, close), ',')
}

/// The pattern with an alternative in place of the braces.
pub open spec fn expansion(p: Seq<char>, k: int) -> Seq<char> {
    let (open, close) = braces(p).unwrap();
    p.subrange(0, open) + trim(alternatives(p)[k]) + p.subrange(close + 1, p.len() as int)
}

/// The braces of a pattern can be expanded: the first closing one stands behind
/// the first opening one.
pub open spec fn ordered(p: Seq<char>) -> bool {
    braces(p) matches Some((open, close)) && 0 <= open < close < p.len()
}

/// Whether a pattern without braces to expand matches a name and its base name, both
/// in lower case: `*` and an ending match every name with that ending, a pattern
/// without `*` matches the base name, and a directory, `/**/` and a pattern match
/// the names below the directory whose rest the pattern matches. Of the others only
/// those that begin with a dot match, the names that end in what stands behind it.
pub open spec fn plain_match(p: Seq<char>, name: Seq<char>, base: Seq<char>) -> bool
    decreases p.len(),
{
    if starts_with(p, "*"@) {
        ends_with(name, lowercased(p.subrange(1, p.len() as int)))
    } else if !contains(p, "*"@) {
        base == lowercased(p)
    } else {
        match find(p, "/**/"@) {
            Some(i) => if 0 <= i && i + 4 <= p.len() {
                let dir = lowercased(p.subrange(0, i + 1));
                starts_with(name, dir) && plain_match(
                    p.subrange(i + 4, p.len() as int),
                    name.subrange(dir.len() as int, name.len() as int),
                    base,
                )
            } else {
                false
            },
            None => starts_with(p, "."@) && ends_with(
                name,
                lowercased(p.subrange(1, p.len() as int)),
            ),
        }
    }
}

/// Whether a pattern matches a name: any of its alternatives does. Nothing where
/// a closing brace that stands before the first opening one is come upon.
pub open spec fn pattern_match(pattern: Seq<char>, name: Seq<char>, base: Seq<char>) -> Option<bool>
    decreases pattern.len(), 1nat, 0nat,
    via pattern_match_terminates
{
    let p = without_any_dir(pattern);
    if braces(p) is None {
        Some(plain_match(p, name, base))
    } else if ordered(p) {
        alternative_match(p, 0, name, base)
    } else {
        None
    }
}

/// Whether one of the alternatives from the `k`-th on matches.
pub open spec fn alternative_match(
    p: Seq<char>,
    k: nat,
    name: Seq<char>,
    base: Seq<char>,
) -> Option<bool>
    decreases p.len(), 0nat, alternatives(p).len() - k,
    via alternative_match_terminates
{
    if !ordered(p) {
        None
    } else if k >= alternatives(p).len() {
        Some(false)
    } else {
        match pattern_match(expansion(p, k as int), name, base) {
            None => None,
            Some(true) => Some(true),
            Some(false) => alternative_match(p, k + 1, name, base),
        }
    }
}

#[via_fn]
proof fn pattern_match_terminates(pattern: Seq<char>, name: Seq<char>, base: Seq<char>) {
    reveal_strlit("**/");
}

#[via_fn]
proof fn alternative_match_terminates(p: Seq<char>, k: nat, name: Seq<char>, base: Seq<char>) {
    if ordered(p) && k < alternatives(p).len() {
        lemma_expansion_shrinks(p, k as int);
    }
}

proof fn lemma_trim_shrinks(s: Seq<char>)
    ensures
        trim(s).len() <= s.len(),
{
    lemma_trim_start_shrinks(s);
    lemma_trim_end_shrinks(trim_start(s));
}

proof fn lemma_trim_start_shrinks(s: Seq<char>)
    ensures
        trim_start(s).len() <= s.len(),
    decreases s.len(),
{
    if s.len() > 0 && crate::text::is_white(s[0]) {
        lemma_trim_start_shrinks(s.subrange(1, s.len() as int));
    }
}

proof fn lemma_trim_end_shrinks(s: Seq<char>)
    ensures
        trim_end(s).len() <= s.len(),
    decreases s.len(),
{
    if s.len() > 0 && crate::text::is_white(s.last()) {
        lemma_trim_end_shrinks(s.drop_last());
    }
}

proof fn lemma_split_shrinks(s: Seq<char>, sep: char, k: int)
    requires
        0 <= k < split(s, sep).len(),
    ensures
        split(s, sep)[k].len() <= s.len(),
    decreases s.len(),
{
    match find(s, seq![sep]) {
        Some(i) => if 0 <= i < s.len() {
            if k > 0 {
                lemma_split_shrinks(s.subrange(i + 1, s.len() as int), sep, k - 1);
            }
        },
        None => {},
    }
}

/// An expansion is shorter than the pattern.
proof fn lemma_expansion_shrinks(p: Seq<char>, k: int)
    requires
        ordered(p),
        0 <= k < alternatives(p).len(),
    ensures
        expansion(p, k).len() < p.len(),
{
    let (open, close) = braces(p).unwrap();
    lemma_split_shrinks(p.subrange(open + 1, close), ',', k);
    lemma_trim_shrinks(alternatives(p)[k]);
}

/// The base name of a path, in lower case.
pub open spec fn lower_base(filename: Seq<char>) -> Seq<char> {
    match file_name_of(filename) {
        Some(n) => lowercased(n),
        None => lowercased(filename),
    }
}

/// Whether a pattern matches a file, whatever the case of either.
pub open spec fn glob_value(pattern: Seq<char>, filename: Seq<char>) -> Option<bool> {
    pattern_match(pattern, lowercased(filename), lower_base(filename))
}

fn match_plain(p: &str, name: &str, base: &str) -> (r: bool)
    ensures
        r == plain_match(p@, name@, base@),
    decreases p@.len(),
{
    if text_starts_with(p, "*") {
        let v = chars_of(p);
        proof {
            reveal_strlit("*");
        }
        let ending = text_between(&v, 1, v.len());
        return text_ends_with(name, ending.as_str().to_lowercase().as_str());
    }
    if !text_contains(p, "*") {
        return same(base, p.to_lowercase().as_str());
    }
    let v = chars_of(p);
    proof {
        reveal_strlit("/**/");
        reveal_strlit(".");
    }
    match position(&v, &chars_of("/**/")) {
        Some(i) => {
            proof {
                lemma_find_from(p@, "/**/"@, 0);
            }
            let dir = text_between(&v, 0, i + 1).as_str().to_lowercase();
            if !text_starts_with(name, dir.as_str()) {
                return false;
            }
            let whole = chars_of(name);
            let rest = text_between(&v, i + 4, v.len());
            let below = text_between(&whole, chars_of(dir.as_str()).len(), whole.len());
            match_plain(rest.as_str(), below.as_str(), base)
        },
        None => {
            if !text_starts_with(p, ".") {
                return false;
            }
            let ending = text_between(&v, 1, v.len());
            text_ends_with(name, ending.as_str().to_lowercase().as_str())
        },
    }
}

/// Whether a pattern matches a name and its base name, both in lower case.
pub fn match_pattern(pattern: &str, name: &str, base: &str) -> (r: Option<bool>)
    ensures
        r == pattern_match(pattern@, name@, base@),
    decreases pattern@.len(),
{
    let whole = chars_of(pattern);
    let p = if text_starts_with(pattern, "**/") {
        proof {
            reveal_strlit("**/");
        }
        text_between(&whole, 3, whole.len())
    } else {
        pattern.to_owned()
    };
    let v = chars_of(p.as_str());
    proof {
        reveal_strlit("{");
        reveal_strlit("}");
        reveal_strlit("**/");
        lemma_find_from(p@, "{"@, 0);
        lemma_find_from(p@, "}"@, 0);
    }
    let open: usize = match position(&v, &chars_of("{")) {
        Some(i) => i,
        None => {
            return Some(match_plain(p.as_str(), name, base));
        },
    };
    let close: usize = match position(&v, &chars_of("}")) {
        Some(i) => i,
        None => {
            return Some(match_plain(p.as_str(), name, base));
        },
    };
    if close <= open {
        return None;
    }
    let choices = text_split(text_between(&v, open + 1, close).as_str(), ',');
    let prefix = text_between(&v, 0, open);
    let rest = text_between(&v, close + 1, v.len());
    assert(views(choices@) == alternatives(p@));
    let mut k: usize = 0;
    while k < choices.len()
        invariant
            k <= choices@.len(),
            views(choices@) == alternatives(p@),
            braces(p@) == Some((open as int, close as int)),
            ordered(p@),
            p@.len() <= pattern@.len(),
            prefix@ == p@.subrange(0, open as int),
            rest@ == p@.subrange(close + 1, p@.len() as int),
            alternative_match(p@, 0, name@, base@) == alternative_match(
                p@,
                k as nat,
                name@,
                base@,
            ),
            pattern_match(pattern@, name@, base@) == alternative_match(p@, 0, name@, base@),
        decreases choices@.len() - k,
    {
        assert(views(choices@)[k as int] == choices@[k as int]@);
        let mut expanded = prefix.clone();
        expanded.push_str(text_trim(choices[k].as_str()).as_str());
        expanded.push_str(rest.as_str());
        assert(expanded@ == expansion(p@, k as int));
        proof {
            lemma_expansion_shrinks(p@, k as int);
        }
        match match_pattern(expanded.as_str(), name, base) {
            None => {
                return None;
            },
            Some(true) => {
                return Some(true);
            },
            Some(false) => {},
        }
        k += 1;
    }
    assert(views(choices@).len() == choices@.len());
    Some(false)
}

/// Whether a pattern matches a file, whatever the case of either; nothing where
/// the braces of the pattern are out of order.
pub fn try_glob_match(pattern: &str, filename: &str) -> (r: Option<bool>)
    ensures
        r == glob_value(pattern@, filename@),
{
    let name = filename.to_lowercase();
    let base = match file_name(filename) {
        Some(n) => n.as_str().to_lowercase(),
        None => filename.to_lowercase(),
    };
    match_pattern(pattern, name.as_str(), base.as_str())
}

/// Whether a pattern matches a file, whatever the case of either.
///
/// `**/*.ext` matches the files that end in `.ext`, `**/*.{a,b}` those that end
/// in one of the given ways, `**/name` those with that base name, and `dir/**/*.ext`
/// those below `dir/` that end in `.ext`.
pub fn glob_match_basic(pattern: &str, filename: &str) -> (r: bool)
    requires
        glob_value(pattern@, filename@) is Some,
    ensures
        glob_value(pattern@, filename@) == Some(r),
{
    match try_glob_match(pattern, filename) {
        Some(b) => b,
        None => false,
    }
}

// ---------------------------------------------------------------------------
// What the patterns mean

/// `**/*` and an ending without braces matches exactly the names with that ending,
/// in lower case.
pub proof fn ending_pattern(ending: Seq<char>, name: Seq<char>, base: Seq<char>)
    requires
        !contains(ending, "{"@) || !contains(ending, "}"@),
    ensures
        pattern_match("**/*"@ + ending, name, base) == Some(ends_with(name, lowercased(ending))),
{
    reveal_strlit("**/*");
    reveal_strlit("**/");
    reveal_strlit("*");
    reveal_strlit("{");
    reveal_strlit("}");
    let pattern = "**/*"@ + ending;
    let p = "*"@ + ending;
    assert(pattern.subrange(0, 3) =~= "**/"@);
    assert(pattern.subrange(3, pattern.len() as int) =~= p);
    assert(p.subrange(0, 1) =~= "*"@);
    assert(p.subrange(1, p.len() as int) =~= ending);
    if !contains(ending, "{"@) {
        lemma_no_brace(ending, "{"@);
    } else {
        lemma_no_brace(ending, "}"@);
    }
    lemma_find_contains(p, "{"@);
    lemma_find_contains(p, "}"@);
}

/// A star in front adds no brace.
proof fn lemma_no_brace(ending: Seq<char>, brace: Seq<char>)
    requires
        brace.len() == 1,
        brace[0] != '*',
        !contains(ending, brace),
    ensures
        !contains("*"@ + ending, brace),
{
    reveal_strlit("*");
    let p = "*"@ + ending;
    if contains(p, brace) {
        let i = choose|i: int| occurs_at(p, brace, i);
        assert(p.subrange(i, i + 1)[0] == p[i]);
        assert(i > 0);
        assert(ending.subrange(i - 1, i) =~= brace) by {
            assert(ending[i - 1] == p[i]);
        }
        assert(occurs_at(ending, brace, i - 1));
    }
}

/// `**/` and a name without a star or braces matches exactly the files with
/// that base name, in lower case.
pub proof fn base_name_pattern(file: Seq<char>, name: Seq<char>, base: Seq<char>)
    requires
        !contains(file, "*"@),
        !contains(file, "{"@) || !contains(file, "}"@),
    ensures
        pattern_match("**/"@ + file, name, base) == Some(base == lowercased(file)),
{
    reveal_strlit("**/");
    reveal_strlit("*");
    let pattern = "**/"@ + file;
    assert(pattern.subrange(0, 3) =~= "**/"@);
    assert(pattern.subrange(3, pattern.len() as int) =~= file);
    lemma_find_contains(file, "{"@);
    lemma_find_contains(file, "}"@);
    if starts_with(file, "*"@) {
        assert(contains(file, "*"@));
    }
}

proof fn lemma_trim_start_keeps(s: Seq<char>, c: char)
    requires
        !s.contains(c),
    ensures
        !trim_start(s).contains(c),
    decreases s.len(),
{
    if s.len() > 0 && crate::text::is_white(s[0]) {
        let t = s.subrange(1, s.len() as int);
        assert(!t.contains(c)) by {
            if t.contains(c) {
                let i = choose|i: int| 0 <= i < t.len() && t[i] == c;
                assert(s[i + 1] == c);
            }
        }
        lemma_trim_start_keeps(t, c);
    }
}

proof fn lemma_trim_end_keeps(s: Seq<char>, c: char)
    requires
        !s.contains(c),
    ensures
        !trim_end(s).contains(c),
    decreases s.len(),
{
    if s.len() > 0 && crate::text::is_white(s.last()) {
        let t = s.drop_last();
        assert(!t.contains(c)) by {
            if t.contains(c) {
                let i = choose|i: int| 0 <= i < t.len() && t[i] == c;
                assert(s[i] == c);
            }
        }
        lemma_trim_end_keeps(t, c);
    }
}

proof fn lemma_split_keeps(s: Seq<char>, sep: char, k: int, c: char)
    requires
        !s.contains(c),
        0 <= k < split(s, sep).len(),
    ensures
        !split(s, sep)[k].contains(c),
    decreases s.len(),
{
    match find(s, seq![sep]) {
        Some(i) => if 0 <= i < s.len() {
            let front = s.subrange(0, i);
            let tail = s.subrange(i + 1, s.len() as int);
            assert(!front.contains(c)) by {
                if front.contains(c) {
                    let j = choose|j: int| 0 <= j < front.len() && front[j] == c;
                    assert(s[j] == c);
                }
            }
            assert(!tail.contains(c)) by {
                if tail.contains(c) {
                    let j = choose|j: int| 0 <= j < tail.len() && tail[j] == c;
                    assert(s[j + i + 1] == c);
                }
            }
            if k > 0 {
                lemma_split_keeps(tail, sep, k - 1, c);
            }
        },
        None => {},
    }
}

proof fn lemma_one_char(s: Seq<char>, pat: Seq<char>)
    requires
        pat.len() == 1,
        !s.contains(pat[0]),
    ensures
        !contains(s, pat),
        find(s, pat) is None,
{
    lemma_find_contains(s, pat);
    if contains(s, pat) {
        let i = choose|i: int| occurs_at(s, pat, i);
        assert(s.subrange(i, i + 1)[0] == s[i]);
    }
}

proof fn lemma_find_at(s: Seq<char>, pat: Seq<char>, i: int)
    requires
        pat.len() == 1,
        0 <= i < s.len(),
        s[i] == pat[0],
        forall|j: int| 0 <= j < i ==> s[j] != pat[0],
    ensures
        find(s, pat) == Some(i),
{
    lemma_find_from(s, pat, 0);
    assert(s.subrange(i, i + 1) =~= pat);
    assert(occurs_at(s, pat, i));
    match find(s, pat) {
        Some(j) => {
            assert(s.subrange(j, j + 1)[0] == s[j]);
        },
        None => {},
    }
}

/// One of the listed extensions, from the `k`-th on, ends the name.
pub open spec fn ends_with_any(name: Seq<char>, extensions: Seq<Seq<char>>, k: int) -> bool {
    exists|j: int|
        k <= j < extensions.len() && ends_with(
            name,
            lowercased("."@ + trim(#[trigger] extensions[j])),
        )
}

proof fn lemma_listed(list: Seq<char>, k: nat, name: Seq<char>, base: Seq<char>)
    requires
        !list.contains('{'),
        !list.contains('}'),
        k <= split(list, ',').len(),
    ensures
        alternative_match("*.{"@ + list + "}"@, k, name, base) == Some(
            ends_with_any(name, split(list, ','), k as int),
        ),
    decreases split(list, ',').len() - k,
{
    reveal_strlit("*.{");
    reveal_strlit("{");
    reveal_strlit("}");
    reveal_strlit("*");
    reveal_strlit(".");
    reveal_strlit("**/");
    let p = "*.{"@ + list + "}"@;
    let close: int = 3 + list.len() as int;
    assert forall|j: int| 3 <= j < close implies #[trigger] p[j] != '}' by {
        assert(p[j] == list[j - 3]);
    }
    lemma_find_at(p, "{"@, 2);
    lemma_find_at(p, "}"@, close);
    assert(p.subrange(3, close) =~= list);
    let all = split(list, ',');
    assert(alternatives(p) == all);
    if k < all.len() {
        let alt = trim(all[k as int]);
        let e = "*."@ + alt;
        reveal_strlit("*.");
        assert(expansion(p, k as int) =~= e) by {
            assert(p.subrange(0, 2) =~= "*."@);
            assert(p.subrange(close + 1, p.len() as int) =~= Seq::<char>::empty());
        }
        lemma_split_keeps(list, ',', k as int, '{');
        lemma_trim_start_keeps(all[k as int], '{');
        lemma_trim_end_keeps(trim_start(all[k as int]), '{');
        assert(!e.contains('{')) by {
            if e.contains('{') {
                let j = choose|j: int| 0 <= j < e.len() && e[j] == '{';
                assert(alt[j - 2] == '{');
            }
        }
        lemma_one_char(e, "{"@);
        assert(!starts_with(e, "**/"@)) by {
            if starts_with(e, "**/"@) {
                assert(e.subrange(0, 3)[1] == e[1]);
            }
        }
        assert(e.subrange(0, 1) =~= "*"@);
        assert(e.subrange(1, e.len() as int) =~= "."@ + alt);
        assert(pattern_match(e, name, base) == Some(ends_with(name, lowercased("."@ + alt))));
        lemma_listed(list, k + 1, name, base);
        assert(ends_with_any(name, all, k as int) == (ends_with(name, lowercased("."@ + alt))
            || ends_with_any(name, all, k as int + 1))) by {
            if ends_with_any(name, all, k as int) && !ends_with(name, lowercased("."@ + alt)) {
                let j = choose|j: int|
                    k <= j < all.len() && ends_with(
                        name,
                        lowercased("."@ + trim(#[trigger] all[j])),
                    );
                assert(j >= k + 1);
            }
        }
    } else {
        assert(!ends_with_any(name, all, k as int));
    }
}

/// `**/*.{a,b,..}` matches exactly the names that end in a dot and one of the
/// listed extensions, each taken without the white space around it and in lower
/// case.
pub proof fn listed_pattern(list: Seq<char>, name: Seq<char>, base: Seq<char>)
    requires
        !list.contains('{'),
        !list.contains('}'),
    ensures
        pattern_match("**/*.{"@ + list + "}"@, name, base) == Some(
            ends_with_any(name, split(list, ','), 0),
        ),
{
    reveal_strlit("**/*.{");
    reveal_strlit("**/");
    reveal_strlit("*.{");
    reveal_strlit("{");
    reveal_strlit("}");
    let pattern = "**/*.{"@ + list + "}"@;
    let p = "*.{"@ + list + "}"@;
    assert(pattern.subrange(0, 3) =~= "**/"@);
    assert(pattern.subrange(3, pattern.len() as int) =~= p);
    let close: int = 3 + list.len() as int;
    assert forall|j: int| 3 <= j < close implies #[trigger] p[j] != '}' by {
        assert(p[j] == list[j - 3]);
    }
    lemma_find_at(p, "{"@, 2);
    lemma_find_at(p, "}"@, close);
    lemma_listed(list, 0, name, base);
}

/// A directory, `/**/*` and an ending matches exactly the names below that
/// directory whose rest has that ending.
pub proof fn directory_pattern(
    dir: Seq<char>,
    ending: Seq<char>,
    name: Seq<char>,
    base: Seq<char>,
)
    requires
        !dir.contains('*'),
        !dir.contains('{'),
        !ending.contains('{'),
    ensures
        pattern_match(dir + "/**/*"@ + ending, name, base) == Some(
            starts_with(name, lowercased(dir + "/"@)) && ends_with(
                name.subrange(lowercased(dir + "/"@).len() as int, name.len() as int),
                lowercased(ending),
            ),
        ),
{
    reveal_strlit("/**/*");
    reveal_strlit("/**/");
    reveal_strlit("**/");
    reveal_strlit("*");
    reveal_strlit("/");
    reveal_strlit("{");
    reveal_with_fuel(plain_match, 2);
    let p = dir + "/**/*"@ + ending;
    let n = dir.len() as int;
    assert(p[n] == '/' && p[n + 1] == '*' && p[n + 2] == '*' && p[n + 3] == '/' && p[n + 4] == '*');
    assert forall|i: int| 0 <= i < n implies p[i] != '*' && p[i] != '{' by {
        assert(p[i] == dir[i]);
    }
    assert forall|i: int| n + 5 <= i < p.len() implies p[i] != '{' by {
        assert(p[i] == ending[i - n - 5]);
    }
    assert(!starts_with(p, "*"@)) by {
        assert(p[0] != '*');
        assert(p.subrange(0, 1)[0] == p[0]);
    }
    assert(!starts_with(p, "**/"@)) by {
        assert(p.subrange(0, 3)[0] == p[0]);
    }
    assert(occurs_at(p, "*"@, n + 1)) by {
        assert(p.subrange(n + 1, n + 2) =~= "*"@);
    }
    assert(!p.contains('{'));
    lemma_one_char(p, "{"@);
    assert(occurs_at(p, "/**/"@, n)) by {
        assert(p.subrange(n, n + 4) =~= "/**/"@);
    }
    lemma_find_from(p, "/**/"@, 0);
    assert forall|i: int| 0 <= i < n implies !occurs_at(p, "/**/"@, i) by {
        if occurs_at(p, "/**/"@, i) {
            let part = p.subrange(i, i + 4);
            assert(part[1] == p[i + 1] && part[2] == p[i + 2]);
        }
    }
    assert(find(p, "/**/"@) == Some(n));
    assert(p.subrange(0, n + 1) =~= dir + "/"@);
    let rest = p.subrange(n + 4, p.len() as int);
    assert(rest =~= "*"@ + ending);
    assert(rest.subrange(0, 1) =~= "*"@);
    assert(rest.subrange(1, rest.len() as int) =~= ending);
}

// ---------------------------------------------------------------------------
// Braces

/// An extension as it may stand between braces: without a brace or a comma, and
/// without white space in front or behind.
pub open spec fn plain_extension(e: Seq<char>) -> bool {
    &&& !e.contains('{') && !e.contains('}') && !e.contains(',')
    &&& e.len() > 0 ==> !is_white(e[0]) && !is_white(e.last())
}

/// A brace pattern matches exactly where one of its alternatives does.
pub proof fn braces_match_each_alternative(a: Seq<char>, b: Seq<char>, filename: Seq<char>)
    requires
        plain_extension(a),
        plain_extension(b),
    ensures
        ({
            let first = glob_value("**/*."@ + a, filename);
            let second = glob_value("**/*."@ + b, filename);
            &&& first is Some && second is Some
            &&& glob_value("**/*.{"@ + a + ","@ + b + "}"@, filename) == Some(
                first.unwrap() || second.unwrap(),
            )
        }),
{
    reveal_strlit("**/*.{");
    reveal_strlit(",");
    reveal_strlit("}");
    let name = lowercased(filename);
    let base = lower_base(filename);
    lemma_single(a, name, base);
    lemma_single(b, name, base);
    let list = a + ","@ + b;
    assert("**/*.{"@ + a + ","@ + b + "}"@ =~= "**/*.{"@ + list + "}"@);
    assert forall|i: int| 0 <= i < list.len() implies list[i] != '{' && list[i] != '}' by {
        if i < a.len() {
            assert(list[i] == a[i]);
            assert(a.contains(a[i]));
        } else if i > a.len() {
            assert(list[i] == b[i - a.len() - 1]);
            assert(b.contains(b[i - a.len() - 1]));
        }
    }
    listed_pattern(list, name, base);
    lemma_two_parts(a, b);
    let parts = split(list, ',');
    assert(parts[0] == a && parts[1] == b);
    assert(trim(a) == a && trim(b) == b);
    assert(ends_with_any(name, parts, 0) == (ends_with(name, lowercased("."@ + a)) || ends_with(
        name,
        lowercased("."@ + b),
    )));
}

proof fn lemma_single(e: Seq<char>, name: Seq<char>, base: Seq<char>)
    requires
        !e.contains('{'),
    ensures
        pattern_match("**/*."@ + e, name, base) == Some(ends_with(name, lowercased("."@ + e))),
{
    reveal_strlit("**/*.");
    reveal_strlit("**/*");
    reveal_strlit(".");
    reveal_strlit("{");
    let ending = "."@ + e;
    assert("**/*."@ + e =~= "**/*"@ + ending);
    assert(!ending.contains('{')) by {
        if ending.contains('{') {
            let i = choose|i: int| 0 <= i < ending.len() && ending[i] == '{';
            assert(e[i - 1] == '{');
        }
    }
    lemma_one_char(ending, "{"@);
    ending_pattern(ending, name, base);
}

proof fn lemma_two_parts(x: Seq<char>, y: Seq<char>)
    requires
        !x.contains(','),
        !y.contains(','),
    ensures
        split(x + ","@ + y, ',') == seq![x, y],
{
    reveal_strlit(",");
    reveal_with_fuel(split, 2);
    let s = x + ","@ + y;
    let n = x.len() as int;
    assert(s[n] == ',');
    assert forall|j: int| 0 <= j < n implies s[j] != ',' by {
        assert(s[j] == x[j]);
        assert(x.contains(x[j]));
    }
    lemma_find_at(s, seq![','], n);
    assert(s.subrange(0, n) =~= x);
    assert(s.subrange(n + 1, s.len() as int) =~= y);
    lemma_one_char(y, seq![',']);
    assert(split(y, ',') =~= seq![y]);
    assert(split(s, ',') =~= seq![x, y]);
}

// ---------------------------------------------------------------------------
// Letters

/// The parts of a list are equal but for the case of ASCII letters, and hold
/// ASCII characters alone.
spec fn folded(a: Seq<Seq<char>>, b: Seq<Seq<char>>) -> bool {
    &&& a.len() == b.len()
    &&& forall|i: int| 0 <= i < a.len() ==> same_fold(#[trigger] a[i], b[i])
}

spec fn same_fold(a: Seq<char>, b: Seq<char>) -> bool {
    all_ascii(a) && all_ascii(b) && ascii_lower(a) == ascii_lower(b)
}

/// A character that is no ASCII letter.
spec fn caseless(c: char) -> bool {
    !('A' <= c <= 'Z') && !('a' <= c <= 'z')
}

/// Texts that are equal but for their case have the same characters wherever
/// one of them has no letter.
proof fn lemma_fold_chars(a: Seq<char>, b: Seq<char>)
    requires
        same_fold(a, b),
    ensures
        a.len() == b.len(),
        forall|i: int|
            0 <= i < a.len() ==> (caseless(#[trigger] a[i]) || caseless(b[i]) ==> a[i] == b[i]),
{
    assert(ascii_lower(a).len() == a.len() && ascii_lower(b).len() == b.len());
    assert forall|i: int|
        0 <= i < a.len() && (caseless(#[trigger] a[i]) || caseless(b[i])) implies a[i] == b[i] by {
        assert(ascii_lower(a)[i] == ascii_lower_char(a[i]));
        assert(ascii_lower(b)[i] == ascii_lower_char(b[i]));
    }
}

proof fn lemma_fold_part(a: Seq<char>, b: Seq<char>, from: int, to: int)
    requires
        same_fold(a, b),
        0 <= from <= to <= a.len(),
    ensures
        same_fold(a.subrange(from, to), b.subrange(from, to)),
{
    lemma_fold_chars(a, b);
    let x = a.subrange(from, to);
    let y = b.subrange(from, to);
    assert forall|i: int| 0 <= i < x.len() implies (#[trigger] x[i] as u32) < 128 by {
        assert(x[i] == a[i + from]);
    }
    assert forall|i: int| 0 <= i < y.len() implies (#[trigger] y[i] as u32) < 128 by {
        assert(y[i] == b[i + from]);
    }
    assert forall|i: int| 0 <= i < x.len() implies ascii_lower(x)[i] == ascii_lower(y)[i] by {
        assert(ascii_lower(a)[i + from] == ascii_lower(b)[i + from]);
    }
    assert(ascii_lower(x) =~= ascii_lower(y));
}

/// A pattern without letters stands in both texts at the same places.
proof fn lemma_find_fold(a: Seq<char>, b: Seq<char>, pat: Seq<char>)
    requires
        same_fold(a, b),
        forall|k: int| 0 <= k < pat.len() ==> caseless(#[trigger] pat[k]),
    ensures
        forall|i: int| occurs_at(a, pat, i) == #[trigger] occurs_at(b, pat, i),
        find(a, pat) == find(b, pat),
        contains(a, pat) == contains(b, pat),
        starts_with(a, pat) == starts_with(b, pat),
{
    lemma_fold_chars(a, b);
    assert forall|i: int| occurs_at(a, pat, i) == #[trigger] occurs_at(b, pat, i) by {
        if 0 <= i && i + pat.len() <= a.len() {
            let x = a.subrange(i, i + pat.len());
            let y = b.subrange(i, i + pat.len());
            if x == pat {
                assert forall|k: int| 0 <= k < pat.len() implies y[k] == pat[k] by {
                    assert(x[k] == a[i + k] && y[k] == b[i + k]);
                    assert(caseless(pat[k]));
                }
                assert(y =~= pat);
            }
            if y == pat {
                assert forall|k: int| 0 <= k < pat.len() implies x[k] == pat[k] by {
                    assert(x[k] == a[i + k] && y[k] == b[i + k]);
                    assert(caseless(pat[k]));
                }
                assert(x =~= pat);
            }
        }
    }
    lemma_find_from(a, pat, 0);
    lemma_find_from(b, pat, 0);
    lemma_find_contains(a, pat);
    lemma_find_contains(b, pat);
    match (find(a, pat), find(b, pat)) {
        (Some(i), Some(j)) => {
            assert(occurs_at(b, pat, i) && occurs_at(b, pat, j));
        },
        (Some(i), None) => {
            assert(occurs_at(b, pat, i));
        },
        (None, Some(j)) => {
            assert(occurs_at(b, pat, j));
        },
        (None, None) => {},
    }
    assert(occurs_at(a, pat, 0) == occurs_at(b, pat, 0));
}

proof fn lemma_split_fold(a: Seq<char>, b: Seq<char>, sep: char)
    requires
        same_fold(a, b),
        caseless(sep),
    ensures
        folded(split(a, sep), split(b, sep)),
    decreases a.len(),
{
    let pat = seq![sep];
    lemma_fold_chars(a, b);
    lemma_find_fold(a, b, pat);
    lemma_find_from(a, pat, 0);
    match find(a, pat) {
        Some(i) => {
            let n = a.len() as int;
            lemma_fold_part(a, b, 0, i);
            lemma_fold_part(a, b, i + 1, n);
            lemma_split_fold(a.subrange(i + 1, n), b.subrange(i + 1, n), sep);
        },
        None => {},
    }
}

proof fn lemma_trim_fold(a: Seq<char>, b: Seq<char>)
    requires
        same_fold(a, b),
    ensures
        same_fold(trim(a), trim(b)),
{
    lemma_trim_start_fold(a, b);
    lemma_trim_end_fold(trim_start(a), trim_start(b));
}

proof fn lemma_trim_start_fold(a: Seq<char>, b: Seq<char>)
    requires
        same_fold(a, b),
    ensures
        same_fold(trim_start(a), trim_start(b)),
    decreases a.len(),
{
    lemma_fold_chars(a, b);
    if a.len() > 0 {
        let n = a.len() as int;
        assert(is_white(a[0]) == is_white(b[0]));
        lemma_fold_part(a, b, 1, n);
        lemma_trim_start_fold(a.subrange(1, n), b.subrange(1, n));
    }
}

proof fn lemma_trim_end_fold(a: Seq<char>, b: Seq<char>)
    requires
        same_fold(a, b),
    ensures
        same_fold(trim_end(a), trim_end(b)),
    decreases a.len(),
{
    lemma_fold_chars(a, b);
    if a.len() > 0 {
        let n = a.len() as int;
        assert(is_white(a[n - 1]) == is_white(b[n - 1]));
        lemma_fold_part(a, b, 0, n - 1);
        assert(a.drop_last() =~= a.subrange(0, n - 1));
        assert(b.drop_last() =~= b.subrange(0, n - 1));
        lemma_trim_end_fold(a.drop_last(), b.drop_last());
    }
}

proof fn lemma_add_fold(a: Seq<char>, b: Seq<char>, x: Seq<char>, y: Seq<char>)
    requires
        same_fold(a, b),
        same_fold(x, y),
    ensures
        same_fold(a + x, b + y),
{
    lemma_fold_chars(a, b);
    lemma_fold_chars(x, y);
    assert forall|i: int| 0 <= i < (a + x).len() implies (#[trigger] (a + x)[i] as u32) < 128 by {
        if i < a.len() {
            assert((a + x)[i] == a[i]);
        } else {
            assert((a + x)[i] == x[i - a.len()]);
        }
    }
    assert forall|i: int| 0 <= i < (b + y).len() implies (#[trigger] (b + y)[i] as u32) < 128 by {
        if i < b.len() {
            assert((b + y)[i] == b[i]);
        } else {
            assert((b + y)[i] == y[i - b.len()]);
        }
    }
    assert(ascii_lower(a + x) =~= ascii_lower(a) + ascii_lower(x));
    assert(ascii_lower(b + y) =~= ascii_lower(b) + ascii_lower(y));
}

proof fn lemma_plain_fold(a: Seq<char>, b: Seq<char>, name: Seq<char>, base: Seq<char>)
    requires
        same_fold(a, b),
    ensures
        plain_match(a, name, base) == plain_match(b, name, base),
    decreases a.len(),
{
    reveal_strlit("*");
    reveal_strlit("/**/");
    reveal_strlit(".");
    lemma_fold_chars(a, b);
    lemma_find_fold(a, b, "*"@);
    lemma_find_fold(a, b, "/**/"@);
    lemma_find_fold(a, b, "."@);
    lemma_find_from(a, "/**/"@, 0);
    let n = a.len() as int;
    if n > 0 {
        lemma_fold_part(a, b, 1, n);
    }
    match find(a, "/**/"@) {
        Some(i) => {
            lemma_fold_part(a, b, 0, i + 1);
            lemma_fold_part(a, b, i + 4, n);
            let dir = lowercased(a.subrange(0, i + 1));
            lemma_plain_fold(
                a.subrange(i + 4, n),
                b.subrange(i + 4, n),
                name.subrange(dir.len() as int, name.len() as int),
                base,
            );
        },
        None => {},
    }
}

proof fn lemma_pattern_fold(a: Seq<char>, b: Seq<char>, name: Seq<char>, base: Seq<char>)
    requires
        same_fold(a, b),
    ensures
        pattern_match(a, name, base) == pattern_match(b, name, base),
    decreases a.len(), 1nat, 0nat,
{
    reveal_strlit("**/");
    reveal_strlit("{");
    reveal_strlit("}");
    lemma_fold_chars(a, b);
    lemma_find_fold(a, b, "**/"@);
    let n = a.len() as int;
    if starts_with(a, "**/"@) {
        lemma_fold_part(a, b, 3, n);
    }
    let p = without_any_dir(a);
    let q = without_any_dir(b);
    lemma_fold_chars(p, q);
    lemma_find_fold(p, q, "{"@);
    lemma_find_fold(p, q, "}"@);
    lemma_plain_fold(p, q, name, base);
    if ordered(p) {
        lemma_alternatives_fold(p, q, 0, name, base);
    }
}

proof fn lemma_alternatives_fold(
    p: Seq<char>,
    q: Seq<char>,
    k: nat,
    name: Seq<char>,
    base: Seq<char>,
)
    requires
        same_fold(p, q),
        ordered(p),
    ensures
        alternative_match(p, k, name, base) == alternative_match(q, k, name, base),
    decreases p.len(), 0nat, alternatives(p).len() - k,
{
    reveal_strlit("{");
    reveal_strlit("}");
    lemma_fold_chars(p, q);
    lemma_find_fold(p, q, "{"@);
    lemma_find_fold(p, q, "}"@);
    let (open, close) = braces(p).unwrap();
    let n = p.len() as int;
    lemma_fold_part(p, q, open + 1, close);
    lemma_split_fold(p.subrange(open + 1, close), q.subrange(open + 1, close), ',');
    if k < alternatives(p).len() {
        assert(same_fold(alternatives(p)[k as int], alternatives(q)[k as int]));
        lemma_trim_fold(alternatives(p)[k as int], alternatives(q)[k as int]);
        lemma_fold_part(p, q, 0, open);
        lemma_fold_part(p, q, close + 1, n);
        let x = p.subrange(0, open) + trim(alternatives(p)[k as int]);
        let y = q.subrange(0, open) + trim(alternatives(q)[k as int]);
        lemma_add_fold(
            p.subrange(0, open),
            q.subrange(0, open),
            trim(alternatives(p)[k as int]),
            trim(alternatives(q)[k as int]),
        );
        lemma_add_fold(x, y, p.subrange(close + 1, n), q.subrange(close + 1, n));
        lemma_expansion_shrinks(p, k as int);
        lemma_pattern_fold(expansion(p, k as int), expansion(q, k as int), name, base);
        lemma_alternatives_fold(p, q, k + 1, name, base);
    }
}

proof fn lemma_named_fold(a: Seq<Seq<char>>, b: Seq<Seq<char>>)
    requires
        folded(a, b),
    ensures
        folded(named_parts(a), named_parts(b)),
    decreases a.len(),
{
    if a.len() > 0 {
        let x = a.last();
        let y = b.last();
        assert(same_fold(a[a.len() - 1], b[a.len() - 1]));
        assert forall|i: int| 0 <= i < a.drop_last().len() implies same_fold(
            #[trigger] a.drop_last()[i],
            b.drop_last()[i],
        ) by {
            assert(same_fold(a[i], b[i]));
        }
        lemma_named_fold(a.drop_last(), b.drop_last());
        lemma_dots_fold(x, y);
    }
}

proof fn lemma_dots_fold(x: Seq<char>, y: Seq<char>)
    requires
        same_fold(x, y),
    ensures
        x.len() == y.len(),
        x == "."@ <==> y == "."@,
        x == ".."@ <==> y == ".."@,
{
    reveal_strlit(".");
    reveal_strlit("..");
    lemma_fold_chars(x, y);
    if x == "."@ {
        assert(x[0] == '.');
        assert(y =~= "."@);
    }
    if y == "."@ {
        assert(x[0] == y[0]);
        assert(x =~= "."@);
    }
    if x == ".."@ {
        assert(x[0] == '.' && x[1] == '.');
        assert(y =~= ".."@);
    }
    if y == ".."@ {
        assert(x[0] == y[0] && x[1] == y[1]);
        assert(x =~= ".."@);
    }
}

/// The case of ASCII letters does not matter, neither in a pattern nor in the
/// name of a file.
pub proof fn case_does_not_matter(
    pattern1: Seq<char>,
    pattern2: Seq<char>,
    filename1: Seq<char>,
    filename2: Seq<char>,
)
    requires
        all_ascii(pattern1) && all_ascii(pattern2) && ascii_lower(pattern1) == ascii_lower(
            pattern2,
        ),
        all_ascii(filename1) && all_ascii(filename2) && ascii_lower(filename1) == ascii_lower(
            filename2,
        ),
    ensures
        glob_value(pattern1, filename1) == glob_value(pattern2, filename2),
{
    lemma_pattern_fold(pattern1, pattern2, lowercased(filename1), lower_base(filename1));
    lemma_split_fold(filename1, filename2, '/');
    lemma_named_fold(split(filename1, '/'), split(filename2, '/'));
    let a = components(filename1);
    let b = components(filename2);
    if a.len() > 0 {
        assert(same_fold(a[a.len() - 1], b[a.len() - 1]));
        lemma_dots_fold(a.last(), b.last());
    }
}

} // verus!
