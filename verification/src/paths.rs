//! File paths with `/` between their parts.
use vstd::prelude::*;

use crate::text::{
    chars_of, find, lemma_first_separator, lemma_split_front, lemma_split_one, lemma_views_push,
    same, split, text_between, text_split, views,
};

verus! {

/// The parts of a path that count: empty ones do not, nor does `.` but in front.
pub open spec fn named_parts(parts: Seq<Seq<char>>) -> Seq<Seq<char>>
    decreases parts.len(),
{
    if parts.len() == 0 {
        Seq::empty()
    } else {
        let rest = named_parts(parts.drop_last());
        let part = parts.last();
        if part.len() == 0 || (part == "."@ && parts.len() > 1) {
            rest
        } else {
            rest.push(part)
        }
    }
}

/// The parts of a path, without the root.
pub open spec fn components(path: Seq<char>) -> Seq<Seq<char>> {
    named_parts(split(path, '/'))
}

/// The last part of a path, where it names a file or a directory.
pub open spec fn file_name_of(path: Seq<char>) -> Option<Seq<char>> {
    let parts = components(path);
    if parts.len() == 0 || parts.last() == "."@ || parts.last() == ".."@ {
        None
    } else {
        Some(parts.last())
    }
}

/// The position of the last dot.
pub open spec fn last_dot(name: Seq<char>) -> Option<int>
    decreases name.len(),
{
    if name.len() == 0 {
        None
    } else if name.last() == '.' {
        Some(name.len() - 1)
    } else {
        last_dot(name.drop_last())
    }
}

/// What stands behind the last dot of a file name, unless that dot is in front.
pub open spec fn extension_of(name: Seq<char>) -> Option<Seq<char>> {
    if name == ".."@ {
        None
    } else {
        match last_dot(name) {
            Some(i) => if i == 0 {
                None
            } else {
                Some(name.subrange(i + 1, name.len() as int))
            },
            None => None,
        }
    }
}

fn path_components(path: &str) -> (r: Vec<String>)
    ensures
        views(r@) == components(path@),
{
    let parts = text_split(path, '/');
    let ghost all = views(parts@);
    let mut out: Vec<String> = Vec::new();
    let mut i: usize = 0;
    assert(views(out@) =~= named_parts(all.take(0)));
    while i < parts.len()
        invariant
            i <= parts@.len(),
            all == views(parts@),
            views(out@) == named_parts(all.take(i as int)),
        decreases parts@.len() - i,
    {
        assert(all.take(i + 1).drop_last() =~= all.take(i as int));
        assert(all.take(i + 1).last() == parts@[i as int]@);
        if !(parts[i].as_str().is_empty() || (same(parts[i].as_str(), ".") && i > 0)) {
            proof {
                lemma_views_push(out@, parts@[i as int]);
            }
            out.push(parts[i].clone());
        }
        i += 1;
    }
    assert(all.take(i as int) =~= all);
    out
}

/// The last part of a path, where it names a file or a directory.
pub fn file_name(path: &str) -> (r: Option<String>)
    ensures
        match r {
            Some(n) => file_name_of(path@) == Some(n@),
            None => file_name_of(path@) is None,
        },
{
    let parts = path_components(path);
    let n: usize = parts.len();
    assert(views(parts@).len() == parts@.len());
    if n == 0 {
        return None;
    }
    assert(views(parts@).last() == parts@[n - 1]@);
    if same(parts[n - 1].as_str(), ".") || same(parts[n - 1].as_str(), "..") {
        None
    } else {
        Some(parts[n - 1].clone())
    }
}

/// What stands behind the last dot of a file name, unless that dot is in front.
pub fn extension(name: &str) -> (r: Option<String>)
    ensures
        match r {
            Some(e) => extension_of(name@) == Some(e@),
            None => extension_of(name@) is None,
        },
{
    if same(name, "..") {
        return None;
    }
    let v = chars_of(name);
    let mut i: usize = v.len();
    assert(v@.subrange(0, v@.len() as int) =~= v@);
    while i > 0
        invariant
            i <= v@.len(),
            v@ == name@,
            name@ != ".."@,
            last_dot(v@) == last_dot(v@.subrange(0, i as int)),
        decreases i,
    {
        assert(v@.subrange(0, i as int).drop_last() =~= v@.subrange(0, i - 1));
        assert(v@.subrange(0, i as int).last() == v@[i - 1]);
        if v[i - 1] == '.' {
            if i == 1 {
                return None;
            }
            return Some(text_between(&v, i, v.len()));
        }
        i -= 1;
    }
    None
}

proof fn lemma_split_back(dir: Seq<char>, name: Seq<char>)
    requires
        !name.contains('/'),
    ensures
        split(dir + seq!['/'] + name, '/') == split(dir, '/').push(name),
    decreases dir.len(),
{
    lemma_first_separator(dir, '/');
    match find(dir, seq!['/']) {
        Some(i) => {
            let front = dir.subrange(0, i);
            let rest = dir.subrange(i + 1, dir.len() as int);
            assert(dir + seq!['/'] + name =~= front + seq!['/'] + (rest + seq!['/'] + name));
            lemma_split_front(front, '/', rest + seq!['/'] + name);
            lemma_split_back(rest, name);
            assert(seq![front] + split(rest, '/').push(name) =~= (seq![front] + split(
                rest,
                '/',
            )).push(name));
        },
        None => {
            lemma_split_front(dir, '/', name);
            lemma_split_one(name, '/');
            lemma_split_one(dir, '/');
            assert(seq![dir] + seq![name] =~= seq![dir].push(name));
        },
    }
}

/// The name of a file is what stands behind the last slash of its path, whatever stands
/// before it; a path without a slash is itself the name.
pub proof fn the_last_part_is_the_name(dir: Seq<char>, name: Seq<char>)
    requires
        !name.contains('/'),
        name.len() > 0,
        name != "."@,
        name != ".."@,
    ensures
        file_name_of(dir + "/"@ + name) == Some(name),
        file_name_of(name) == Some(name),
        file_name_of(dir + "/"@ + name + "/"@) == Some(name),
{
    reveal_strlit("/");
    assert("/"@ =~= seq!['/']);
    reveal_with_fuel(named_parts, 2);
    lemma_split_back(dir, name);
    let parts = split(dir, '/');
    assert(parts.push(name).drop_last() =~= parts);
    lemma_split_one(name, '/');
    assert(seq![name].drop_last() =~= Seq::<Seq<char>>::empty());
    let none = Seq::<char>::empty();
    lemma_split_back(dir + "/"@ + name, none);
    assert(dir + "/"@ + name + "/"@ =~= (dir + "/"@ + name) + seq!['/'] + none);
    let all = parts.push(name);
    assert(all.push(none).drop_last() =~= all);
}

proof fn lemma_last_dot(name: Seq<char>, stem: int)
    requires
        0 <= stem < name.len(),
        name[stem] == '.',
        forall|i: int| stem < i < name.len() ==> #[trigger] name[i] != '.',
    ensures
        last_dot(name) == Some(stem),
    decreases name.len(),
{
    if stem < name.len() - 1 {
        let front = name.drop_last();
        assert(name[name.len() - 1] != '.');
        assert forall|i: int| stem < i < front.len() implies #[trigger] front[i] != '.' by {
            assert(front[i] == name[i]);
        }
        lemma_last_dot(front, stem);
    }
}

/// The extension of a file is what stands behind the last dot of its name, unless that
/// dot is in front; a name without a dot has none.
pub proof fn extensions_stand_behind_the_last_dot(stem: Seq<char>, ext: Seq<char>)
    requires
        !ext.contains('.'),
        stem + "."@ + ext != ".."@,
    ensures
        stem.len() > 0 ==> extension_of(stem + "."@ + ext) == Some(ext),
        extension_of("."@ + ext) is None,
        extension_of(ext) is None,
{
    reveal_strlit(".");
    let name = stem + "."@ + ext;
    assert forall|i: int| stem.len() < i < name.len() implies #[trigger] name[i] != '.' by {
        assert(name[i] == ext[i - stem.len() - 1]);
        assert(ext.contains(ext[i - stem.len() - 1]));
    }
    lemma_last_dot(name, stem.len() as int);
    assert(name.subrange(stem.len() as int + 1, name.len() as int) =~= ext);
    let hidden = "."@ + ext;
    assert forall|i: int| 0 < i < hidden.len() implies #[trigger] hidden[i] != '.' by {
        assert(hidden[i] == ext[i - 1]);
        assert(ext.contains(ext[i - 1]));
    }
    lemma_last_dot(hidden, 0);
    lemma_no_dot(ext);
}

proof fn lemma_no_dot(name: Seq<char>)
    requires
        !name.contains('.'),
    ensures
        last_dot(name) is None,
    decreases name.len(),
{
    if name.len() > 0 {
        assert(name.contains(name[name.len() - 1]));
        assert(!name.drop_last().contains('.')) by {
            if name.drop_last().contains('.') {
                let k = choose|k: int| 0 <= k < name.drop_last().len() && name.drop_last()[k] == '.';
                assert(name[k] == '.');
            }
        }
        lemma_no_dot(name.drop_last());
    }
}

} // verus!
